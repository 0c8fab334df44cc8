//! Component descriptors: the name of a component, its type, the factory
//! that builds it, and the hooks to run after it was built and before it is
//! given up.

use vstd::prelude::*;
use std::sync::Arc;
use crate::context::Context;
use crate::error::Error;
use crate::error::Failure;
use crate::text::join2;
use crate::ty::Handle;
use crate::ty::Type;
use crate::ty::TypeRegistry;

verus! {

/// Builds a component. A factory may resolve the components it depends on
/// from the context it is handed, and so may change that context through its
/// public operations.
pub trait BeanFactory: Send + Sync {
    /// What one run of the factory may come to: whether, run against the
    /// context `before`, it may leave the context as `after` and return `made`.
    /// A factory that says nothing of itself may come to anything.
    open spec fn creates(
        &self,
        before: Context,
        types: TypeRegistry,
        after: Context,
        made: Result<Handle, Error>,
    ) -> bool {
        true
    }

    fn create(&self, context: &mut Context, types: &TypeRegistry) -> (made: Result<Handle, Error>)
        requires
            old(context).wf(),
            types.wf(),
        ensures
            final(context).wf(),
            self.creates(*old(context), *types, *final(context), made),
    ;
}

/// What one run of the factory behind a holder may come to: what that factory
/// says of itself in `creates`.
pub uninterp spec fn factory_made(
    factory: SharedFactory,
    before: Context,
    types: TypeRegistry,
    after: Context,
    made: Result<Handle, Error>,
) -> bool;

/// A factory that several descriptors and callers hold at once. Two of them
/// are equal when they hold the same factory.
#[verifier::external_body]
pub struct SharedFactory {
    inner: Arc<dyn BeanFactory>,
}

impl SharedFactory {
    /// `Arc::new`, with the factory's type forgotten. What `factory_made` says
    /// of the holder is what the factory says of itself.
    #[verifier::external_body]
    pub fn new<F: BeanFactory + 'static>(factory: F) -> (shared: SharedFactory)
        ensures
            forall|before: Context, types: TypeRegistry, after: Context, made: Result<Handle, Error>|
                #![trigger factory_made(shared, before, types, after, made)]
                factory_made(shared, before, types, after, made) == factory.creates(
                    before,
                    types,
                    after,
                    made,
                ),
    {
        SharedFactory { inner: Arc::new(factory) }
    }

    /// `Arc::clone`: another holder of the same factory.
    #[verifier::external_body]
    pub fn share(&self) -> (copy: SharedFactory)
        ensures
            copy == *self,
    {
        SharedFactory { inner: Arc::clone(&self.inner) }
    }

    /// The `Arc` that the holder holds, by reference. What the factory behind
    /// it says of its runs is what `factory_made` says of the holder.
    #[verifier::external_body]
    pub(crate) fn factory(&self) -> (held: &Arc<dyn BeanFactory>)
        ensures
            forall|before: Context, types: TypeRegistry, after: Context, made: Result<Handle, Error>|
                #![trigger factory_made(*self, before, types, after, made)]
                held.creates(before, types, after, made) == factory_made(
                    *self,
                    before,
                    types,
                    after,
                    made,
                ),
    {
        &self.inner
    }
}

/// Something to do with a component after it was built or before it is given
/// up. A hook may resolve other components from the context it is handed.
pub trait BeanHook: Send + Sync {
    /// What one run of the hook may come to: whether, run on `handle` in the
    /// context `before`, it may leave the context as `after` and return `r`. A
    /// hook that says nothing of itself may come to anything.
    open spec fn runs(
        &self,
        before: Context,
        types: TypeRegistry,
        handle: Handle,
        after: Context,
        r: Result<(), Error>,
    ) -> bool {
        true
    }

    fn run(&self, context: &mut Context, types: &TypeRegistry, handle: &Handle) -> (r: Result<
        (),
        Error,
    >)
        requires
            old(context).wf(),
            types.wf(),
        ensures
            final(context).wf(),
            self.runs(*old(context), *types, *handle, *final(context), r),
    ;
}

/// What one run of the hook behind a holder may come to: what that hook says
/// of itself in `runs`.
pub uninterp spec fn hook_runs(
    hook: SharedHook,
    before: Context,
    types: TypeRegistry,
    handle: Handle,
    after: Context,
    r: Result<(), Error>,
) -> bool;

/// A hook that several descriptors hold at once. Two of them are equal when
/// they hold the same hook.
#[verifier::external_body]
pub struct SharedHook {
    inner: Arc<dyn BeanHook>,
}

impl SharedHook {
    /// `Arc::new`, with the hook's type forgotten. What `hook_runs` says of the
    /// holder is what the hook says of itself.
    #[verifier::external_body]
    pub fn new<F: BeanHook + 'static>(hook: F) -> (shared: SharedHook)
        ensures
            forall|before: Context, types: TypeRegistry, handle: Handle, after: Context, r: Result<(), Error>|
                #![trigger hook_runs(shared, before, types, handle, after, r)]
                hook_runs(shared, before, types, handle, after, r) == hook.runs(
                    before,
                    types,
                    handle,
                    after,
                    r,
                ),
    {
        SharedHook { inner: Arc::new(hook) }
    }

    /// `Arc::clone`: another holder of the same hook.
    #[verifier::external_body]
    pub fn share(&self) -> (copy: SharedHook)
        ensures
            copy == *self,
    {
        SharedHook { inner: Arc::clone(&self.inner) }
    }

    /// The `Arc` that the holder holds, by reference. What the hook behind
    /// it says of its runs is what `hook_runs` says of the holder.
    #[verifier::external_body]
    pub(crate) fn hook(&self) -> (held: &Arc<dyn BeanHook>)
        ensures
            forall|before: Context, types: TypeRegistry, handle: Handle, after: Context, r: Result<(), Error>|
                #![trigger hook_runs(*self, before, types, handle, after, r)]
                held.runs(before, types, handle, after, r) == hook_runs(
                    *self,
                    before,
                    types,
                    handle,
                    after,
                    r,
                ),
    {
        &self.inner
    }
}

/// Whether `results` are the results of the first runs of `hooks` on `handle`,
/// one after another, and `states` the contexts between the runs: run `i` takes
/// the context from `states[i]` to `states[i + 1]` as the hook says of itself,
/// and no run but the last is a failure.
pub open spec fn hooks_trace(
    hooks: Seq<SharedHook>,
    types: TypeRegistry,
    handle: Handle,
    states: Seq<Context>,
    results: Seq<Result<(), Error>>,
) -> bool {
    &&& results.len() <= hooks.len()
    &&& states.len() == results.len() + 1
    &&& forall|i: int|
        0 <= i < results.len() ==> hook_runs(
            hooks[i],
            states[i],
            types,
            handle,
            states[i + 1],
            #[trigger] results[i],
        )
    &&& forall|i: int| 0 <= i < results.len() - 1 ==> (#[trigger] results[i]) is Ok
}

/// Whether `r` and `after` are what a run of `hooks` on `handle` in the context
/// `before` may come to: the hooks run in order, each in the context that the
/// one before left; the first failure ends the run and is its result, and
/// without a failure every hook has run.
pub open spec fn hooks_ran(
    hooks: Seq<SharedHook>,
    types: TypeRegistry,
    handle: Handle,
    before: Context,
    after: Context,
    r: Result<(), Error>,
) -> bool {
    exists|states: Seq<Context>, results: Seq<Result<(), Error>>|
        {
            &&& #[trigger] hooks_trace(hooks, types, handle, states, results)
            &&& states[0] == before
            &&& states.last() == after
            &&& match r {
                Ok(_) => {
                    &&& results.len() == hooks.len()
                    &&& forall|i: int| 0 <= i < results.len() ==> (#[trigger] results[i]) is Ok
                },
                Err(e) => results.len() > 0 && results.last() == Err::<(), Error>(e),
            }
        }
}

/// Runs `hooks` on `handle`, in order. The first failure ends the run and is
/// its result. Without hooks the run succeeds and changes nothing.
pub fn run_hooks(hooks: &Vec<SharedHook>, context: &mut Context, types: &TypeRegistry, handle: &Handle) -> (r:
    Result<(), Error>)
    requires
        old(context).wf(),
        types.wf(),
    ensures
        final(context).wf(),
        hooks_ran(hooks@, *types, *handle, *old(context), *final(context), r),
        hooks.len() == 0 ==> r is Ok,
        hooks.len() == 0 ==> *final(context) == *old(context),
{
    let ghost mut states: Seq<Context> = seq![*context];
    let ghost mut results: Seq<Result<(), Error>> = Seq::empty();
    let mut i: usize = 0;
    while i < hooks.len()
        invariant
            i <= hooks.len(),
            context.wf(),
            types.wf(),
            results.len() == i,
            hooks_trace(hooks@, *types, *handle, states, results),
            states[0] == *old(context),
            states.last() == *context,
            forall|k: int| 0 <= k < i ==> (#[trigger] results[k]) is Ok,
            hooks.len() == 0 ==> *context == *old(context),
        decreases hooks.len() - i,
    {
        let ghost before = *context;
        let hook = hooks[i].hook();
        let step = hook.run(context, types, handle);
        proof {
            let old_states = states;
            let old_results = results;
            assert(hook_runs(hooks@[i as int], before, *types, *handle, *context, step));
            states = states.push(*context);
            results = results.push(step);
            assert forall|k: int| 0 <= k < results.len() implies hook_runs(
                hooks@[k],
                states[k],
                *types,
                *handle,
                states[k + 1],
                #[trigger] results[k],
            ) by {
                if k < old_results.len() {
                    assert(results[k] == old_results[k]);
                    assert(states[k] == old_states[k]);
                    assert(states[k + 1] == old_states[k + 1]);
                }
            }
            assert forall|k: int| 0 <= k < results.len() - 1 implies (#[trigger] results[k]) is Ok by {
                assert(results[k] == old_results[k]);
            }
            assert(hooks_trace(hooks@, *types, *handle, states, results));
            assert(states[0] == old_states[0]);
            assert(states.last() == *context);
            assert(results.last() == step);
        }
        match step {
            Ok(()) => {},
            Err(e) => {
                let r = Err(e);
                assert(hooks_ran(hooks@, *types, *handle, *old(context), *context, r));
                return r;
            },
        }
        i += 1;
    }
    let r = Ok(());
    assert(hooks_ran(hooks@, *types, *handle, *old(context), *context, r));
    r
}

/// A factory for a component that was built beforehand: it hands out that
/// component, and leaves the context as it is.
pub struct Prebuilt {
    handle: Handle,
}

impl Prebuilt {
    /// A factory that hands out `handle`.
    pub fn new(handle: Handle) -> (factory: Prebuilt)
        ensures
            factory.spec_handle() == handle,
    {
        Prebuilt { handle }
    }

    /// The component that the factory hands out.
    pub closed spec fn spec_handle(&self) -> Handle {
        self.handle
    }
}

impl BeanFactory for Prebuilt {
    open spec fn creates(
        &self,
        before: Context,
        types: TypeRegistry,
        after: Context,
        made: Result<Handle, Error>,
    ) -> bool {
        made == Ok::<Handle, Error>(self.spec_handle()) && after == before
    }

    fn create(&self, context: &mut Context, types: &TypeRegistry) -> (made: Result<Handle, Error>)
        ensures
            made == Ok::<Handle, Error>(self.spec_handle()),
            *final(context) == *old(context),
    {
        Ok(self.handle.share())
    }
}

/// The descriptor of one component.
pub struct BeanDef {
    name: String,
    ty: Type,
    get_fn: SharedFactory,
    init_fns: Arc<Vec<SharedHook>>,
    destroy_fns: Arc<Vec<SharedHook>>,
}

/// Collects the parts of a descriptor.
pub struct BeanDefBuilder {
    name: Option<String>,
    ty: Option<Type>,
    get_fn: Option<SharedFactory>,
    init_fns: Vec<SharedHook>,
    destroy_fns: Vec<SharedHook>,
}

/// Whether `r` is what the factory of the component `name` returned as `made`,
/// as the result of building that component: the name with the new handle, or
/// `FactoryFailed` with the message of the factory's failure.
pub open spec fn built_of(name: Seq<char>, made: Result<Handle, Error>, r: Result<(String, Handle), Error>) -> bool {
    match made {
        Ok(handle) => r matches Ok(pair) && pair.0@ == name && pair.1 == handle,
        Err(cause) => r matches Err(e) && e@ == (Failure::FactoryFailed {
            name,
            reason: cause@.text(),
        }),
    }
}

/// What the factory of the component `name` returned, as the result of
/// building that component: the name with the new handle, or `FactoryFailed`
/// with the message of the factory's failure.
pub fn built(name: &str, made: Result<Handle, Error>) -> (r: Result<(String, Handle), Error>)
    ensures
        built_of(name@, made, r),
{
    match made {
        Ok(handle) => Ok((name.to_string(), handle)),
        Err(cause) => Err(Error::FactoryFailed { name: name.to_string(), reason: cause.message() }),
    }
}

impl BeanDef {
    /// The component's name.
    pub closed spec fn spec_name(&self) -> Seq<char> {
        self.name@
    }

    /// The descriptor of the component's type.
    pub closed spec fn spec_ty(&self) -> Type {
        self.ty
    }

    /// The component's factory.
    pub closed spec fn spec_factory(&self) -> SharedFactory {
        self.get_fn
    }

    /// The hooks to run after the component was built, in the order in which
    /// they were added.
    pub closed spec fn spec_init_hooks(&self) -> Seq<SharedHook> {
        self.init_fns@
    }

    /// The hooks to run before the component is given up, in the order in
    /// which they were added.
    pub closed spec fn spec_destroy_hooks(&self) -> Seq<SharedHook> {
        self.destroy_fns@
    }

    /// A builder with no part set.
    pub fn builder() -> (b: BeanDefBuilder)
        ensures
            b.spec_name() is None,
            b.spec_ty() is None,
            b.spec_factory() is None,
            b.spec_init_hooks().len() == 0,
            b.spec_destroy_hooks().len() == 0,
    {
        BeanDefBuilder {
            name: None,
            ty: None,
            get_fn: None,
            init_fns: Vec::new(),
            destroy_fns: Vec::new(),
        }
    }

    /// The component's name.
    pub fn name(&self) -> (name: &str)
        ensures
            name@ == self.spec_name(),
    {
        self.name.as_str()
    }

    /// The descriptor of the component's type.
    pub fn ty(&self) -> (ty: &Type)
        ensures
            *ty == self.spec_ty(),
    {
        &self.ty
    }

    /// The component's factory.
    pub fn factory(&self) -> (factory: &SharedFactory)
        ensures
            *factory == self.spec_factory(),
    {
        &self.get_fn
    }

    /// The descriptor for people: `BeanDef(name=NAME, type=TYPE)`.
    pub fn display(&self) -> (text: String)
        ensures
            text@ == "BeanDef(name="@ + self.spec_name() + ", type="@ + self.spec_ty().spec_name()
                + ")"@,
    {
        let mut text = join2("BeanDef(name=", self.name.as_str());
        text.append(", type=");
        text.append(self.ty.name());
        text.append(")");
        text
    }

    /// A copy of the descriptor, with the same factory.
    pub fn duplicate(&self) -> (copy: BeanDef)
        ensures
            copy == *self,
    {
        BeanDef {
            name: self.name.clone(),
            ty: self.ty.duplicate(),
            get_fn: self.get_fn.share(),
            init_fns: self.init_fns.clone(),
            destroy_fns: self.destroy_fns.clone(),
        }
    }

    /// Builds the component: runs the factory once, against `context`, and
    /// returns the name with the new handle, or `FactoryFailed` where the
    /// factory failed.
    pub fn get(&self, context: &mut Context, types: &TypeRegistry) -> (r: Result<
        (String, Handle),
        Error,
    >)
        requires
            old(context).wf(),
            types.wf(),
        ensures
            final(context).wf(),
            exists|made: Result<Handle, Error>|
                {
                    &&& #[trigger] factory_made(
                        self.spec_factory(),
                        *old(context),
                        *types,
                        *final(context),
                        made,
                    )
                    &&& built_of(self.spec_name(), made, r)
                },
    {
        let made = self.get_fn.factory().create(context, types);
        proof {
            assert(factory_made(self.spec_factory(), *old(context), *types, *context, made));
        }
        built(self.name.as_str(), made)
    }

    /// Runs the hooks for a component that was built, in the order in which
    /// they were added. The first failure ends the run and is its result.
    /// Without such hooks the run succeeds and changes nothing.
    pub fn init(&self, context: &mut Context, types: &TypeRegistry, handle: &Handle) -> (r: Result<
        (),
        Error,
    >)
        requires
            old(context).wf(),
            types.wf(),
        ensures
            final(context).wf(),
            hooks_ran(self.spec_init_hooks(), *types, *handle, *old(context), *final(context), r),
            self.spec_init_hooks().len() == 0 ==> r is Ok,
            self.spec_init_hooks().len() == 0 ==> *final(context) == *old(context),
    {
        run_hooks(&*self.init_fns, context, types, handle)
    }

    /// Runs the hooks for a component that is given up, in the order in which
    /// they were added. The first failure ends the run and is its result.
    /// Without such hooks the run succeeds and changes nothing.
    pub fn destroy(&self, context: &mut Context, types: &TypeRegistry, handle: &Handle) -> (r:
        Result<(), Error>)
        requires
            old(context).wf(),
            types.wf(),
        ensures
            final(context).wf(),
            hooks_ran(self.spec_destroy_hooks(), *types, *handle, *old(context), *final(context), r),
            self.spec_destroy_hooks().len() == 0 ==> r is Ok,
            self.spec_destroy_hooks().len() == 0 ==> *final(context) == *old(context),
    {
        run_hooks(&*self.destroy_fns, context, types, handle)
    }
}

impl BeanDefBuilder {
    /// The name set so far.
    pub closed spec fn spec_name(&self) -> Option<Seq<char>> {
        match self.name {
            Some(name) => Some(name@),
            None => None,
        }
    }

    /// The type set so far.
    pub closed spec fn spec_ty(&self) -> Option<Type> {
        self.ty
    }

    /// The factory set so far.
    pub closed spec fn spec_factory(&self) -> Option<SharedFactory> {
        self.get_fn
    }

    /// The hooks added so far for a component that was built.
    pub closed spec fn spec_init_hooks(&self) -> Seq<SharedHook> {
        self.init_fns@
    }

    /// The hooks added so far for a component that is given up.
    pub closed spec fn spec_destroy_hooks(&self) -> Seq<SharedHook> {
        self.destroy_fns@
    }

    /// Whether `other` has the parts of this builder, but for its name, type
    /// and factory.
    pub open spec fn same_hooks(&self, other: &BeanDefBuilder) -> bool {
        &&& self.spec_init_hooks() == other.spec_init_hooks()
        &&& self.spec_destroy_hooks() == other.spec_destroy_hooks()
    }

    /// Adds a hook to run after the component was built, behind those added
    /// before.
    pub fn init(self, hook: SharedHook) -> (b: BeanDefBuilder)
        ensures
            b.spec_name() == self.spec_name(),
            b.spec_ty() == self.spec_ty(),
            b.spec_factory() == self.spec_factory(),
            b.spec_init_hooks() == self.spec_init_hooks().push(hook),
            b.spec_destroy_hooks() == self.spec_destroy_hooks(),
    {
        let mut init_fns = self.init_fns;
        init_fns.push(hook);
        BeanDefBuilder {
            name: self.name,
            ty: self.ty,
            get_fn: self.get_fn,
            init_fns,
            destroy_fns: self.destroy_fns,
        }
    }

    /// Adds a hook to run before the component is given up, behind those added
    /// before.
    pub fn destroy(self, hook: SharedHook) -> (b: BeanDefBuilder)
        ensures
            b.spec_name() == self.spec_name(),
            b.spec_ty() == self.spec_ty(),
            b.spec_factory() == self.spec_factory(),
            b.spec_init_hooks() == self.spec_init_hooks(),
            b.spec_destroy_hooks() == self.spec_destroy_hooks().push(hook),
    {
        let mut destroy_fns = self.destroy_fns;
        destroy_fns.push(hook);
        BeanDefBuilder {
            name: self.name,
            ty: self.ty,
            get_fn: self.get_fn,
            init_fns: self.init_fns,
            destroy_fns,
        }
    }

    /// Sets the name.
    pub fn name(self, name: &str) -> (b: BeanDefBuilder)
        ensures
            b.spec_name() == Some(name@),
            b.spec_ty() == self.spec_ty(),
            b.spec_factory() == self.spec_factory(),
            b.same_hooks(&self),
    {
        BeanDefBuilder {
            name: Some(name.to_string()),
            ty: self.ty,
            get_fn: self.get_fn,
            init_fns: self.init_fns,
            destroy_fns: self.destroy_fns,
        }
    }

    /// Sets the type.
    pub fn ty(self, ty: Type) -> (b: BeanDefBuilder)
        ensures
            b.spec_name() == self.spec_name(),
            b.spec_ty() == Some(ty),
            b.spec_factory() == self.spec_factory(),
            b.same_hooks(&self),
    {
        BeanDefBuilder {
            name: self.name,
            ty: Some(ty),
            get_fn: self.get_fn,
            init_fns: self.init_fns,
            destroy_fns: self.destroy_fns,
        }
    }

    /// Sets the factory.
    pub fn get(self, factory: SharedFactory) -> (b: BeanDefBuilder)
        ensures
            b.spec_name() == self.spec_name(),
            b.spec_ty() == self.spec_ty(),
            b.spec_factory() == Some(factory),
            b.same_hooks(&self),
    {
        BeanDefBuilder {
            name: self.name,
            ty: self.ty,
            get_fn: Some(factory),
            init_fns: self.init_fns,
            destroy_fns: self.destroy_fns,
        }
    }

    /// The descriptor made of the parts. Without a name, the component is
    /// named after its type.
    pub fn build(self) -> (def: BeanDef)
        requires
            self.spec_ty() is Some,
            self.spec_factory() is Some,
        ensures
            def.spec_ty() == self.spec_ty()->0,
            def.spec_factory() == self.spec_factory()->0,
            def.spec_name() == (match self.spec_name() {
                Some(name) => name,
                None => self.spec_ty()->0.spec_name(),
            }),
            def.spec_init_hooks() == self.spec_init_hooks(),
            def.spec_destroy_hooks() == self.spec_destroy_hooks(),
    {
        let ty = self.ty.unwrap();
        let get_fn = self.get_fn.unwrap();
        let name = match self.name {
            None => ty.name().to_string(),
            Some(name) => name,
        };
        BeanDef {
            name,
            ty,
            get_fn,
            init_fns: Arc::new(self.init_fns),
            destroy_fns: Arc::new(self.destroy_fns),
        }
    }
}

} // verus!
