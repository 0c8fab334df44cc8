//! Contexts: named scopes that hold component descriptors, the components
//! built so far, deferred initialisers and child contexts.
//!
//! Descriptors are found tree-wide: in the context itself first, then in its
//! children in the order in which they were attached, each child with its own
//! descendants before the next (depth first, parents before children). That
//! one order is the order of every walk of the tree.
//!
//! A context owns its children, in a vector: the walk needs an order, and the
//! verifier refuses a type that holds itself inside a hash map. An attached
//! child is reached again through `find_context` and `context_at_mut`. The
//! descriptors, the components and the initialisers of a context stand in
//! tables that are indexed by a hash map and walked in the order of insertion.

use vstd::prelude::*;
use std::any::TypeId;
use std::sync::Arc;
use crate::bean_def::BeanDef;
use crate::bean_def::built;
use crate::bean_def::factory_made;
use crate::error::Error;
use crate::error::Failure;
use crate::names::NameTable;
use crate::text::join2;
use crate::text::str_eq;
use crate::ty::Handle;
use crate::ty::Type;
use crate::ty::TypeRegistry;
use crate::ty::downcast_fits;
use crate::ty::handle_type;
use crate::ty::type_id_of;

verus! {

/// Sets a context up before its components are resolved. An initialiser may
/// register descriptors and types through the public operations of what it is
/// handed.
pub trait ContextInit: Send + Sync {
    /// What one run of the initialiser may come to: whether, run against the
    /// context `before` with the registry `types_before`, it may leave them as
    /// `after` and `types_after` and return `r`. An initialiser that says
    /// nothing of itself may come to anything.
    open spec fn inits(
        &self,
        before: Context,
        types_before: TypeRegistry,
        after: Context,
        types_after: TypeRegistry,
        r: Result<(), Error>,
    ) -> bool {
        true
    }

    fn init(&self, context: &mut Context, types: &mut TypeRegistry) -> (r: Result<(), Error>)
        requires
            old(context).wf(),
            old(types).wf(),
        ensures
            final(context).wf(),
            final(types).wf(),
            self.inits(*old(context), *old(types), *final(context), *final(types), r),
    ;
}

/// What one run of the initialiser behind a holder may come to: what that
/// initialiser says of itself in `inits`.
pub uninterp spec fn init_runs(
    init: SharedInit,
    before: Context,
    types_before: TypeRegistry,
    after: Context,
    types_after: TypeRegistry,
    r: Result<(), Error>,
) -> bool;

/// An initialiser that several contexts and callers hold at once. Two of them
/// are equal when they hold the same initialiser.
#[verifier::external_body]
pub struct SharedInit {
    inner: Arc<dyn ContextInit>,
}

impl SharedInit {
    /// `Arc::new`, with the initialiser's type forgotten. What `init_runs`
    /// says of the holder is what the initialiser says of itself.
    #[verifier::external_body]
    pub fn new<F: ContextInit + 'static>(init: F) -> (shared: SharedInit)
        ensures
            forall|
                before: Context,
                types_before: TypeRegistry,
                after: Context,
                types_after: TypeRegistry,
                r: Result<(), Error>,
            |
                #![trigger init_runs(shared, before, types_before, after, types_after, r)]
                init_runs(shared, before, types_before, after, types_after, r) == init.inits(
                    before,
                    types_before,
                    after,
                    types_after,
                    r,
                ),
    {
        SharedInit { inner: Arc::new(init) }
    }

    /// `Arc::clone`: another holder of the same initialiser.
    #[verifier::external_body]
    pub fn share(&self) -> (copy: SharedInit)
        ensures
            copy == *self,
    {
        SharedInit { inner: Arc::clone(&self.inner) }
    }

    /// The `Arc` that the holder holds, by reference. What the initialiser
    /// behind it says of its runs is what `init_runs` says of the holder.
    #[verifier::external_body]
    pub(crate) fn initialiser(&self) -> (held: &Arc<dyn ContextInit>)
        ensures
            forall|
                before: Context,
                types_before: TypeRegistry,
                after: Context,
                types_after: TypeRegistry,
                r: Result<(), Error>,
            |
                #![trigger init_runs(*self, before, types_before, after, types_after, r)]
                held.inits(before, types_before, after, types_after, r) == init_runs(
                    *self,
                    before,
                    types_before,
                    after,
                    types_after,
                    r,
                ),
    {
        &self.inner
    }
}

/// An initialiser that registers one descriptor in the context it is run
/// against.
pub struct RegisterBean {
    def: BeanDef,
}

impl RegisterBean {
    /// The descriptor that the initialiser registers.
    pub closed spec fn spec_def(&self) -> BeanDef {
        self.def
    }

    /// An initialiser that registers `def`.
    pub fn new(def: BeanDef) -> (init: RegisterBean)
        ensures
            init.spec_def() == def,
    {
        RegisterBean { def }
    }
}

impl ContextInit for RegisterBean {
    open spec fn inits(
        &self,
        before: Context,
        types_before: TypeRegistry,
        after: Context,
        types_after: TypeRegistry,
        r: Result<(), Error>,
    ) -> bool {
        &&& types_after == types_before
        &&& registered(before, self.spec_def(), after, r)
    }

    fn init(&self, context: &mut Context, types: &mut TypeRegistry) -> (r: Result<(), Error>)
        ensures
            *final(types) == *old(types),
            registered(*old(context), self.spec_def(), *final(context), r),
    {
        context.register(self.def.duplicate())
    }
}

/// Whether `r` and `after` are what registering `def` in the context `before`
/// comes to: a name registered in the context before is refused with
/// `DuplicateComponent` and the context stays as it is; any other descriptor
/// comes last among the context's own, and nothing else changes.
pub open spec fn registered(before: Context, def: BeanDef, after: Context, r: Result<(), Error>) -> bool {
    match first_named(before.defs(), def.spec_name()) {
        Some(_) => {
            &&& r matches Err(e)
            &&& e@ == (Failure::DuplicateComponent {
                name: def.spec_name(),
                ty_name: def.spec_ty().spec_name(),
                context: before.spec_name(),
            })
            &&& after == before
        },
        None => {
            &&& r is Ok
            &&& after.defs() == before.defs().push(def)
            &&& after.same_but_defs(&before)
        },
    }
}

/// A named scope of components.
pub struct Context {
    name: String,
    bean_defs: NameTable<BeanDef>,
    beans: NameTable<Handle>,
    contexts: Vec<Context>,
    init_fns: NameTable<SharedInit>,
}

/// What the resolution of a name begins with.
pub enum Resolution {
    /// The component was built before: here it is.
    Cached(Handle),
    /// No descriptor of that name is visible.
    Missing,
    /// The component is to be built from this descriptor.
    Build(BeanDef),
}

/// The first descriptor of `defs` that has the name `name`.
pub open spec fn first_named(defs: Seq<BeanDef>, name: Seq<char>) -> Option<BeanDef>
    decreases defs.len(),
{
    if defs.len() == 0 {
        None
    } else if defs[0].spec_name() == name {
        Some(defs[0])
    } else {
        first_named(defs.drop_first(), name)
    }
}

/// The descriptors of `defs` whose type may be viewed through `target`.
pub open spec fn assignable_to(defs: Seq<BeanDef>, types: TypeRegistry, target: TypeId) -> Seq<
    BeanDef,
> {
    defs.filter(|d: BeanDef| types.assignable(d.spec_ty().spec_id(), target))
}

/// The position of the first context of `kids` that has the name `name`, or
/// the length of `kids` where none has it.
pub open spec fn child_at(kids: Seq<Context>, name: Seq<char>) -> int
    decreases kids.len(),
{
    if kids.len() == 0 {
        0
    } else if kids[0].spec_name() == name {
        0
    } else {
        1 + child_at(kids.drop_first(), name)
    }
}

/// What building a component from `def` comes to once its factory has
/// returned `made` and left the context as `mid`: the handle, now cached under
/// the component's name, or the failure, whether `FactoryFailed` or, where the
/// cache held the name already, `UnexpectedDuplicate`. In that last case too
/// the new handle takes the place of the cached one.
pub open spec fn settled(
    mid: Context,
    def: BeanDef,
    made: Result<Handle, Error>,
    r: Result<Handle, Error>,
    after: Context,
) -> bool {
    match made {
        Err(cause) => {
            &&& r matches Err(e)
            &&& e@ == (Failure::FactoryFailed { name: def.spec_name(), reason: cause@.text() })
            &&& after == mid
        },
        Ok(handle) => {
            &&& after.same_but_cache(&mid)
            &&& after.cache() == mid.cache().insert(def.spec_name(), handle)
            &&& if mid.cache().contains_key(def.spec_name()) {
                r matches Err(e) && e@ == (Failure::UnexpectedDuplicate {
                    name: def.spec_name(),
                    ty_name: def.spec_ty().spec_name(),
                    context: mid.spec_name(),
                })
            } else {
                r == Ok::<Handle, Error>(handle)
            }
        },
    }
}

/// Whether `r` and `after` are what building a component from `def` in the
/// context `before` comes to: the factory of `def` ran against `before`, as it
/// says of itself, left the context as `mid` and returned `made`; and that was
/// settled as `settled` says.
pub open spec fn built_from(
    def: BeanDef,
    before: Context,
    types: TypeRegistry,
    mid: Context,
    made: Result<Handle, Error>,
    r: Result<Handle, Error>,
    after: Context,
) -> bool {
    &&& mid.wf()
    &&& factory_made(def.spec_factory(), before, types, mid, made)
    &&& settled(mid, def, made, r, after)
}

/// What asking for the one component of a capability comes to, given the
/// visible descriptors `found` that have the capability: the name of the only
/// one, `NoCandidate` where there is none, `AmbiguousCandidate` where there
/// are several.
pub open spec fn primary_of(found: Seq<BeanDef>, r: Result<String, Error>) -> bool {
    if found.len() == 0 {
        r matches Err(e) && e@ == Failure::NoCandidate
    } else if found.len() == 1 {
        r matches Ok(name) && name@ == found[0].spec_name()
    } else {
        r matches Err(e) && e@ == (Failure::AmbiguousCandidate { count: found.len() })
    }
}

/// Whether `r` and `after` are what asking for the component of a name, viewed
/// through the capability `target`, may come to, given the context `before`
/// in which the resolution of the name begins with `begin`.
///
/// Without a descriptor the call fails with `NotFound` and leaves the context
/// as it is. A component built before is handed to the downcast, and the
/// context stays as it is. Otherwise the factory of the descriptor runs
/// against `before`, as it says of itself, and what it made is settled; a
/// failure of that is the result, and a handle is handed to the downcast.
pub open spec fn bean_fits<T: ?Sized>(
    begin: Resolution,
    name: Seq<char>,
    types: TypeRegistry,
    target: TypeId,
    r: Result<Arc<T>, Error>,
    before: Context,
    after: Context,
) -> bool {
    match begin {
        Resolution::Missing => {
            &&& r matches Err(e)
            &&& e@ == (Failure::NotFound { name, context: before.spec_name() })
            &&& after == before
        },
        Resolution::Cached(handle) => {
            &&& after == before
            &&& downcast_fits(types.lookup(handle_type(handle), target), handle, r)
        },
        Resolution::Build(def) => exists|
            mid: Context,
            made: Result<Handle, Error>,
            got: Result<Handle, Error>,
        |
            {
                &&& mid.wf()
                &&& factory_made(def.spec_factory(), before, types, mid, made)
                &&& #[trigger] settled(mid, def, made, got, after)
                &&& match got {
                    Err(e) => r == Err::<Arc<T>, Error>(e),
                    Ok(handle) => downcast_fits(types.lookup(handle_type(handle), target), handle, r),
                }
            },
    }
}

/// Whether `r` and `after` are what asking for the one component of the
/// capability `target` may come to, given the context `before` and its visible
/// descriptors `found` that have the capability. Without a candidate and with
/// several the call fails and leaves the context as it is; the only candidate
/// is resolved by its name.
pub open spec fn primary_fits<T: ?Sized>(
    found: Seq<BeanDef>,
    types: TypeRegistry,
    target: TypeId,
    r: Result<Arc<T>, Error>,
    before: Context,
    after: Context,
) -> bool {
    if found.len() == 0 {
        &&& r matches Err(e)
        &&& e@ == Failure::NoCandidate
        &&& after == before
    } else if found.len() == 1 {
        bean_fits(
            before.resolution(found[0].spec_name()),
            found[0].spec_name(),
            types,
            target,
            r,
            before,
            after,
        )
    } else {
        &&& r matches Err(e)
        &&& e@ == (Failure::AmbiguousCandidate { count: found.len() })
        &&& after == before
    }
}

/// Whether `steps` are the results of resolving the first descriptors of
/// `found` one after another, and `states` the contexts between the steps:
/// step `i` takes the context from `states[i]` to `states[i + 1]` as `bean_fits`
/// says, and no step but the last is a failure.
pub open spec fn beans_trace<T: ?Sized>(
    found: Seq<BeanDef>,
    types: TypeRegistry,
    target: TypeId,
    states: Seq<Context>,
    steps: Seq<Result<Arc<T>, Error>>,
) -> bool {
    &&& steps.len() <= found.len()
    &&& states.len() == steps.len() + 1
    &&& forall|i: int|
        0 <= i < steps.len() ==> bean_fits(
            states[i].resolution(found[i].spec_name()),
            found[i].spec_name(),
            types,
            target,
            #[trigger] steps[i],
            states[i],
            states[i + 1],
        )
    &&& forall|i: int| 0 <= i < steps.len() - 1 ==> (#[trigger] steps[i]) is Ok
}

/// Whether `r` and `after` are what asking for every component of the
/// capability `target` may come to, given the context `before` and its visible
/// descriptors `found` that have the capability: the descriptors are resolved
/// by name, one after another and each in the context that the one before
/// left; the first failure is the result, and without one the result holds
/// the component of each descriptor, in order.
pub open spec fn beans_fit<T: ?Sized>(
    found: Seq<BeanDef>,
    types: TypeRegistry,
    target: TypeId,
    r: Result<Vec<Arc<T>>, Error>,
    before: Context,
    after: Context,
) -> bool {
    exists|states: Seq<Context>, steps: Seq<Result<Arc<T>, Error>>|
        {
            &&& #[trigger] beans_trace(found, types, target, states, steps)
            &&& states[0] == before
            &&& states.last() == after
            &&& match r {
                Ok(beans) => {
                    &&& steps.len() == found.len()
                    &&& beans.len() == steps.len()
                    &&& forall|i: int|
                        0 <= i < steps.len() ==> #[trigger] steps[i] == Ok::<Arc<T>, Error>(
                            beans[i],
                        )
                },
                Err(e) => steps.len() > 0 && steps.last() == Err::<Arc<T>, Error>(e),
            }
        }
}

/// Whether `results` are the results of the first runs of the initialisers
/// `inits`, one after another, and `states` the contexts and registries between
/// the runs: run `i` takes them from `states[i]` to `states[i + 1]` as the
/// initialiser says of itself, and no run but the last is a failure.
pub open spec fn inits_trace(
    inits: Seq<SharedInit>,
    states: Seq<(Context, TypeRegistry)>,
    results: Seq<Result<(), Error>>,
) -> bool {
    &&& results.len() <= inits.len()
    &&& states.len() == results.len() + 1
    &&& forall|i: int|
        0 <= i < results.len() ==> init_runs(
            inits[i],
            states[i].0,
            states[i].1,
            states[i + 1].0,
            states[i + 1].1,
            #[trigger] results[i],
        )
    &&& forall|i: int| 0 <= i < results.len() - 1 ==> (#[trigger] results[i]) is Ok
}

/// Whether `r`, `after` and `types_after` are what a run of the initialisers
/// `inits` against the context `before` with the registry `types_before` may
/// come to: the initialisers run in order, each once and each on what the one
/// before left; the first failure ends the run and is its result, and without
/// a failure every initialiser has run.
pub open spec fn inits_ran(
    inits: Seq<SharedInit>,
    before: Context,
    types_before: TypeRegistry,
    after: Context,
    types_after: TypeRegistry,
    r: Result<(), Error>,
) -> bool {
    exists|states: Seq<(Context, TypeRegistry)>, results: Seq<Result<(), Error>>|
        {
            &&& #[trigger] inits_trace(inits, states, results)
            &&& states[0] == (before, types_before)
            &&& states.last() == (after, types_after)
            &&& match r {
                Ok(_) => {
                    &&& results.len() == inits.len()
                    &&& forall|i: int| 0 <= i < results.len() ==> (#[trigger] results[i]) is Ok
                },
                Err(e) => results.len() > 0 && results.last() == Err::<(), Error>(e),
            }
        }
}

/// The initialisers of a list of named initialisers, in order.
pub open spec fn initialisers(plan: Seq<(Seq<char>, SharedInit)>) -> Seq<SharedInit> {
    plan.map_values(|entry: (Seq<char>, SharedInit)| entry.1)
}

/// Runs the initialisers `inits` against `context` and `types`, in order. The
/// first failure ends the run and is its result. Without initialisers the run
/// succeeds and changes nothing.
pub fn run_inits(inits: &Vec<SharedInit>, context: &mut Context, types: &mut TypeRegistry) -> (r: Result<
    (),
    Error,
>)
    requires
        old(context).wf(),
        old(types).wf(),
    ensures
        final(context).wf(),
        final(types).wf(),
        inits_ran(inits@, *old(context), *old(types), *final(context), *final(types), r),
        inits.len() == 0 ==> r is Ok,
        inits.len() == 0 ==> *final(context) == *old(context),
        inits.len() == 0 ==> *final(types) == *old(types),
{
    let ghost mut states: Seq<(Context, TypeRegistry)> = seq![(*context, *types)];
    let ghost mut results: Seq<Result<(), Error>> = Seq::empty();
    let mut i: usize = 0;
    while i < inits.len()
        invariant
            i <= inits.len(),
            context.wf(),
            types.wf(),
            results.len() == i,
            inits_trace(inits@, states, results),
            states[0] == (*old(context), *old(types)),
            states.last() == (*context, *types),
            forall|k: int| 0 <= k < i ==> (#[trigger] results[k]) is Ok,
            inits.len() == 0 ==> *context == *old(context) && *types == *old(types),
        decreases inits.len() - i,
    {
        let ghost before = *context;
        let ghost types_before = *types;
        let init = inits[i].initialiser();
        let step = init.init(context, types);
        proof {
            let old_states = states;
            let old_results = results;
            assert(init_runs(inits@[i as int], before, types_before, *context, *types, step));
            states = states.push((*context, *types));
            results = results.push(step);
            assert forall|k: int| 0 <= k < results.len() implies init_runs(
                inits@[k],
                states[k].0,
                states[k].1,
                states[k + 1].0,
                states[k + 1].1,
                #[trigger] results[k],
            ) by {
                if k < old_results.len() {
                    assert(results[k] == old_results[k]);
                    assert(states[k] == old_states[k]);
                    assert(states[k + 1] == old_states[k + 1]);
                }
            }
            assert forall|k: int| 0 <= k < results.len() - 1 implies (#[trigger] results[k]) is Ok by {
                assert(results[k] == old_results[k]);
            }
            assert(inits_trace(inits@, states, results));
            assert(states[0] == old_states[0]);
            assert(states.last() == (*context, *types));
            assert(results.last() == step);
        }
        match step {
            Ok(()) => {},
            Err(e) => {
                let r = Err(e);
                assert(inits_ran(inits@, *old(context), *old(types), *context, *types, r));
                return r;
            },
        }
        i += 1;
    }
    let r = Ok(());
    assert(inits_ran(inits@, *old(context), *old(types), *context, *types, r));
    r
}

/// The entries of a list of named initialisers, with the names as sequences of
/// characters.
pub open spec fn plan_view(plan: Seq<(String, SharedInit)>) -> Seq<(Seq<char>, SharedInit)> {
    plan.map_values(|p: (String, SharedInit)| (p.0@, p.1))
}

/// Every descriptor visible from the contexts `kids`, context by context.
pub open spec fn defs_of(kids: Seq<Context>) -> Seq<BeanDef>
    decreases kids.len(),
{
    if kids.len() == 0 {
        Seq::empty()
    } else {
        defs_of(kids.drop_last()) + kids.last().all_defs()
    }
}

/// The first descriptor of a name in `a + b` is the first one in `a`, or else
/// the first one in `b`.
pub proof fn lemma_first_named_concat(a: Seq<BeanDef>, b: Seq<BeanDef>, name: Seq<char>)
    ensures
        first_named(a + b, name) == (match first_named(a, name) {
            Some(d) => Some(d),
            None => first_named(b, name),
        }),
    decreases a.len(),
{
    if a.len() == 0 {
        assert(a + b == b);
    } else {
        assert((a + b).drop_first() == a.drop_first() + b);
        lemma_first_named_concat(a.drop_first(), b, name);
    }
}

/// Where no descriptor but the one at `at` has the name `name`, that one is the
/// first of the name; where none has it, there is none.
pub proof fn lemma_first_named_unique(defs: Seq<BeanDef>, name: Seq<char>, at: int)
    requires
        forall|i: int| 0 <= i < defs.len() && i != at ==> (#[trigger] defs[i]).spec_name() != name,
        0 <= at < defs.len() ==> defs[at].spec_name() == name,
    ensures
        first_named(defs, name) == (if 0 <= at < defs.len() {
            Some(defs[at])
        } else {
            None
        }),
    decreases defs.len(),
{
    if defs.len() > 0 {
        if at != 0 {
            assert(defs[0].spec_name() != name);
            let rest = defs.drop_first();
            assert forall|i: int| 0 <= i < rest.len() && i != at - 1 implies (#[trigger] rest[i]).spec_name()
                != name by {
                assert(rest[i] == defs[i + 1]);
            }
            lemma_first_named_unique(rest, name, at - 1);
        }
    }
}

/// The position of the first entry of `entries` under `name`, or the length of
/// `entries` where there is none.
pub open spec fn entry_at(entries: Seq<(Seq<char>, SharedInit)>, name: Seq<char>) -> int
    decreases entries.len(),
{
    if entries.len() == 0 {
        0
    } else if entries[0].0 == name {
        0
    } else {
        1 + entry_at(entries.drop_first(), name)
    }
}

/// `entries` with `item` put in: in the place of the entry of the same name,
/// or at the end where the name is new.
pub open spec fn merged(entries: Seq<(Seq<char>, SharedInit)>, item: (Seq<char>, SharedInit)) -> Seq<
    (Seq<char>, SharedInit),
> {
    let at = entry_at(entries, item.0);
    if at < entries.len() {
        entries.update(at, item)
    } else {
        entries.push(item)
    }
}

/// `entries` with each of `items` put in, in order: of several items of one
/// name the last one stays, at the place where the name first came.
pub open spec fn merged_all(
    entries: Seq<(Seq<char>, SharedInit)>,
    items: Seq<(Seq<char>, SharedInit)>,
) -> Seq<(Seq<char>, SharedInit)>
    decreases items.len(),
{
    if items.len() == 0 {
        entries
    } else {
        merged(merged_all(entries, items.drop_last()), items.last())
    }
}

/// Every initialiser of the contexts `kids` and their descendants, context by
/// context.
pub open spec fn inits_of(kids: Seq<Context>) -> Seq<(Seq<char>, SharedInit)>
    decreases kids.len(),
{
    if kids.len() == 0 {
        Seq::empty()
    } else {
        inits_of(kids.drop_last()) + kids.last().all_inits()
    }
}

/// Putting in `a + b` is putting in `a` and then `b`.
pub proof fn lemma_merged_all_concat(
    entries: Seq<(Seq<char>, SharedInit)>,
    a: Seq<(Seq<char>, SharedInit)>,
    b: Seq<(Seq<char>, SharedInit)>,
)
    ensures
        merged_all(entries, a + b) == merged_all(merged_all(entries, a), b),
    decreases b.len(),
{
    if b.len() == 0 {
        assert(a + b == a);
    } else {
        assert((a + b).drop_last() == a + b.drop_last());
        assert((a + b).last() == b.last());
        lemma_merged_all_concat(entries, a, b.drop_last());
    }
}

/// `entry_at` is the least position of an entry under `name`.
pub proof fn lemma_entry_at(entries: Seq<(Seq<char>, SharedInit)>, name: Seq<char>)
    ensures
        0 <= entry_at(entries, name) <= entries.len(),
        entry_at(entries, name) < entries.len() ==> entries[entry_at(entries, name)].0 == name,
        forall|i: int| 0 <= i < entry_at(entries, name) ==> (#[trigger] entries[i]).0 != name,
    decreases entries.len(),
{
    if entries.len() > 0 && entries[0].0 != name {
        let rest = entries.drop_first();
        lemma_entry_at(rest, name);
        assert forall|i: int| 0 <= i < entry_at(entries, name) implies (#[trigger] entries[i]).0
            != name by {
            if i > 0 {
                assert(entries[i] == rest[i - 1]);
            }
        }
    }
}

/// `child_at` is the least position of a context of the name `name`.
pub proof fn lemma_child_at(kids: Seq<Context>, name: Seq<char>)
    ensures
        0 <= child_at(kids, name) <= kids.len(),
        child_at(kids, name) < kids.len() ==> kids[child_at(kids, name)].spec_name() == name,
        forall|i: int| 0 <= i < child_at(kids, name) ==> (#[trigger] kids[i]).spec_name() != name,
    decreases kids.len(),
{
    if kids.len() > 0 && kids[0].spec_name() != name {
        let rest = kids.drop_first();
        lemma_child_at(rest, name);
        assert forall|i: int| 0 <= i < child_at(kids, name) implies (#[trigger] kids[i]).spec_name()
            != name by {
            if i > 0 {
                assert(kids[i] == rest[i - 1]);
            }
        }
    }
}

/// The least position that holds a context of the name `name` is `child_at`.
pub proof fn lemma_child_at_is(kids: Seq<Context>, name: Seq<char>, at: int)
    requires
        0 <= at <= kids.len(),
        at < kids.len() ==> kids[at].spec_name() == name,
        forall|i: int| 0 <= i < at ==> (#[trigger] kids[i]).spec_name() != name,
    ensures
        child_at(kids, name) == at,
{
    lemma_child_at(kids, name);
    let c = child_at(kids, name);
    if c < at {
        assert(kids[c].spec_name() != name);
    } else if c > at {
        assert(kids[at].spec_name() != name);
    }
}

impl Context {
    /// The context's name.
    pub closed spec fn spec_name(&self) -> Seq<char> {
        self.name@
    }

    /// The descriptors registered in this context itself, in the order of
    /// their registration.
    pub closed spec fn defs(&self) -> Seq<BeanDef> {
        self.bean_defs.values()
    }

    /// The components built so far through this context, by name.
    pub closed spec fn cache(&self) -> Map<Seq<char>, Handle> {
        self.beans.map()
    }

    /// The child contexts, in the order in which they were attached.
    pub closed spec fn children(&self) -> Seq<Context> {
        self.contexts@
    }

    /// The initialisers added to this context itself, each with its name, in
    /// the order in which the names first came.
    pub closed spec fn inits(&self) -> Seq<(Seq<char>, SharedInit)> {
        self.init_fns.entries()
    }

    /// The context's tables are well formed, every descriptor stands under its
    /// own name, and every child is well formed.
    pub closed spec fn wf(&self) -> bool
        decreases self,
    {
        &&& self.bean_defs.wf()
        &&& self.beans.wf()
        &&& self.init_fns.wf()
        &&& forall|i: int|
            0 <= i < self.bean_defs.values().len() ==> (#[trigger] self.bean_defs.values()[i]).spec_name()
                == self.bean_defs.names()[i]
        &&& forall|i: int| 0 <= i < self.contexts.len() ==> (#[trigger] self.contexts[i]).wf()
    }

    /// Every descriptor visible from this context: its own, then those of its
    /// children, child by child.
    pub closed spec fn all_defs(&self) -> Seq<BeanDef>
        decreases self, self.children().len() + 1,
    {
        self.bean_defs.values() + Self::defs_below(self, self.contexts.len() as nat)
    }

    /// Every descriptor visible from the first `n` children of `parent`.
    pub closed spec fn defs_below(parent: &Context, n: nat) -> Seq<BeanDef>
        decreases parent, n,
    {
        if n == 0 || n > parent.contexts.len() {
            Seq::empty()
        } else {
            Self::defs_below(parent, (n - 1) as nat) + parent.contexts[n - 1].all_defs()
        }
    }

    /// Every initialiser of this context and its descendants: those of its
    /// children first, child by child, then its own.
    pub closed spec fn all_inits(&self) -> Seq<(Seq<char>, SharedInit)>
        decreases self, self.children().len() + 1,
    {
        Self::inits_below(self, self.contexts.len() as nat) + self.init_fns.entries()
    }

    /// Every initialiser of the first `n` children of `parent`.
    pub closed spec fn inits_below(parent: &Context, n: nat) -> Seq<(Seq<char>, SharedInit)>
        decreases parent, n,
    {
        if n == 0 || n > parent.contexts.len() {
            Seq::empty()
        } else {
            Self::inits_below(parent, (n - 1) as nat) + parent.contexts[n - 1].all_inits()
        }
    }

    /// The initialisers to run for this context, in the order of their run: one
    /// for each name, the last one added under it tree-wide, a context's own
    /// counting as later than those of its descendants.
    pub open spec fn init_plan(&self) -> Seq<(Seq<char>, SharedInit)> {
        merged_all(Seq::empty(), self.all_inits())
    }

    /// Whether the context has the name `name` and holds nothing: no
    /// descriptor, no component, no child and no initialiser.
    pub open spec fn is_empty_named(&self, name: Seq<char>) -> bool {
        &&& self.spec_name() == name
        &&& self.defs() == Seq::<BeanDef>::empty()
        &&& self.children() == Seq::<Context>::empty()
        &&& self.cache() == Map::<Seq<char>, Handle>::empty()
        &&& self.inits() == Seq::<(Seq<char>, SharedInit)>::empty()
    }

    /// The context with nothing changed but its own descriptors.
    pub open spec fn same_but_defs(&self, before: &Context) -> bool {
        &&& self.spec_name() == before.spec_name()
        &&& self.cache() == before.cache()
        &&& self.children() == before.children()
        &&& self.inits() == before.inits()
    }

    /// The context with nothing changed but its cache.
    pub open spec fn same_but_cache(&self, before: &Context) -> bool {
        &&& self.spec_name() == before.spec_name()
        &&& self.defs() == before.defs()
        &&& self.children() == before.children()
        &&& self.inits() == before.inits()
    }

    /// The context with nothing changed but its children.
    pub open spec fn same_but_children(&self, before: &Context) -> bool {
        &&& self.spec_name() == before.spec_name()
        &&& self.defs() == before.defs()
        &&& self.cache() == before.cache()
        &&& self.inits() == before.inits()
    }

    /// The context with nothing changed but its own initialisers.
    pub open spec fn same_but_inits(&self, before: &Context) -> bool {
        &&& self.spec_name() == before.spec_name()
        &&& self.defs() == before.defs()
        &&& self.cache() == before.cache()
        &&& self.children() == before.children()
    }

    /// The descriptor that the name `name` resolves to: the first of that name
    /// among all the visible ones.
    pub open spec fn find_def(&self, name: Seq<char>) -> Option<BeanDef> {
        first_named(self.all_defs(), name)
    }

    /// What the resolution of `name` begins with.
    pub open spec fn resolution(&self, name: Seq<char>) -> Resolution {
        if self.cache().contains_key(name) {
            Resolution::Cached(self.cache()[name])
        } else {
            match self.find_def(name) {
                None => Resolution::Missing,
                Some(def) => Resolution::Build(def),
            }
        }
    }

    /// The visible descriptors are the context's own, then those visible from
    /// its children.
    pub proof fn lemma_all_defs(&self)
        ensures
            self.all_defs() == self.defs() + defs_of(self.children()),
    {
        Self::lemma_defs_below(self, self.contexts.len() as nat);
        assert(self.children().take(self.contexts.len() as int) == self.children());
    }

    proof fn lemma_defs_below(parent: &Context, n: nat)
        requires
            n <= parent.contexts.len(),
        ensures
            Self::defs_below(parent, n) == defs_of(parent.children().take(n as int)),
        decreases n,
    {
        if n > 0 {
            Self::lemma_defs_below(parent, (n - 1) as nat);
            let kids = parent.children().take(n as int);
            assert(kids.drop_last() == parent.children().take(n - 1));
            assert(kids.last() == parent.contexts[n - 1]);
        }
    }

    /// An own descriptor is found by its name, and a name without an own
    /// descriptor is the name of none of them.
    proof fn lemma_own_first(&self, name: Seq<char>)
        requires
            self.wf(),
        ensures
            first_named(self.defs(), name) == (if self.bean_defs.has(name) {
                Some(self.defs()[self.bean_defs.position(name)])
            } else {
                None
            }),
    {
        self.bean_defs.lemma_distinct();
        let names = self.bean_defs.names();
        let at = if self.bean_defs.has(name) {
            self.bean_defs.position(name)
        } else {
            -1
        };
        assert forall|i: int| 0 <= i < self.defs().len() && i != at implies (#[trigger] self.defs()[i]).spec_name()
            != name by {
            if names[i] == name {
                assert(names.contains(name));
                assert(self.bean_defs.position(names[i]) == i);
            }
        }
        if self.bean_defs.has(name) {
            assert(names[at] == name);
        }
        lemma_first_named_unique(self.defs(), name, at);
    }

    /// An empty context.
    pub fn new(name: &str) -> (ctx: Context)
        ensures
            ctx.wf(),
            ctx.is_empty_named(name@),
    {
        let ctx = Context {
            name: name.to_string(),
            bean_defs: NameTable::new(),
            beans: NameTable::new(),
            contexts: Vec::new(),
            init_fns: NameTable::new(),
        };
        proof {
            assert(ctx.cache() =~= Map::<Seq<char>, Handle>::empty());
            assert(ctx.inits() =~= Seq::<(Seq<char>, SharedInit)>::empty());
        }
        ctx
    }

    /// The context's name.
    pub fn name(&self) -> (name: &str)
        ensures
            name@ == self.spec_name(),
    {
        self.name.as_str()
    }

    /// The context for people: `Context(name=NAME)`.
    pub fn display(&self) -> (text: String)
        ensures
            text@ == "Context(name="@ + self.spec_name() + ")"@,
    {
        let mut text = join2("Context(name=", self.name.as_str());
        text.append(")");
        text
    }

    /// Registers a descriptor in this context.
    ///
    /// A name registered in this context before is refused with
    /// `DuplicateComponent`, and the context stays as it is. The children are
    /// not asked: a descriptor may have the name of one further down.
    pub fn register(&mut self, bean_def: BeanDef) -> (r: Result<(), Error>)
        requires
            old(self).wf(),
        ensures
            final(self).wf(),
            match first_named(old(self).defs(), bean_def.spec_name()) {
                Some(_) => {
                    &&& r matches Err(e)
                    &&& e@ == (Failure::DuplicateComponent {
                        name: bean_def.spec_name(),
                        ty_name: bean_def.spec_ty().spec_name(),
                        context: old(self).spec_name(),
                    })
                    &&& *final(self) == *old(self)
                },
                None => {
                    &&& r is Ok
                    &&& final(self).defs() == old(self).defs().push(bean_def)
                    &&& final(self).same_but_defs(old(self))
                },
            },
    {
        proof {
            self.lemma_own_first(bean_def.spec_name());
        }
        match self.bean_defs.find(bean_def.name()) {
            Some(_) => Err(
                Error::DuplicateComponent {
                    name: bean_def.name().to_string(),
                    ty_name: bean_def.ty().name().to_string(),
                    context: self.name.clone(),
                },
            ),
            None => {
                let name = bean_def.name().to_string();
                self.bean_defs.add(name, bean_def);
                proof {
                    self.bean_defs.lemma_distinct();
                    old(self).bean_defs.lemma_distinct();
                    assert forall|i: int| 0 <= i < self.bean_defs.values().len() implies (
                    #[trigger] self.bean_defs.values()[i]).spec_name()
                        == self.bean_defs.names()[i] by {
                        if i < old(self).bean_defs.values().len() {
                            assert(self.bean_defs.values()[i] == old(self).bean_defs.values()[i]);
                            assert(self.bean_defs.names()[i] == old(self).bean_defs.names()[i]);
                        }
                    }
                    assert forall|i: int| 0 <= i < self.contexts.len() implies (
                    #[trigger] self.contexts[i]).wf() by {
                        assert(old(self).contexts[i].wf());
                    }
                }
                Ok(())
            },
        }
    }

    /// Attaches a child context. A child of the same name attached before is
    /// replaced, at its place; a child of a new name comes last.
    pub fn add_context(&mut self, context: Context)
        requires
            old(self).wf(),
            context.wf(),
        ensures
            final(self).wf(),
            final(self).same_but_children(old(self)),
            final(self).children() == ({
                let at = child_at(old(self).children(), context.spec_name());
                if at < old(self).children().len() {
                    old(self).children().update(at, context)
                } else {
                    old(self).children().push(context)
                }
            }),
    {
        let mut k: usize = 0;
        while k < self.contexts.len() && !str_eq(self.contexts[k].name(), context.name())
            invariant
                k <= self.contexts.len(),
                *self == *old(self),
                forall|i: int| 0 <= i < k ==> (#[trigger] self.children()[i]).spec_name()
                    != context.spec_name(),
            decreases self.contexts.len() - k,
        {
            k += 1;
        }
        proof {
            lemma_child_at_is(self.children(), context.spec_name(), k as int);
        }
        if k < self.contexts.len() {
            self.contexts.set(k, context);
        } else {
            self.contexts.push(context);
        }
        proof {
            assert forall|i: int| 0 <= i < self.contexts.len() implies (#[trigger] self.contexts[i]).wf() by {
                if i != k {
                    assert(old(self).contexts[i].wf());
                }
            }
        }
    }

    /// The position of the attached child of the name `name`, if there is one.
    pub fn find_context(&self, name: &str) -> (at: Option<usize>)
        ensures
            match at {
                Some(i) => i == child_at(self.children(), name@) && i < self.children().len(),
                None => child_at(self.children(), name@) == self.children().len(),
            },
    {
        let mut k: usize = 0;
        while k < self.contexts.len() && !str_eq(self.contexts[k].name(), name)
            invariant
                k <= self.contexts.len(),
                forall|i: int| 0 <= i < k ==> (#[trigger] self.children()[i]).spec_name() != name@,
            decreases self.contexts.len() - k,
        {
            k += 1;
        }
        proof {
            lemma_child_at_is(self.children(), name@, k as int);
        }
        if k < self.contexts.len() {
            Some(k)
        } else {
            None
        }
    }

    /// The attached child at the position `at`.
    pub fn context_at(&self, at: usize) -> (child: &Context)
        requires
            self.wf(),
            at < self.children().len(),
        ensures
            *child == self.children()[at as int],
            child.wf(),
    {
        &self.contexts[at]
    }

    /// The attached child at the position `at`, to register in and to resolve
    /// from. What is done to the child is done to the child of this context:
    /// nothing else of this context changes.
    pub fn context_at_mut(&mut self, at: usize) -> (child: &mut Context)
        requires
            old(self).wf(),
            at < old(self).children().len(),
        ensures
            *child == old(self).children()[at as int],
            child.wf(),
            final(self).children() == old(self).children().update(at as int, *final(child)),
            final(self).same_but_children(old(self)),
            final(child).wf() ==> final(self).wf(),
    {
        &mut self.contexts[at]
    }

    /// Adds an initialiser under a name. An initialiser added under the same
    /// name before is replaced, at its place. This never fails.
    pub fn add_init_fn(&mut self, name: &str, init_fn: SharedInit) -> (r: Result<(), Error>)
        requires
            old(self).wf(),
        ensures
            final(self).wf(),
            r is Ok,
            final(self).same_but_inits(old(self)),
            final(self).inits() == merged(old(self).inits(), (name@, init_fn)),
    {
        Self::put_init(&mut self.init_fns, name, init_fn);
        proof {
            assert forall|i: int| 0 <= i < self.contexts.len() implies (#[trigger] self.contexts[i]).wf() by {
                assert(old(self).contexts[i].wf());
            }
        }
        Ok(())
    }

    /// Puts an initialiser into a table: in the place of the one of the same
    /// name, or at the end.
    fn put_init(table: &mut NameTable<SharedInit>, name: &str, init_fn: SharedInit)
        requires
            old(table).wf(),
        ensures
            final(table).wf(),
            final(table).entries() == merged(old(table).entries(), (name@, init_fn)),
    {
        proof {
            table.lemma_distinct();
            Self::lemma_entry_at_table(table, name@);
        }
        match table.find(name) {
            Some(i) => {
                table.replace(i, init_fn);
                proof {
                    assert(table.entries() =~= old(table).entries().update(
                        i as int,
                        (name@, init_fn),
                    ));
                }
            },
            None => {
                table.add(name.to_string(), init_fn);
                proof {
                    assert(table.entries() =~= old(table).entries().push((name@, init_fn)));
                }
            },
        }
    }

    /// In a table, the first entry under a name is the entry of that name.
    proof fn lemma_entry_at_table(table: &NameTable<SharedInit>, name: Seq<char>)
        requires
            table.wf(),
        ensures
            entry_at(table.entries(), name) == (if table.has(name) {
                table.position(name)
            } else {
                table.entries().len() as int
            }),
    {
        table.lemma_distinct();
        let entries = table.entries();
        lemma_entry_at(entries, name);
        let at = entry_at(entries, name);
        if at < entries.len() {
            assert(table.names()[at] == name);
            assert(table.names().contains(name));
            assert(table.position(table.names()[at]) == at);
        } else if table.has(name) {
            let p = table.position(name);
            assert(table.names().contains(name));
            assert(table.names()[p] == name);
            assert(entries[p].0 == name);
        }
    }

    /// What the resolution of `name` begins with: the cached component, or the
    /// descriptor to build it from, or nothing.
    pub fn resolve(&self, name: &str) -> (r: Resolution)
        requires
            self.wf(),
        ensures
            r == self.resolution(name@),
    {
        proof {
            self.beans.lemma_distinct();
        }
        match self.beans.find(name) {
            Some(i) => Resolution::Cached(self.beans.value_at(i).share()),
            None => match self.get_bean_def(name) {
                Some(def) => Resolution::Build(def),
                None => Resolution::Missing,
            },
        }
    }

    /// Takes in what the factory of `def` made: caches the new component under
    /// the descriptor's name and hands it out.
    ///
    /// A failure of the factory comes back as `FactoryFailed`. Where the cache
    /// holds the name already, the new component replaces the cached one and
    /// the result is `UnexpectedDuplicate`.
    pub fn settle(&mut self, def: &BeanDef, made: Result<Handle, Error>) -> (r: Result<
        Handle,
        Error,
    >)
        requires
            old(self).wf(),
        ensures
            final(self).wf(),
            settled(*old(self), *def, made, r, *final(self)),
    {
        let (name, handle) = match built(def.name(), made) {
            Ok(pair) => pair,
            Err(e) => {
                return Err(e);
            },
        };
        proof {
            self.beans.lemma_distinct();
        }
        let out = handle.share();
        let r = match self.beans.find(name.as_str()) {
            Some(i) => {
                self.beans.replace(i, handle);
                Err(
                    Error::UnexpectedDuplicate {
                        name,
                        ty_name: def.ty().name().to_string(),
                        context: self.name.clone(),
                    },
                )
            },
            None => {
                self.beans.add(name, handle);
                Ok(out)
            },
        };
        proof {
            assert forall|i: int| 0 <= i < self.contexts.len() implies (#[trigger] self.contexts[i]).wf() by {
                assert(old(self).contexts[i].wf());
            }
        }
        r
    }

    /// The component of the name `name`, built if it was not built before.
    ///
    /// A component built before is handed out again and the context stays as it
    /// is. Otherwise the descriptor of that name is looked for tree-wide;
    /// without one the result is `NotFound` and the context stays as it is.
    /// With one, its factory runs, against this context, and what it made is
    /// settled as `settle` says.
    pub fn get_handle(&mut self, types: &TypeRegistry, name: &str) -> (r: Result<Handle, Error>)
        requires
            old(self).wf(),
            types.wf(),
        ensures
            final(self).wf(),
            match old(self).resolution(name@) {
                Resolution::Cached(handle) => r == Ok::<Handle, Error>(handle) && *final(self)
                    == *old(self),
                Resolution::Missing => {
                    &&& r matches Err(e)
                    &&& e@ == (Failure::NotFound { name: name@, context: old(self).spec_name() })
                    &&& *final(self) == *old(self)
                },
                Resolution::Build(def) => exists|mid: Context, made: Result<Handle, Error>|
                    #[trigger] built_from(def, *old(self), *types, mid, made, r, *final(self)),
            },
            r is Ok ==> final(self).cache().contains_key(name@) && final(self).cache()[name@]
                == r->Ok_0,
    {
        match self.resolve(name) {
            Resolution::Cached(handle) => Ok(handle),
            Resolution::Missing => Err(
                Error::NotFound { name: name.to_string(), context: self.name.clone() },
            ),
            Resolution::Build(def) => {
                let made = def.factory().factory().create(self, types);
                let ghost mid = *self;
                proof {
                    assert(factory_made(def.spec_factory(), *old(self), *types, mid, made));
                }
                let r = self.settle(&def, made);
                proof {
                    assert(built_from(def, *old(self), *types, mid, made, r, *self));
                    Self::lemma_found_has_name(old(self).all_defs(), name@);
                }
                r
            },
        }
    }

    /// The descriptor found for a name has that name.
    proof fn lemma_found_has_name(defs: Seq<BeanDef>, name: Seq<char>)
        ensures
            first_named(defs, name) matches Some(def) ==> def.spec_name() == name,
        decreases defs.len(),
    {
        if defs.len() > 0 && defs[0].spec_name() != name {
            Self::lemma_found_has_name(defs.drop_first(), name);
        }
    }

    /// The component of the name `name`, viewed through the capability `T`.
    ///
    /// The component is resolved as `get_handle` says, and the handle is then
    /// viewed as `Type::downcast` says. A component built before is handed to
    /// the downcast again and the context stays as it is; without a descriptor
    /// the result is `NotFound`.
    pub fn get_bean<T: ?Sized + 'static>(&mut self, types: &TypeRegistry, name: &str) -> (r: Result<
        Arc<T>,
        Error,
    >)
        requires
            old(self).wf(),
            types.wf(),
        ensures
            final(self).wf(),
            exists|target: TypeId| #[trigger]
                bean_fits(
                    old(self).resolution(name@),
                    name@,
                    *types,
                    target,
                    r,
                    *old(self),
                    *final(self),
                ),
            r is Ok ==> final(self).cache().contains_key(name@),
    {
        let target = type_id_of::<T>();
        let r = self.get_bean_as::<T>(types, name, &target);
        proof {
            assert(bean_fits(
                old(self).resolution(name@),
                name@,
                *types,
                target,
                r,
                *old(self),
                *self,
            ));
        }
        r
    }

    /// The component of the name `name`, viewed through the capability `T`,
    /// whose identity is `target`: resolved as `get_handle` says and viewed as
    /// `Type::downcast_as` says.
    pub fn get_bean_as<T: ?Sized + 'static>(&mut self, types: &TypeRegistry, name: &str, target: &TypeId) -> (r:
        Result<Arc<T>, Error>)
        requires
            old(self).wf(),
            types.wf(),
        ensures
            final(self).wf(),
            bean_fits(
                old(self).resolution(name@),
                name@,
                *types,
                *target,
                r,
                *old(self),
                *final(self),
            ),
            r is Ok ==> final(self).cache().contains_key(name@),
    {
        let got = self.get_handle(types, name);
        let ghost begin = old(self).resolution(name@);
        let ghost after = *self;
        match got {
            Err(e) => {
                let r = Err(e);
                proof {
                    Self::lemma_bean_fits(begin, name@, *types, *target, got, r, *old(self), after);
                }
                r
            },
            Ok(handle) => {
                let r = Type::downcast_as::<T>(types, handle, target);
                proof {
                    Self::lemma_bean_fits(begin, name@, *types, *target, got, r, *old(self), after);
                }
                r
            },
        }
    }

    /// What `get_handle` promises and what the downcast of its handle promises
    /// make up what `get_bean` promises.
    proof fn lemma_bean_fits<T: ?Sized>(
        begin: Resolution,
        name: Seq<char>,
        types: TypeRegistry,
        target: TypeId,
        got: Result<Handle, Error>,
        r: Result<Arc<T>, Error>,
        before: Context,
        after: Context,
    )
        requires
            match begin {
                Resolution::Cached(handle) => got == Ok::<Handle, Error>(handle) && after == before,
                Resolution::Missing => {
                    &&& got matches Err(e)
                    &&& e@ == (Failure::NotFound { name, context: before.spec_name() })
                    &&& after == before
                },
                Resolution::Build(def) => exists|mid: Context, made: Result<Handle, Error>|
                    #[trigger] built_from(def, before, types, mid, made, got, after),
            },
            match got {
                Err(e) => r == Err::<Arc<T>, Error>(e),
                Ok(handle) => downcast_fits(types.lookup(handle_type(handle), target), handle, r),
            },
        ensures
            bean_fits(begin, name, types, target, r, before, after),
    {
        match begin {
            Resolution::Build(def) => {
                let (mid, made) = choose|mid: Context, made: Result<Handle, Error>|
                    #[trigger] built_from(def, before, types, mid, made, got, after);
                assert(mid.wf() && factory_made(def.spec_factory(), before, types, mid, made)
                    && settled(mid, def, made, got, after));
            },
            _ => {},
        }
    }

    /// The name of the one visible descriptor whose type may be viewed through
    /// `target`: `NoCandidate` where there is none, `AmbiguousCandidate` where
    /// there are several.
    pub fn primary_name(&self, types: &TypeRegistry, target: &TypeId) -> (r: Result<String, Error>)
        requires
            self.wf(),
            types.wf(),
        ensures
            primary_of(assignable_to(self.all_defs(), *types, *target), r),
    {
        let candidates = self.get_bean_defs_by_type(types, target);
        if candidates.len() == 0 {
            Err(Error::NoCandidate)
        } else if candidates.len() == 1 {
            Ok(candidates[0].name().to_string())
        } else {
            Err(Error::AmbiguousCandidate { count: candidates.len() })
        }
    }

    /// The one component that has the capability `T`, viewed through it.
    ///
    /// The visible descriptors whose type has the capability are counted: none
    /// gives `NoCandidate`, several give `AmbiguousCandidate`, and the only one
    /// is resolved by its name as `get_bean` says.
    pub fn get_primary_bean<T: ?Sized + 'static>(&mut self, types: &TypeRegistry) -> (r: Result<
        Arc<T>,
        Error,
    >)
        requires
            old(self).wf(),
            types.wf(),
        ensures
            final(self).wf(),
            exists|target: TypeId| #[trigger]
                primary_fits(
                    assignable_to(old(self).all_defs(), *types, target),
                    *types,
                    target,
                    r,
                    *old(self),
                    *final(self),
                ),
    {
        let target = type_id_of::<T>();
        let r = self.get_primary_bean_as::<T>(types, &target);
        proof {
            assert(primary_fits(
                assignable_to(old(self).all_defs(), *types, target),
                *types,
                target,
                r,
                *old(self),
                *self,
            ));
        }
        r
    }

    /// The one component that has the capability `T`, whose identity is
    /// `target`, viewed through it.
    pub fn get_primary_bean_as<T: ?Sized + 'static>(&mut self, types: &TypeRegistry, target: &TypeId) -> (r:
        Result<Arc<T>, Error>)
        requires
            old(self).wf(),
            types.wf(),
        ensures
            final(self).wf(),
            primary_fits(
                assignable_to(old(self).all_defs(), *types, *target),
                *types,
                *target,
                r,
                *old(self),
                *final(self),
            ),
    {
        match self.primary_name(types, target) {
            Ok(name) => self.get_bean_as::<T>(types, name.as_str(), target),
            Err(e) => Err(e),
        }
    }

    /// Every component that has the capability `T`, viewed through it, in the
    /// order of the walk of the tree.
    ///
    /// The visible descriptors whose type has the capability are resolved one
    /// after another as `get_bean` says; the first failure ends the call and is
    /// its result. Without such a descriptor the result is empty and the
    /// context stays as it is.
    pub fn get_beans<T: ?Sized + 'static>(&mut self, types: &TypeRegistry) -> (r: Result<
        Vec<Arc<T>>,
        Error,
    >)
        requires
            old(self).wf(),
            types.wf(),
        ensures
            final(self).wf(),
            exists|target: TypeId| #[trigger]
                beans_fit(
                    assignable_to(old(self).all_defs(), *types, target),
                    *types,
                    target,
                    r,
                    *old(self),
                    *final(self),
                ),
    {
        let target = type_id_of::<T>();
        let r = self.get_beans_as::<T>(types, &target);
        proof {
            assert(beans_fit(
                assignable_to(old(self).all_defs(), *types, target),
                *types,
                target,
                r,
                *old(self),
                *self,
            ));
        }
        r
    }

    /// Every component that has the capability `T`, whose identity is
    /// `target`, viewed through it, in the order of the walk of the tree.
    pub fn get_beans_as<T: ?Sized + 'static>(&mut self, types: &TypeRegistry, target: &TypeId) -> (r:
        Result<Vec<Arc<T>>, Error>)
        requires
            old(self).wf(),
            types.wf(),
        ensures
            final(self).wf(),
            beans_fit(
                assignable_to(old(self).all_defs(), *types, *target),
                *types,
                *target,
                r,
                *old(self),
                *final(self),
            ),
    {
        let candidates = self.get_bean_defs_by_type(types, target);
        let ghost found = assignable_to(old(self).all_defs(), *types, *target);
        let mut beans: Vec<Arc<T>> = Vec::new();
        let ghost mut states: Seq<Context> = seq![*self];
        let ghost mut steps: Seq<Result<Arc<T>, Error>> = Seq::empty();
        let mut i: usize = 0;
        while i < candidates.len()
            invariant
                i <= candidates.len(),
                self.wf(),
                types.wf(),
                beans.len() == i,
                steps.len() == i,
                candidates@ == found,
                found == assignable_to(old(self).all_defs(), *types, *target),
                beans_trace(found, *types, *target, states, steps),
                states[0] == *old(self),
                states.last() == *self,
                forall|k: int| 0 <= k < i ==> #[trigger] steps[k] == Ok::<Arc<T>, Error>(beans[k]),
            decreases candidates.len() - i,
        {
            let ghost before = *self;
            let step = self.get_bean_as::<T>(types, candidates[i].name(), target);
            proof {
                let old_states = states;
                let old_steps = steps;
                states = states.push(*self);
                steps = steps.push(step);
                assert forall|k: int| 0 <= k < steps.len() implies bean_fits(
                    states[k].resolution(found[k].spec_name()),
                    found[k].spec_name(),
                    *types,
                    *target,
                    #[trigger] steps[k],
                    states[k],
                    states[k + 1],
                ) by {
                    if k < old_steps.len() {
                        assert(steps[k] == old_steps[k]);
                        assert(states[k] == old_states[k]);
                        assert(states[k + 1] == old_states[k + 1]);
                    }
                }
                assert forall|k: int| 0 <= k < steps.len() - 1 implies (#[trigger] steps[k]) is Ok by {
                    assert(steps[k] == old_steps[k]);
                }
                assert(beans_trace(found, *types, *target, states, steps));
                assert(states[0] == old_states[0]);
                assert(states.last() == *self);
                assert(steps.last() == step);
            }
            match step {
                Ok(bean) => beans.push(bean),
                Err(e) => {
                    let r = Err(e);
                    assert(beans_fit(found, *types, *target, r, *old(self), *self));
                    return r;
                },
            }
            i += 1;
        }
        let r = Ok(beans);
        assert(beans_fit(found, *types, *target, r, *old(self), *self));
        r
    }

    /// The initialisers of this context and its descendants are those of its
    /// children, then its own.
    pub proof fn lemma_all_inits(&self)
        ensures
            self.all_inits() == inits_of(self.children()) + self.inits(),
    {
        Self::lemma_inits_below(self, self.contexts.len() as nat);
        assert(self.children().take(self.contexts.len() as int) == self.children());
    }

    proof fn lemma_inits_below(parent: &Context, n: nat)
        requires
            n <= parent.contexts.len(),
        ensures
            Self::inits_below(parent, n) == inits_of(parent.children().take(n as int)),
        decreases n,
    {
        if n > 0 {
            Self::lemma_inits_below(parent, (n - 1) as nat);
            let kids = parent.children().take(n as int);
            assert(kids.drop_last() == parent.children().take(n - 1));
            assert(kids.last() == parent.contexts[n - 1]);
        }
    }

    /// Puts every initialiser of this context and its descendants into `into`.
    fn gather_inits(&self, into: &mut NameTable<SharedInit>)
        requires
            self.wf(),
            old(into).wf(),
        ensures
            final(into).wf(),
            final(into).entries() == merged_all(old(into).entries(), self.all_inits()),
        decreases self,
    {
        proof {
            self.lemma_all_inits();
        }
        let ghost start = into.entries();
        let mut k: usize = 0;
        while k < self.contexts.len()
            invariant
                k <= self.contexts.len(),
                self.wf(),
                into.wf(),
                into.entries() == merged_all(start, inits_of(self.children().take(k as int))),
            decreases self.contexts.len() - k,
        {
            proof {
                let kids = self.children().take(k + 1);
                assert(kids.drop_last() == self.children().take(k as int));
                assert(kids.last() == self.contexts[k as int]);
                lemma_merged_all_concat(
                    start,
                    inits_of(kids.drop_last()),
                    self.contexts[k as int].all_inits(),
                );
            }
            self.contexts[k].gather_inits(into);
            k += 1;
        }
        proof {
            assert(self.children().take(k as int) == self.children());
            self.init_fns.lemma_distinct();
        }
        let ghost below = into.entries();
        let n = self.init_fns.len();
        let mut i: usize = 0;
        while i < n
            invariant
                i <= n,
                n == self.inits().len(),
                n == self.init_fns.names().len(),
                n == self.init_fns.values().len(),
                self.wf(),
                into.wf(),
                into.entries() == merged_all(below, self.inits().take(i as int)),
            decreases n - i,
        {
            proof {
                let own = self.inits().take(i + 1);
                assert(own.drop_last() == self.inits().take(i as int));
                assert(own.last() == (
                    self.init_fns.names()[i as int],
                    self.init_fns.values()[i as int],
                ));
            }
            Self::put_init(
                into,
                self.init_fns.name_at(i).as_str(),
                self.init_fns.value_at(i).share(),
            );
            i += 1;
        }
        proof {
            assert(self.inits().take(n as int) == self.inits());
            lemma_merged_all_concat(start, inits_of(self.children()), self.inits());
        }
    }

    /// The initialisers to run for this context, in the order of their run.
    pub fn get_init_context_fns(&self) -> (plan: Vec<(String, SharedInit)>)
        requires
            self.wf(),
        ensures
            plan_view(plan@) == self.init_plan(),
    {
        let mut table: NameTable<SharedInit> = NameTable::new();
        proof {
            assert(table.entries() =~= Seq::<(Seq<char>, SharedInit)>::empty());
        }
        self.gather_inits(&mut table);
        proof {
            table.lemma_distinct();
        }
        let mut plan: Vec<(String, SharedInit)> = Vec::new();
        let n = table.len();
        let mut i: usize = 0;
        while i < n
            invariant
                i <= n,
                n == table.names().len(),
                n == table.values().len(),
                table.wf(),
                plan_view(plan@) == table.entries().take(i as int),
            decreases n - i,
        {
            plan.push((table.name_at(i).clone(), table.value_at(i).share()));
            proof {
                assert(plan_view(plan@) =~= table.entries().take(i as int).push(
                    table.entries()[i as int],
                ));
                assert(table.entries().take(i as int).push(table.entries()[i as int])
                    == table.entries().take(i + 1));
            }
            i += 1;
        }
        proof {
            assert(table.entries().take(n as int) == table.entries());
        }
        plan
    }

    /// Runs the initialisers of this context and its descendants, each against
    /// this context, in the order of `init_plan`. The first failure ends the run
    /// and is its result. With nothing to run the call succeeds and changes
    /// nothing.
    pub fn init_contexts(&mut self, types: &mut TypeRegistry) -> (r: Result<(), Error>)
        requires
            old(self).wf(),
            old(types).wf(),
        ensures
            final(self).wf(),
            final(types).wf(),
            inits_ran(
                initialisers(old(self).init_plan()),
                *old(self),
                *old(types),
                *final(self),
                *final(types),
                r,
            ),
            old(self).init_plan().len() == 0 ==> r is Ok,
            old(self).init_plan().len() == 0 ==> *final(self) == *old(self),
            old(self).init_plan().len() == 0 ==> *final(types) == *old(types),
    {
        let plan = self.get_init_context_fns();
        let mut inits: Vec<SharedInit> = Vec::new();
        let mut i: usize = 0;
        while i < plan.len()
            invariant
                i <= plan.len(),
                inits@ == initialisers(plan_view(plan@)).take(i as int),
            decreases plan.len() - i,
        {
            inits.push(plan[i].1.share());
            proof {
                let all = initialisers(plan_view(plan@));
                assert(all[i as int] == plan@[i as int].1);
                assert(all.take(i as int).push(all[i as int]) == all.take(i + 1));
            }
            i += 1;
        }
        proof {
            let all = initialisers(plan_view(plan@));
            assert(all.take(plan.len() as int) == all);
        }
        run_inits(&inits, self, types)
    }

    /// The descriptor that `name` resolves to: looked for in this context
    /// first, then in its children and their descendants, child by child.
    pub fn get_bean_def(&self, name: &str) -> (found: Option<BeanDef>)
        requires
            self.wf(),
        ensures
            found == self.find_def(name@),
        decreases self,
    {
        proof {
            self.lemma_own_first(name@);
            self.lemma_all_defs();
            lemma_first_named_concat(self.defs(), defs_of(self.children()), name@);
        }
        match self.bean_defs.find(name) {
            Some(i) => {
                return Some(self.bean_defs.value_at(i).duplicate());
            },
            None => {},
        }
        let mut k: usize = 0;
        while k < self.contexts.len()
            invariant
                k <= self.contexts.len(),
                self.wf(),
                self.find_def(name@) == first_named(defs_of(self.children()), name@),
                first_named(defs_of(self.children().take(k as int)), name@) is None,
            decreases self.contexts.len() - k,
        {
            proof {
                let kids = self.children().take(k + 1);
                assert(kids.drop_last() == self.children().take(k as int));
                assert(kids.last() == self.contexts[k as int]);
                lemma_first_named_concat(
                    defs_of(kids.drop_last()),
                    self.contexts[k as int].all_defs(),
                    name@,
                );
            }
            match self.contexts[k].get_bean_def(name) {
                Some(def) => {
                    proof {
                        Self::lemma_found_below(self, k as int, name@);
                    }
                    return Some(def);
                },
                None => {},
            }
            k += 1;
        }
        proof {
            assert(self.children().take(k as int) == self.children());
        }
        None
    }

    /// Where none of the first `k` children shows a descriptor of a name, the
    /// first one visible from the children is the first one of child `k`.
    proof fn lemma_found_below(parent: &Context, k: int, name: Seq<char>)
        requires
            0 <= k < parent.children().len(),
            first_named(defs_of(parent.children().take(k)), name) is None,
            first_named(parent.children()[k].all_defs(), name) is Some,
        ensures
            first_named(defs_of(parent.children()), name) == first_named(
                parent.children()[k].all_defs(),
                name,
            ),
    {
        Self::lemma_found_upto(parent.children(), k, parent.children().len() as int, name);
        assert(parent.children().take(parent.children().len() as int) == parent.children());
    }

    proof fn lemma_found_upto(kids: Seq<Context>, k: int, n: int, name: Seq<char>)
        requires
            0 <= k < n <= kids.len(),
            first_named(defs_of(kids.take(k)), name) is None,
            first_named(kids[k].all_defs(), name) is Some,
        ensures
            first_named(defs_of(kids.take(n)), name) == first_named(kids[k].all_defs(), name),
        decreases n,
    {
        let upto = kids.take(n);
        assert(upto.drop_last() == kids.take(n - 1));
        assert(upto.last() == kids[n - 1]);
        lemma_first_named_concat(defs_of(upto.drop_last()), upto.last().all_defs(), name);
        if n - 1 > k {
            Self::lemma_found_upto(kids, k, n - 1, name);
        }
    }

    /// Appends every visible descriptor to `out`.
    fn collect_defs(&self, out: &mut Vec<BeanDef>)
        requires
            self.wf(),
        ensures
            final(out)@ == old(out)@ + self.all_defs(),
        decreases self,
    {
        proof {
            self.lemma_all_defs();
        }
        let n = self.bean_defs.len();
        let mut i: usize = 0;
        while i < n
            invariant
                i <= n,
                n == self.defs().len(),
                self.wf(),
                out@ == old(out)@ + self.defs().take(i as int),
            decreases n - i,
        {
            out.push(self.bean_defs.value_at(i).duplicate());
            proof {
                assert(self.defs().take(i as int).push(self.defs()[i as int]) == self.defs().take(
                    i + 1,
                ));
            }
            i += 1;
        }
        proof {
            assert(self.defs().take(n as int) == self.defs());
        }
        let mut k: usize = 0;
        while k < self.contexts.len()
            invariant
                k <= self.contexts.len(),
                self.wf(),
                out@ == old(out)@ + self.defs() + defs_of(self.children().take(k as int)),
            decreases self.contexts.len() - k,
        {
            proof {
                let kids = self.children().take(k + 1);
                assert(kids.drop_last() == self.children().take(k as int));
                assert(kids.last() == self.contexts[k as int]);
            }
            let ghost before = out@;
            self.contexts[k].collect_defs(out);
            proof {
                assert(out@ == old(out)@ + self.defs() + (defs_of(self.children().take(k as int))
                    + self.contexts[k as int].all_defs()));
            }
            k += 1;
        }
        proof {
            assert(self.children().take(k as int) == self.children());
            assert(out@ == old(out)@ + (self.defs() + defs_of(self.children())));
        }
    }

    /// Every descriptor visible from this context: its own in the order of
    /// their registration, then those of its children, child by child.
    pub fn get_bean_defs_within_context(&self) -> (defs: Vec<BeanDef>)
        requires
            self.wf(),
        ensures
            defs@ == self.all_defs(),
    {
        let mut defs: Vec<BeanDef> = Vec::new();
        self.collect_defs(&mut defs);
        defs
    }

    /// The visible descriptors whose type may be viewed through `target`, in
    /// the order of the walk.
    pub fn get_bean_defs_by_type(&self, types: &TypeRegistry, target: &TypeId) -> (defs: Vec<
        BeanDef,
    >)
        requires
            self.wf(),
            types.wf(),
        ensures
            defs@ == assignable_to(self.all_defs(), *types, *target),
    {
        let all = self.get_bean_defs_within_context();
        let mut defs: Vec<BeanDef> = Vec::new();
        let ghost pred = |d: BeanDef| types.assignable(d.spec_ty().spec_id(), *target);
        let mut i: usize = 0;
        proof {
            reveal(Seq::filter);
            assert(all@.take(0).filter(pred) == Seq::<BeanDef>::empty());
        }
        while i < all.len()
            invariant
                i <= all.len(),
                types.wf(),
                pred == |d: BeanDef| types.assignable(d.spec_ty().spec_id(), *target),
                defs@ == all@.take(i as int).filter(pred),
            decreases all.len() - i,
        {
            proof {
                reveal(Seq::filter);
                assert(all@.take(i + 1).drop_last() == all@.take(i as int));
            }
            if all[i].ty().assignable(types, target) {
                defs.push(all[i].duplicate());
            }
            i += 1;
        }
        proof {
            assert(all@.take(all.len() as int) == all@);
        }
        defs
    }
}

/// A context without children and without initialisers of its own has nothing
/// to run.
pub proof fn lemma_empty_plan(context: Context)
    requires
        context.children().len() == 0,
        context.inits().len() == 0,
    ensures
        context.init_plan() == Seq::<(Seq<char>, SharedInit)>::empty(),
{
    context.lemma_all_inits();
    assert(inits_of(context.children()) == Seq::<(Seq<char>, SharedInit)>::empty());
    assert(context.all_inits() =~= Seq::<(Seq<char>, SharedInit)>::empty());
}

/// A registered descriptor is resolvable: after a successful `register`, the
/// name of the new descriptor resolves to it, whatever the children hold.
pub proof fn lemma_registered_is_found(before: Context, after: Context, def: BeanDef)
    requires
        first_named(before.defs(), def.spec_name()) is None,
        after.defs() == before.defs().push(def),
    ensures
        after.find_def(def.spec_name()) == Some(def),
{
    after.lemma_all_defs();
    let one = seq![def];
    assert(before.defs().push(def) == before.defs() + one);
    assert(one.drop_first() == Seq::<BeanDef>::empty());
    assert(first_named(one, def.spec_name()) == Some(def));
    lemma_first_named_concat(before.defs(), one, def.spec_name());
    lemma_first_named_concat(after.defs(), defs_of(after.children()), def.spec_name());
}

/// A descriptor registered first stays the one that its name resolves to:
/// descriptors registered later, under whatever name, do not hide it.
pub proof fn lemma_first_registration_stays(before: Context, after: Context, later: BeanDef, name: Seq<char>)
    requires
        first_named(before.defs(), name) is Some,
        after.defs() == before.defs().push(later),
    ensures
        after.find_def(name) == before.find_def(name),
{
    before.lemma_all_defs();
    after.lemma_all_defs();
    assert(before.defs().push(later) == before.defs() + seq![later]);
    lemma_first_named_concat(before.defs(), seq![later], name);
    lemma_first_named_concat(before.defs(), defs_of(before.children()), name);
    lemma_first_named_concat(after.defs(), defs_of(after.children()), name);
}

/// A component is a singleton of its context: once it is cached under its
/// name, every resolution of that name begins, and ends, with the cached
/// handle.
pub proof fn lemma_cached_is_resolved(context: Context, name: Seq<char>, handle: Handle)
    requires
        context.cache().contains_key(name),
        context.cache()[name] == handle,
    ensures
        context.resolution(name) == Resolution::Cached(handle),
{
}

/// A component is built once: a query for a name whose component is cached
/// leaves the context as it is and hands the cached handle to the downcast,
/// so that every query after the first views the instance of the first.
pub proof fn lemma_second_query_views_the_cached<T: ?Sized>(
    context: Context,
    name: Seq<char>,
    types: TypeRegistry,
    target: TypeId,
    r: Result<Arc<T>, Error>,
    after: Context,
)
    requires
        context.cache().contains_key(name),
        bean_fits(context.resolution(name), name, types, target, r, context, after),
    ensures
        after == context,
        downcast_fits(
            types.lookup(handle_type(context.cache()[name]), target),
            context.cache()[name],
            r,
        ),
{
}

/// An empty context shows no descriptor.
pub proof fn lemma_empty_shows_nothing(context: Context)
    requires
        context.defs().len() == 0,
        context.children().len() == 0,
    ensures
        context.all_defs() == Seq::<BeanDef>::empty(),
{
    context.lemma_all_defs();
    assert(defs_of(context.children()) == Seq::<BeanDef>::empty());
    assert(context.all_defs() =~= Seq::<BeanDef>::empty());
}

/// A context's own descriptors are visible from it.
pub proof fn lemma_own_defs_visible(context: Context, def: BeanDef)
    requires
        context.defs().contains(def),
    ensures
        context.all_defs().contains(def),
{
    context.lemma_all_defs();
    let own = context.defs();
    let i = choose|i: int| 0 <= i < own.len() && own[i] == def;
    assert((own + defs_of(context.children()))[i] == def);
}

/// A descriptor registered on an attached child is visible from the parent:
/// where the child at `at` was changed and now shows `def`, the parent shows it.
pub proof fn lemma_registered_on_child_is_visible(before: Context, after: Context, at: int, child: Context, def: BeanDef)
    requires
        0 <= at < before.children().len(),
        after.children() == before.children().update(at, child),
        child.defs().contains(def),
    ensures
        after.all_defs().contains(def),
{
    lemma_own_defs_visible(child, def);
    lemma_child_defs_visible(after, at, def);
}

/// What is visible from a child is visible from its parent, however deep it
/// stands: every descriptor of the walk of child `k` is in the walk of the
/// parent.
pub proof fn lemma_child_defs_visible(parent: Context, k: int, def: BeanDef)
    requires
        0 <= k < parent.children().len(),
        parent.children()[k].all_defs().contains(def),
    ensures
        parent.all_defs().contains(def),
{
    parent.lemma_all_defs();
    lemma_defs_of_holds(parent.children(), k, def);
    let below = defs_of(parent.children());
    let i = choose|i: int| 0 <= i < below.len() && below[i] == def;
    assert((parent.defs() + below)[parent.defs().len() + i] == def);
}

/// The walk of a list of contexts holds the walk of each of them.
pub proof fn lemma_defs_of_holds(kids: Seq<Context>, k: int, def: BeanDef)
    requires
        0 <= k < kids.len(),
        kids[k].all_defs().contains(def),
    ensures
        defs_of(kids).contains(def),
    decreases kids.len(),
{
    let head = defs_of(kids.drop_last());
    let tail = kids.last().all_defs();
    if k == kids.len() - 1 {
        let i = choose|i: int| 0 <= i < tail.len() && tail[i] == def;
        assert((head + tail)[head.len() + i] == def);
    } else {
        lemma_defs_of_holds(kids.drop_last(), k, def);
        let i = choose|i: int| 0 <= i < head.len() && head[i] == def;
        assert((head + tail)[i] == def);
    }
}

/// A visible descriptor whose type has a capability is a candidate for that
/// capability, wherever in the tree it is registered.
pub proof fn lemma_visible_is_candidate(
    context: Context,
    types: TypeRegistry,
    target: TypeId,
    def: BeanDef,
)
    requires
        context.all_defs().contains(def),
        types.assignable(def.spec_ty().spec_id(), target),
    ensures
        assignable_to(context.all_defs(), types, target).contains(def),
{
    let pred = |d: BeanDef| types.assignable(d.spec_ty().spec_id(), target);
    let defs = context.all_defs();
    let i = choose|i: int| 0 <= i < defs.len() && defs[i] == def;
    defs.lemma_filter_contains(pred, i);
}

} // verus!
