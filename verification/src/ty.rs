//! Type identities and the registry of downcast functions.
//!
//! A component is handed around as a `Handle`, which hides its concrete
//! type. The registry knows, for each concrete type it was told of, the
//! capabilities a handle of that type may be viewed through, and for each of
//! them the function that makes the view.

use vstd::prelude::*;
use std::any::Any;
use std::any::TypeId;
use std::sync::Arc;
use crate::error::Error;
use crate::error::Failure;
use crate::names::TypeTable;
use crate::text::join2;

verus! {

/// A shared component whose concrete type is hidden. Two handles are equal
/// when they refer to the same instance. The verifier has no model of
/// `dyn Any`, so it sees nothing inside.
#[verifier::external_body]
pub struct Handle {
    inner: Arc<dyn Any + Send + Sync>,
}

/// A function that views a handle through one capability, with the
/// capability hidden. The verifier has no model of `dyn Any`, so it sees
/// nothing inside.
#[verifier::external_body]
pub struct Caster {
    inner: Box<dyn Any + Send + Sync>,
}

/// The identity of the concrete type of the instance behind a handle: what
/// `Any::type_id` returns for the instance.
pub uninterp spec fn handle_type(h: Handle) -> TypeId;

/// Whether the function behind `caster`, applied to `handle`, may accept it
/// (`accepted`) or may reject it (not `accepted`).
pub uninterp spec fn cast_made(caster: Caster, handle: Handle, accepted: bool) -> bool;

/// `TypeId::of`: the identity of `T`. Nothing is claimed of the result.
#[verifier::external_body]
pub(crate) fn type_id_of<T: ?Sized + 'static>() -> TypeId {
    TypeId::of::<T>()
}

impl Handle {
    /// An `Arc` with its type forgotten: the handle to the instance behind
    /// `value`.
    #[verifier::external_body]
    pub fn from_arc<T: Send + Sync + 'static>(value: Arc<T>) -> Handle {
        Handle { inner: value }
    }

    /// A handle to a new instance that holds `value`.
    pub fn new<T: Send + Sync + 'static>(value: T) -> Handle {
        Self::from_arc(Arc::new(value))
    }

    /// `Any::type_id` on the instance behind the handle: the identity of its
    /// concrete type.
    #[verifier::external_body]
    pub fn type_id(&self) -> (id: TypeId)
        ensures
            id == handle_type(*self),
    {
        self.inner.as_ref().type_id()
    }

    /// `Arc::clone`: another handle to the same instance, equal to this one.
    #[verifier::external_body]
    pub fn share(&self) -> (h: Handle)
        ensures
            h == *self,
    {
        Handle { inner: Arc::clone(&self.inner) }
    }

    /// `Arc::downcast`: the instance as a `T`, or the handle back. Nothing is
    /// claimed of the result.
    #[verifier::external_body]
    pub fn downcast<T: Send + Sync + 'static>(self) -> Result<Arc<T>, Handle> {
        match self.inner.downcast::<T>() {
            Ok(instance) => Ok(instance),
            Err(inner) => Err(Handle { inner }),
        }
    }
}

impl Caster {
    /// `Box::new`, once around `f` as a function of the capability `T` and once
    /// more with that capability forgotten.
    #[verifier::external_body]
    pub(crate) fn new<T: ?Sized + 'static, F>(f: F) -> Caster where
        F: Fn(Handle) -> Result<Arc<T>, Handle> + Send + Sync + 'static,
     {
        let f: Box<dyn Fn(Handle) -> Result<Arc<T>, Handle> + Send + Sync> = Box::new(f);
        Caster { inner: Box::new(f) }
    }

    /// `Any::downcast_ref` to a function of the capability `T`, and the call of
    /// that function on `handle`; where the hidden function has another
    /// capability, `handle` comes back. Whether the handle was accepted is what
    /// `cast_made` says; of the view itself nothing is claimed: the function is
    /// the caller's.
    #[verifier::external_body]
    pub(crate) fn apply<T: ?Sized + 'static>(&self, handle: Handle) -> (r: Result<Arc<T>, Handle>)
        ensures
            cast_made(*self, handle, r is Ok),
    {
        match self.inner.downcast_ref::<Box<dyn Fn(Handle) -> Result<Arc<T>, Handle> + Send + Sync>>() {
            Some(f) => f(handle),
            None => Err(handle),
        }
    }
}

/// What the registry knows of one concrete type.
pub struct Descriptor {
    /// The type's name, for people.
    pub name: Seq<char>,
    /// The downcast function of each capability the type may be viewed through.
    pub casts: Map<TypeId, Caster>,
}

/// The descriptor of a type: its identity and its name.
pub struct Type {
    id: TypeId,
    name: String,
}

struct TypeEntry {
    name: String,
    casters: TypeTable<Caster>,
}

/// The table of all type descriptors.
pub struct TypeRegistry {
    types: TypeTable<TypeEntry>,
}

/// What a lookup of a downcast function comes to.
pub enum Lookup {
    /// The concrete type has no descriptor.
    Unregistered,
    /// The concrete type, of this name, has no function for the capability.
    NoDowncast { name: Seq<char> },
    /// The function to apply, and the concrete type's name.
    Found { name: Seq<char>, caster: Caster },
}

impl TypeEntry {
    spec fn wf(&self) -> bool {
        self.casters.wf()
    }

    spec fn casts(&self) -> Map<TypeId, Caster> {
        self.casters.map()
    }

    spec fn model(&self) -> Descriptor {
        Descriptor { name: self.name@, casts: self.casts() }
    }

    fn put(&mut self, target: TypeId, caster: Caster) -> (overwrote: bool)
        requires
            old(self).wf(),
        ensures
            final(self).wf(),
            final(self).name == old(self).name,
            final(self).casts() == old(self).casts().insert(target, caster),
            overwrote == old(self).casts().contains_key(target),
    {
        proof {
            self.casters.lemma_distinct();
        }
        match self.casters.find(&target) {
            Some(k) => {
                self.casters.replace(k, caster);
                true
            },
            None => {
                self.casters.add(target, caster);
                false
            },
        }
    }
}

impl View for TypeRegistry {
    type V = Map<TypeId, Descriptor>;

    closed spec fn view(&self) -> Map<TypeId, Descriptor> {
        Map::new(|id: TypeId| self.types.has(id), |id: TypeId| self.types.map()[id].model())
    }
}

impl Type {
    /// The identity of the type.
    pub closed spec fn spec_id(&self) -> TypeId {
        self.id
    }

    /// The name of the type.
    pub closed spec fn spec_name(&self) -> Seq<char> {
        self.name@
    }

    /// The name of the type.
    pub fn name(&self) -> (name: &str)
        ensures
            name@ == self.spec_name(),
    {
        self.name.as_str()
    }

    /// The identity of the type.
    pub fn id(&self) -> (id: &TypeId)
        ensures
            *id == self.spec_id(),
    {
        &self.id
    }

    /// The descriptor for people: `Type(NAME)`.
    pub fn display(&self) -> (text: String)
        ensures
            text@ == "Type("@ + self.spec_name() + ")"@,
    {
        let mut text = join2("Type(", self.name.as_str());
        text.append(")");
        text
    }

    /// A copy of the descriptor.
    pub fn duplicate(&self) -> (copy: Type)
        ensures
            copy == *self,
    {
        Type { id: self.id, name: self.name.clone() }
    }
}

impl TypeRegistry {
    /// Every table of the registry is well formed.
    pub closed spec fn wf(&self) -> bool {
        &&& self.types.wf()
        &&& forall|i: int| 0 <= i < self.types.values().len() ==> (#[trigger] self.types.values()[i]).wf()
    }

    /// What a lookup of the downcast function from `source` to `target` comes to.
    pub open spec fn lookup(&self, source: TypeId, target: TypeId) -> Lookup {
        if !self@.contains_key(source) {
            Lookup::Unregistered
        } else if !self@[source].casts.contains_key(target) {
            Lookup::NoDowncast { name: self@[source].name }
        } else {
            Lookup::Found { name: self@[source].name, caster: self@[source].casts[target] }
        }
    }

    /// Whether a handle of type `source` may be viewed through `target`.
    pub open spec fn assignable(&self, source: TypeId, target: TypeId) -> bool {
        self@.contains_key(source) && self@[source].casts.contains_key(target)
    }

    /// The registry after `id` was described under `name`: a type that has a
    /// descriptor keeps it.
    pub open spec fn described(m: Map<TypeId, Descriptor>, id: TypeId, name: Seq<char>) -> Map<
        TypeId,
        Descriptor,
    > {
        if m.contains_key(id) {
            m
        } else {
            m.insert(id, Descriptor { name, casts: Map::empty() })
        }
    }

    /// The registry after `caster` was installed from `source` to `target`:
    /// the function that was there before, if any, is gone.
    pub open spec fn installed(
        m: Map<TypeId, Descriptor>,
        source: TypeId,
        name: Seq<char>,
        target: TypeId,
        caster: Caster,
    ) -> Map<TypeId, Descriptor> {
        let d = Self::described(m, source, name)[source];
        m.insert(source, Descriptor { name: d.name, casts: d.casts.insert(target, caster) })
    }

    /// A registry without descriptors.
    pub fn new() -> (types: TypeRegistry)
        ensures
            types.wf(),
            types@ == Map::<TypeId, Descriptor>::empty(),
    {
        let types = TypeRegistry { types: TypeTable::new() };
        assert(types@ =~= Map::<TypeId, Descriptor>::empty());
        types
    }

    /// The descriptor of the type `id`, made under `name` if the type has none
    /// yet. A type is described once: a later call finds the first descriptor
    /// and leaves the registry as it is.
    pub fn describe(&mut self, id: TypeId, name: &str) -> (ty: Type)
        requires
            old(self).wf(),
        ensures
            final(self).wf(),
            final(self)@ == Self::described(old(self)@, id, name@),
            ty.spec_id() == id,
            ty.spec_name() == final(self)@[id].name,
    {
        match self.types.find(&id) {
            Some(i) => {
                let entry = self.types.value_at(i);
                Type { id, name: entry.name.clone() }
            },
            None => {
                let entry = TypeEntry { name: name.to_string(), casters: TypeTable::new() };
                proof {
                    self.types.lemma_distinct();
                    assert(entry.casts() =~= Map::<TypeId, Caster>::empty());
                }
                self.types.add(id, entry);
                proof {
                    self.types.lemma_distinct();
                    let before = old(self).types.map();
                    let after = self.types.map();
                    assert(after == before.insert(id, entry));
                    assert(!old(self)@.contains_key(id));
                    assert forall|k: TypeId| self.types.has(k) <==> k == id || old(
                        self,
                    ).types.has(k) by {
                        assert(after.contains_key(k) == self.types.has(k));
                        assert(before.contains_key(k) == old(self).types.has(k));
                    }
                    assert(entry.model() == (Descriptor { name: name@, casts: Map::empty() }));
                    assert forall|k: TypeId| #[trigger] self@.contains_key(k) implies self@[k]
                        == Self::described(old(self)@, id, name@)[k] by {
                        if k != id {
                            assert(after[k] == before[k]);
                        }
                    }
                    assert(self@ =~= Self::described(old(self)@, id, name@));
                }
                Type { id, name: name.to_string() }
            },
        }
    }

    /// Installs `caster` as the downcast function from the type `source` to the
    /// capability `target`, describing `source` first if it has no descriptor.
    /// A function installed before for the same pair is overwritten; the result
    /// says whether there was one.
    pub fn install(&mut self, source: &Type, target: TypeId, caster: Caster) -> (overwrote: bool)
        requires
            old(self).wf(),
        ensures
            final(self).wf(),
            final(self)@ == Self::installed(
                old(self)@,
                source.spec_id(),
                source.spec_name(),
                target,
                caster,
            ),
            overwrote == old(self).assignable(source.spec_id(), target),
    {
        let _ = self.describe(source.id, source.name.as_str());
        let ghost mid = self@;
        proof {
            self.types.lemma_distinct();
        }
        match self.types.find(&source.id) {
            Some(at) => {
                let ghost before = *self;
                let entry = self.types.value_at_mut(at);
                let overwrote = entry.put(target, caster);
                proof {
                    let after = self.types.values()[at as int];
                    TypeTable::lemma_updated(&before.types, &self.types, at as int, after);
                    assert(after.model() == (Descriptor {
                        name: mid[source.id].name,
                        casts: mid[source.id].casts.insert(target, caster),
                    }));
                    assert(self@ =~= mid.insert(source.id, after.model()));
                    assert(self@ =~= Self::installed(
                        old(self)@,
                        source.spec_id(),
                        source.spec_name(),
                        target,
                        caster,
                    ));
                }
                overwrote
            },
            None => {
                proof {
                    assert(mid.contains_key(source.id));
                    assert(false);
                }
                false
            },
        }
    }

    /// Whether a handle of type `source` may be viewed through `target`.
    pub fn is_assignable(&self, source: &TypeId, target: &TypeId) -> (yes: bool)
        requires
            self.wf(),
        ensures
            yes == self.assignable(*source, *target),
    {
        proof {
            self.types.lemma_distinct();
        }
        match self.types.find(source) {
            Some(at) => {
                let entry = self.types.value_at(at);
                entry.casters.find(target).is_some()
            },
            None => false,
        }
    }

    /// The downcast function from `source` to `target`, with the name of
    /// `source`; or why there is none.
    pub fn find_caster(&self, source: &TypeId, target: &TypeId) -> (found: Result<
        (&Caster, &str),
        Error,
    >)
        requires
            self.wf(),
        ensures
            match self.lookup(*source, *target) {
                Lookup::Unregistered => found matches Err(e) && e@ == Failure::UnregisteredType,
                Lookup::NoDowncast { name } => found matches Err(e) && e@
                    == (Failure::NoDowncastRegistered { ty_name: name }),
                Lookup::Found { name, caster } => found matches Ok(pair) && *pair.0 == caster
                    && pair.1@ == name,
            },
    {
        proof {
            self.types.lemma_distinct();
        }
        match self.types.find(source) {
            None => Err(Error::UnregisteredType),
            Some(at) => {
                let entry = self.types.value_at(at);
                match entry.casters.find(target) {
                    None => Err(Error::NoDowncastRegistered { ty_name: entry.name.clone() }),
                    Some(k) => Ok((entry.casters.value_at(k), entry.name.as_str())),
                }
            },
        }
    }
}

/// Whether `r` is what the downcast of `handle` comes to where the lookup of
/// its function came to `found`: the lookup's own failure; or, the function
/// that was found having been applied to `handle`, the view where it accepted
/// the handle and `DowncastMismatch` where it rejected it.
pub open spec fn downcast_fits<T: ?Sized>(found: Lookup, handle: Handle, r: Result<Arc<T>, Error>) -> bool {
    match found {
        Lookup::Unregistered => r matches Err(e) && e@ == Failure::UnregisteredType,
        Lookup::NoDowncast { name } => r matches Err(e) && e@ == (Failure::NoDowncastRegistered {
            ty_name: name,
        }),
        Lookup::Found { name, caster } => {
            ||| r is Ok && cast_made(caster, handle, true)
            ||| {
                &&& r matches Err(e)
                &&& e@ == (Failure::DowncastMismatch { ty_name: name })
                &&& cast_made(caster, handle, false)
            }
        },
    }
}

/// What a downcast comes to once the registered function has been applied:
/// the view it made, or `DowncastMismatch` where it rejected the handle.
pub fn conclude<T: ?Sized>(applied: Result<Arc<T>, Handle>, ty_name: &str) -> (r: Result<
    Arc<T>,
    Error,
>)
    ensures
        match applied {
            Ok(view) => r == Ok::<Arc<T>, Error>(view),
            Err(_) => r matches Err(e) && e@ == (Failure::DowncastMismatch { ty_name: ty_name@ }),
        },
{
    match applied {
        Ok(view) => Ok(view),
        Err(_) => Err(Error::DowncastMismatch { ty_name: ty_name.to_string() }),
    }
}

impl Type {
    /// The descriptor of `T` in `types`, made under `name` if `T` has none yet.
    pub fn of<T: ?Sized + 'static>(types: &mut TypeRegistry, name: &str) -> (ty: Type)
        requires
            old(types).wf(),
        ensures
            final(types).wf(),
            final(types)@ == TypeRegistry::described(old(types)@, ty.spec_id(), name@),
            ty.spec_name() == final(types)@[ty.spec_id()].name,
    {
        types.describe(type_id_of::<T>(), name)
    }

    /// Whether a handle of this type may be viewed through the capability
    /// `target`.
    pub fn assignable(&self, types: &TypeRegistry, target: &TypeId) -> (yes: bool)
        requires
            types.wf(),
        ensures
            yes == types.assignable(self.spec_id(), *target),
    {
        types.is_assignable(&self.id, target)
    }

    /// Registers `f` as the function that views a handle of this type through
    /// the capability `T`. A function registered before for the same pair is
    /// overwritten; the result says whether there was one.
    pub fn add_downcast<T: ?Sized + 'static, F>(&self, types: &mut TypeRegistry, f: F) -> (overwrote:
        bool) where F: Fn(Handle) -> Result<Arc<T>, Handle> + Send + Sync + 'static
        requires
            old(types).wf(),
        ensures
            final(types).wf(),
            exists|target: TypeId, caster: Caster|
                {
                    &&& final(types)@ == #[trigger] TypeRegistry::installed(
                        old(types)@,
                        self.spec_id(),
                        self.spec_name(),
                        target,
                        caster,
                    )
                    &&& overwrote == old(types).assignable(self.spec_id(), target)
                },
    {
        let target = type_id_of::<T>();
        let overwrote = self.add_downcast_as::<T, F>(types, target, f);
        proof {
            let caster = choose|caster: Caster|
                types@ == #[trigger] TypeRegistry::installed(
                    old(types)@,
                    self.spec_id(),
                    self.spec_name(),
                    target,
                    caster,
                );
            assert(types@ == TypeRegistry::installed(
                old(types)@,
                self.spec_id(),
                self.spec_name(),
                target,
                caster,
            ));
        }
        overwrote
    }

    /// Registers `f` as the function that views a handle of this type through
    /// the capability `T`, whose identity is `target`.
    pub fn add_downcast_as<T: ?Sized + 'static, F>(
        &self,
        types: &mut TypeRegistry,
        target: TypeId,
        f: F,
    ) -> (overwrote: bool) where F: Fn(Handle) -> Result<Arc<T>, Handle> + Send + Sync + 'static
        requires
            old(types).wf(),
        ensures
            final(types).wf(),
            overwrote == old(types).assignable(self.spec_id(), target),
            exists|caster: Caster|
                final(types)@ == #[trigger] TypeRegistry::installed(
                    old(types)@,
                    self.spec_id(),
                    self.spec_name(),
                    target,
                    caster,
                ),
    {
        let caster = Caster::new::<T, F>(f);
        let overwrote = types.install(self, target, caster);
        proof {
            assert(types@ == TypeRegistry::installed(
                old(types)@,
                self.spec_id(),
                self.spec_name(),
                target,
                caster,
            ));
        }
        overwrote
    }

    /// Views `handle` through the capability `T`.
    ///
    /// The concrete type of `handle` must have a descriptor, else the result is
    /// `UnregisteredType`; the descriptor must hold a function for `T`, else
    /// `NoDowncastRegistered`; and that function must accept `handle`, else
    /// `DowncastMismatch`.
    pub fn downcast<T: ?Sized + 'static>(types: &TypeRegistry, handle: Handle) -> (r: Result<
        Arc<T>,
        Error,
    >)
        requires
            types.wf(),
        ensures
            exists|target: TypeId| #[trigger] downcast_fits(types.lookup(handle_type(handle), target), handle, r),
            !types@.contains_key(handle_type(handle)) ==> (r matches Err(e) && e@
                == Failure::UnregisteredType),
    {
        let target = type_id_of::<T>();
        let r = Self::downcast_as::<T>(types, handle, &target);
        assert(downcast_fits(types.lookup(handle_type(handle), target), handle, r));
        r
    }

    /// Views `handle` through the capability `T`, whose identity is `target`.
    ///
    /// The lookup of the function from the concrete type of `handle` to
    /// `target` decides: without a descriptor the result is `UnregisteredType`;
    /// without a function, `NoDowncastRegistered`; and where the function that
    /// was found rejects `handle`, or is a function of another capability than
    /// `T`, `DowncastMismatch`.
    pub fn downcast_as<T: ?Sized + 'static>(
        types: &TypeRegistry,
        handle: Handle,
        target: &TypeId,
    ) -> (r: Result<Arc<T>, Error>)
        requires
            types.wf(),
        ensures
            downcast_fits(types.lookup(handle_type(handle), *target), handle, r),
    {
        let source = handle.type_id();
        match types.find_caster(&source, target) {
            Err(e) => Err(e),
            Ok((caster, name)) => {
                let applied = caster.apply::<T>(handle);
                proof {
                    assert(cast_made(*caster, handle, applied is Ok));
                }
                conclude(applied, name)
            },
        }
    }
}

/// A function that was installed is the one that a lookup finds: after
/// `install`, a handle of the type `source` may be viewed through `target`, and
/// a downcast of such a handle to `target` reaches `caster` and no other
/// function.
pub proof fn lemma_installed_is_found(
    before: TypeRegistry,
    after: TypeRegistry,
    source: Type,
    target: TypeId,
    caster: Caster,
)
    requires
        after@ == TypeRegistry::installed(
            before@,
            source.spec_id(),
            source.spec_name(),
            target,
            caster,
        ),
    ensures
        after.assignable(source.spec_id(), target),
        after.lookup(source.spec_id(), target) matches Lookup::Found { caster: found, .. } && found
            == caster,
{
}

/// A downcast to a capability that was registered for the handle's type is
/// decided by the registered function alone: it does not fail for want of a
/// descriptor or of a function.
pub proof fn lemma_registered_downcast_is_decided<T: ?Sized>(
    before: TypeRegistry,
    after: TypeRegistry,
    source: Type,
    target: TypeId,
    caster: Caster,
    handle: Handle,
    r: Result<Arc<T>, Error>,
)
    requires
        after@ == TypeRegistry::installed(
            before@,
            source.spec_id(),
            source.spec_name(),
            target,
            caster,
        ),
        handle_type(handle) == source.spec_id(),
        downcast_fits(after.lookup(handle_type(handle), target), handle, r),
    ensures
        r is Ok || (r matches Err(e) && e@ is DowncastMismatch),
{
}

/// Installing a function for one pair of type and capability leaves every
/// other pair as it was.
pub proof fn lemma_install_keeps_others(
    before: TypeRegistry,
    after: TypeRegistry,
    source: Type,
    target: TypeId,
    caster: Caster,
    other_source: TypeId,
    other_target: TypeId,
)
    requires
        after@ == TypeRegistry::installed(
            before@,
            source.spec_id(),
            source.spec_name(),
            target,
            caster,
        ),
        other_source != source.spec_id() || other_target != target,
    ensures
        after.assignable(other_source, other_target) == before.assignable(
            other_source,
            other_target,
        ),
        before.assignable(other_source, other_target) ==> after.lookup(other_source, other_target)
            == before.lookup(other_source, other_target),
{
}

/// A type is described once: describing it again, under whatever name, leaves
/// the registry as it is.
pub proof fn lemma_described_once(
    m: Map<TypeId, Descriptor>,
    id: TypeId,
    first: Seq<char>,
    second: Seq<char>,
)
    ensures
        TypeRegistry::described(TypeRegistry::described(m, id, first), id, second)
            == TypeRegistry::described(m, id, first),
{
}

/// The downcast of a handle whose concrete type has no descriptor fails with
/// `UnregisteredType`, whatever the capability.
pub proof fn lemma_unregistered_downcast_fails<T: ?Sized>(
    types: TypeRegistry,
    handle: Handle,
    target: TypeId,
    r: Result<Arc<T>, Error>,
)
    requires
        !types@.contains_key(handle_type(handle)),
        downcast_fits(types.lookup(handle_type(handle), target), handle, r),
    ensures
        r matches Err(e) && e@ == Failure::UnregisteredType,
{
}

/// A handle whose concrete type has no descriptor cannot be viewed through
/// any capability: every lookup for it comes to `Unregistered`.
pub proof fn lemma_unregistered_has_no_view(types: TypeRegistry, handle: Handle, target: TypeId)
    requires
        !types@.contains_key(handle_type(handle)),
    ensures
        types.lookup(handle_type(handle), target) == Lookup::Unregistered,
        !types.assignable(handle_type(handle), target),
{
}

} // verus!
