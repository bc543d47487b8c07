//! Resource access points and the events between them.
//!
//! The types are generic in how a name is written. Running code uses `String`; contracts speak of
//! the same types over `Seq<char>`, which is what the views of the running values are.

use vstd::prelude::*;

verus! {

/// A name, as contracts see it.
pub type Name = Seq<char>;

/// A variable that owns its resource.
#[derive(Debug)]
pub struct Owner<N = String> {
    pub name: N,
    pub hash: u64,
    pub is_mut: bool,
}

/// A struct value, or one of its fields. `owner` is the hash of the struct that a field is part of.
#[derive(Debug)]
pub struct Struct<N = String> {
    pub name: N,
    pub hash: u64,
    pub owner: u64,
    pub is_mut: bool,
    pub is_member: bool,
}

/// A mutable reference. `is_mut` says whether the variable that holds it can be assigned to.
#[derive(Debug)]
pub struct MutRef<N = String> {
    pub name: N,
    pub hash: u64,
    pub is_mut: bool,
}

/// A shared reference. `is_mut` says whether the variable that holds it can be assigned to.
#[derive(Debug)]
pub struct StaticRef<N = String> {
    pub name: N,
    pub hash: u64,
    pub is_mut: bool,
}

/// A function.
#[derive(Debug)]
pub struct Function<N = String> {
    pub name: N,
    pub hash: u64,
}

/// A resource access point (RAP): a name through which a resource is reached.
#[derive(Debug)]
pub enum ResourceAccessPoint<N = String> {
    Owner(Owner<N>),
    Struct(Struct<N>),
    MutRef(MutRef<N>),
    StaticRef(StaticRef<N>),
    Function(Function<N>),
}

/// One end of an event: an access point, what an access point refers to, or no access point at
/// all.
#[derive(Debug)]
pub enum ResourceTy<N = String> {
    Anonymous,
    Caller,
    Value(ResourceAccessPoint<N>),
    Deref(ResourceAccessPoint<N>),
}

/// Something that happens to a resource.
#[derive(Debug)]
pub enum ExternalEvent<N = String> {
    Bind { from: ResourceTy<N>, to: ResourceTy<N>, id: usize },
    Copy { from: ResourceTy<N>, to: ResourceTy<N>, id: usize, is_partial: bool },
    Move { from: ResourceTy<N>, to: ResourceTy<N>, id: usize, is_partial: bool },
    StaticBorrow { from: ResourceTy<N>, to: ResourceTy<N>, id: usize, is_partial: bool },
    MutableBorrow { from: ResourceTy<N>, to: ResourceTy<N>, id: usize, is_partial: bool },
    StaticDie { from: ResourceTy<N>, to: ResourceTy<N>, id: usize },
    MutableDie { from: ResourceTy<N>, to: ResourceTy<N>, id: usize },
    RefDie { from: ResourceTy<N>, to: ResourceTy<N>, num_curr_borrowers: usize, id: usize },
    PassByStaticReference { from: ResourceTy<N>, to: ResourceTy<N>, id: usize },
    PassByMutableReference { from: ResourceTy<N>, to: ResourceTy<N>, id: usize },
    GoOutOfScope { ro: ResourceAccessPoint<N>, id: usize },
}

impl<N> ResourceAccessPoint<N> {
    /// The name of the access point.
    pub open spec fn spec_name(self) -> N {
        match self {
            ResourceAccessPoint::Owner(x) => x.name,
            ResourceAccessPoint::Struct(x) => x.name,
            ResourceAccessPoint::MutRef(x) => x.name,
            ResourceAccessPoint::StaticRef(x) => x.name,
            ResourceAccessPoint::Function(x) => x.name,
        }
    }

    /// The number by which the access point is told apart.
    pub open spec fn spec_hash(self) -> u64 {
        match self {
            ResourceAccessPoint::Owner(x) => x.hash,
            ResourceAccessPoint::Struct(x) => x.hash,
            ResourceAccessPoint::MutRef(x) => x.hash,
            ResourceAccessPoint::StaticRef(x) => x.hash,
            ResourceAccessPoint::Function(x) => x.hash,
        }
    }

    pub open spec fn spec_is_ref(self) -> bool {
        self is MutRef || self is StaticRef
    }
}

impl View for ResourceAccessPoint {
    type V = ResourceAccessPoint<Name>;

    open spec fn view(&self) -> ResourceAccessPoint<Name> {
        match *self {
            ResourceAccessPoint::Owner(x) => ResourceAccessPoint::Owner(
                Owner { name: x.name@, hash: x.hash, is_mut: x.is_mut },
            ),
            ResourceAccessPoint::Struct(x) => ResourceAccessPoint::Struct(
                Struct {
                    name: x.name@,
                    hash: x.hash,
                    owner: x.owner,
                    is_mut: x.is_mut,
                    is_member: x.is_member,
                },
            ),
            ResourceAccessPoint::MutRef(x) => ResourceAccessPoint::MutRef(
                MutRef { name: x.name@, hash: x.hash, is_mut: x.is_mut },
            ),
            ResourceAccessPoint::StaticRef(x) => ResourceAccessPoint::StaticRef(
                StaticRef { name: x.name@, hash: x.hash, is_mut: x.is_mut },
            ),
            ResourceAccessPoint::Function(x) => ResourceAccessPoint::Function(
                Function { name: x.name@, hash: x.hash },
            ),
        }
    }
}

impl Clone for ResourceAccessPoint {
    fn clone(&self) -> (result: Self)
        ensures
            result == *self,
    {
        match self {
            ResourceAccessPoint::Owner(x) => ResourceAccessPoint::Owner(
                Owner { name: x.name.clone(), hash: x.hash, is_mut: x.is_mut },
            ),
            ResourceAccessPoint::Struct(x) => ResourceAccessPoint::Struct(
                Struct {
                    name: x.name.clone(),
                    hash: x.hash,
                    owner: x.owner,
                    is_mut: x.is_mut,
                    is_member: x.is_member,
                },
            ),
            ResourceAccessPoint::MutRef(x) => ResourceAccessPoint::MutRef(
                MutRef { name: x.name.clone(), hash: x.hash, is_mut: x.is_mut },
            ),
            ResourceAccessPoint::StaticRef(x) => ResourceAccessPoint::StaticRef(
                StaticRef { name: x.name.clone(), hash: x.hash, is_mut: x.is_mut },
            ),
            ResourceAccessPoint::Function(x) => ResourceAccessPoint::Function(
                Function { name: x.name.clone(), hash: x.hash },
            ),
        }
    }
}

impl PartialEq for ResourceAccessPoint {
    fn eq(&self, other: &Self) -> (result: bool) {
        match (self, other) {
            (ResourceAccessPoint::Owner(x), ResourceAccessPoint::Owner(y)) => x.name == y.name
                && x.hash == y.hash && x.is_mut == y.is_mut,
            (ResourceAccessPoint::Struct(x), ResourceAccessPoint::Struct(y)) => x.name == y.name
                && x.hash == y.hash && x.owner == y.owner && x.is_mut == y.is_mut && x.is_member
                == y.is_member,
            (ResourceAccessPoint::MutRef(x), ResourceAccessPoint::MutRef(y)) => x.name == y.name
                && x.hash == y.hash && x.is_mut == y.is_mut,
            (ResourceAccessPoint::StaticRef(x), ResourceAccessPoint::StaticRef(y)) => x.name
                == y.name && x.hash == y.hash && x.is_mut == y.is_mut,
            (ResourceAccessPoint::Function(x), ResourceAccessPoint::Function(y)) => x.name == y.name
                && x.hash == y.hash,
            _ => false,
        }
    }
}

impl vstd::std_specs::cmp::PartialEqSpecImpl for ResourceAccessPoint {
    open spec fn obeys_eq_spec() -> bool {
        true
    }

    open spec fn eq_spec(&self, other: &Self) -> bool {
        self@ == other@
    }
}

impl ResourceAccessPoint {
    pub fn name(&self) -> (result: &String)
        ensures
            *result == self.spec_name(),
            result@ == self@.spec_name(),
    {
        match self {
            ResourceAccessPoint::Owner(x) => &x.name,
            ResourceAccessPoint::Struct(x) => &x.name,
            ResourceAccessPoint::MutRef(x) => &x.name,
            ResourceAccessPoint::StaticRef(x) => &x.name,
            ResourceAccessPoint::Function(x) => &x.name,
        }
    }

    pub fn is_ref(&self) -> (result: bool)
        ensures
            result == self@.spec_is_ref(),
    {
        match self {
            ResourceAccessPoint::MutRef(_) | ResourceAccessPoint::StaticRef(_) => true,
            _ => false,
        }
    }

    pub fn is_fn(&self) -> (result: bool)
        ensures
            result == (self@ is Function),
    {
        match self {
            ResourceAccessPoint::Function(_) => true,
            _ => false,
        }
    }
}

impl<N> ResourceTy<N> {
    /// The access point that this end of an event is reached through, if there is one.
    pub open spec fn spec_rap(self) -> Option<ResourceAccessPoint<N>> {
        match self {
            ResourceTy::Value(r) => Some(r),
            ResourceTy::Deref(r) => Some(r),
            _ => None,
        }
    }

    /// The end is a function itself.
    pub open spec fn is_fn_value(self) -> bool {
        self matches ResourceTy::Value(r) && r is Function
    }
}

impl View for ResourceTy {
    type V = ResourceTy<Name>;

    open spec fn view(&self) -> ResourceTy<Name> {
        match *self {
            ResourceTy::Anonymous => ResourceTy::Anonymous,
            ResourceTy::Caller => ResourceTy::Caller,
            ResourceTy::Value(r) => ResourceTy::Value(r@),
            ResourceTy::Deref(r) => ResourceTy::Deref(r@),
        }
    }
}

impl Clone for ResourceTy {
    fn clone(&self) -> (result: Self)
        ensures
            result == *self,
    {
        match self {
            ResourceTy::Anonymous => ResourceTy::Anonymous,
            ResourceTy::Caller => ResourceTy::Caller,
            ResourceTy::Value(r) => ResourceTy::Value(r.clone()),
            ResourceTy::Deref(r) => ResourceTy::Deref(r.clone()),
        }
    }
}

impl PartialEq for ResourceTy {
    fn eq(&self, other: &Self) -> (result: bool) {
        match (self, other) {
            (ResourceTy::Anonymous, ResourceTy::Anonymous) => true,
            (ResourceTy::Caller, ResourceTy::Caller) => true,
            (ResourceTy::Value(x), ResourceTy::Value(y)) => *x == *y,
            (ResourceTy::Deref(x), ResourceTy::Deref(y)) => *x == *y,
            _ => false,
        }
    }
}

impl vstd::std_specs::cmp::PartialEqSpecImpl for ResourceTy {
    open spec fn obeys_eq_spec() -> bool {
        true
    }

    open spec fn eq_spec(&self, other: &Self) -> bool {
        self@ == other@
    }
}

impl ResourceTy {
    /// The access point that this end of an event is reached through, if there is one.
    pub fn rap(&self) -> (result: Option<&ResourceAccessPoint>)
        ensures
            match result {
                Some(r) => self@.spec_rap() == Some(r@),
                None => self@.spec_rap() is None,
            },
    {
        match self {
            ResourceTy::Value(r) => Some(r),
            ResourceTy::Deref(r) => Some(r),
            _ => None,
        }
    }

    /// The name of the access point that this end of an event is reached through.
    pub fn name(&self) -> (result: &String)
        requires
            self@.spec_rap() is Some,
        ensures
            result@ == self@.spec_rap()->0.spec_name(),
    {
        match self {
            ResourceTy::Value(r) | ResourceTy::Deref(r) => r.name(),
            _ => {
                proof {
                    assert(false);
                }
                vstd::pervasive::unreached()
            },
        }
    }
}

impl<N> ExternalEvent<N> {
    /// The ends of the event: where the resource comes from and where it goes. That an access
    /// point which goes out of scope takes part in no exchange, so that neither end is one, is an
    /// assumption about the front end, which is not part of this crate.
    pub open spec fn ends(self) -> (ResourceTy<N>, ResourceTy<N>) {
        match self {
            ExternalEvent::Bind { from, to, .. } => (from, to),
            ExternalEvent::Copy { from, to, .. } => (from, to),
            ExternalEvent::Move { from, to, .. } => (from, to),
            ExternalEvent::StaticBorrow { from, to, .. } => (from, to),
            ExternalEvent::MutableBorrow { from, to, .. } => (from, to),
            ExternalEvent::StaticDie { from, to, .. } => (from, to),
            ExternalEvent::MutableDie { from, to, .. } => (from, to),
            ExternalEvent::RefDie { from, to, .. } => (from, to),
            ExternalEvent::PassByStaticReference { from, to, .. } => (from, to),
            ExternalEvent::PassByMutableReference { from, to, .. } => (from, to),
            ExternalEvent::GoOutOfScope { .. } => (ResourceTy::Anonymous, ResourceTy::Anonymous),
        }
    }

    /// The number of the event.
    pub open spec fn spec_id(self) -> usize {
        match self {
            ExternalEvent::Bind { id, .. } => id,
            ExternalEvent::Copy { id, .. } => id,
            ExternalEvent::Move { id, .. } => id,
            ExternalEvent::StaticBorrow { id, .. } => id,
            ExternalEvent::MutableBorrow { id, .. } => id,
            ExternalEvent::StaticDie { id, .. } => id,
            ExternalEvent::MutableDie { id, .. } => id,
            ExternalEvent::RefDie { id, .. } => id,
            ExternalEvent::PassByStaticReference { id, .. } => id,
            ExternalEvent::PassByMutableReference { id, .. } => id,
            ExternalEvent::GoOutOfScope { id, .. } => id,
        }
    }

    /// The event concerns a part of the resource only.
    pub open spec fn spec_is_partial(self) -> bool {
        match self {
            ExternalEvent::Copy { is_partial, .. } => is_partial,
            ExternalEvent::Move { is_partial, .. } => is_partial,
            ExternalEvent::StaticBorrow { is_partial, .. } => is_partial,
            ExternalEvent::MutableBorrow { is_partial, .. } => is_partial,
            _ => false,
        }
    }

    /// The event is drawn as an arrow between two timelines: both of its ends are reached through
    /// an access point, and neither end is a function.
    pub open spec fn draws_arrow(self) -> bool {
        let (from, to) = self.ends();
        &&& from.spec_rap() is Some
        &&& to.spec_rap() is Some
        &&& !from.is_fn_value()
        &&& !to.is_fn_value()
    }

    /// The event says that `rap` goes out of scope.
    pub open spec fn ends_scope_of(self, rap: ResourceAccessPoint<N>) -> bool {
        self matches ExternalEvent::GoOutOfScope { ro, .. } && ro == rap
    }
}

impl View for ExternalEvent {
    type V = ExternalEvent<Name>;

    open spec fn view(&self) -> ExternalEvent<Name> {
        match *self {
            ExternalEvent::Bind { from, to, id } => ExternalEvent::Bind { from: from@, to: to@, id },
            ExternalEvent::Copy { from, to, id, is_partial } => ExternalEvent::Copy {
                from: from@,
                to: to@,
                id,
                is_partial,
            },
            ExternalEvent::Move { from, to, id, is_partial } => ExternalEvent::Move {
                from: from@,
                to: to@,
                id,
                is_partial,
            },
            ExternalEvent::StaticBorrow { from, to, id, is_partial } => ExternalEvent::StaticBorrow {
                from: from@,
                to: to@,
                id,
                is_partial,
            },
            ExternalEvent::MutableBorrow { from, to, id, is_partial } =>
            ExternalEvent::MutableBorrow { from: from@, to: to@, id, is_partial },
            ExternalEvent::StaticDie { from, to, id } => ExternalEvent::StaticDie {
                from: from@,
                to: to@,
                id,
            },
            ExternalEvent::MutableDie { from, to, id } => ExternalEvent::MutableDie {
                from: from@,
                to: to@,
                id,
            },
            ExternalEvent::RefDie { from, to, num_curr_borrowers, id } => ExternalEvent::RefDie {
                from: from@,
                to: to@,
                num_curr_borrowers,
                id,
            },
            ExternalEvent::PassByStaticReference { from, to, id } =>
            ExternalEvent::PassByStaticReference { from: from@, to: to@, id },
            ExternalEvent::PassByMutableReference { from, to, id } =>
            ExternalEvent::PassByMutableReference { from: from@, to: to@, id },
            ExternalEvent::GoOutOfScope { ro, id } => ExternalEvent::GoOutOfScope { ro: ro@, id },
        }
    }
}

impl Clone for ExternalEvent {
    fn clone(&self) -> (result: Self)
        ensures
            result == *self,
    {
        match self {
            ExternalEvent::Bind { from, to, id } => ExternalEvent::Bind {
                from: from.clone(),
                to: to.clone(),
                id: *id,
            },
            ExternalEvent::Copy { from, to, id, is_partial } => ExternalEvent::Copy {
                from: from.clone(),
                to: to.clone(),
                id: *id,
                is_partial: *is_partial,
            },
            ExternalEvent::Move { from, to, id, is_partial } => ExternalEvent::Move {
                from: from.clone(),
                to: to.clone(),
                id: *id,
                is_partial: *is_partial,
            },
            ExternalEvent::StaticBorrow { from, to, id, is_partial } => ExternalEvent::StaticBorrow {
                from: from.clone(),
                to: to.clone(),
                id: *id,
                is_partial: *is_partial,
            },
            ExternalEvent::MutableBorrow { from, to, id, is_partial } =>
            ExternalEvent::MutableBorrow {
                from: from.clone(),
                to: to.clone(),
                id: *id,
                is_partial: *is_partial,
            },
            ExternalEvent::StaticDie { from, to, id } => ExternalEvent::StaticDie {
                from: from.clone(),
                to: to.clone(),
                id: *id,
            },
            ExternalEvent::MutableDie { from, to, id } => ExternalEvent::MutableDie {
                from: from.clone(),
                to: to.clone(),
                id: *id,
            },
            ExternalEvent::RefDie { from, to, num_curr_borrowers, id } => ExternalEvent::RefDie {
                from: from.clone(),
                to: to.clone(),
                num_curr_borrowers: *num_curr_borrowers,
                id: *id,
            },
            ExternalEvent::PassByStaticReference { from, to, id } =>
            ExternalEvent::PassByStaticReference { from: from.clone(), to: to.clone(), id: *id },
            ExternalEvent::PassByMutableReference { from, to, id } =>
            ExternalEvent::PassByMutableReference { from: from.clone(), to: to.clone(), id: *id },
            ExternalEvent::GoOutOfScope { ro, id } => ExternalEvent::GoOutOfScope {
                ro: ro.clone(),
                id: *id,
            },
        }
    }
}

impl ExternalEvent {
    /// The ends of the event, under the assumption that [`ExternalEvent::ends`] makes about the end
    /// of a scope.
    pub fn resource_access_point_extract(&self) -> (result: (ResourceTy, ResourceTy))
        ensures
            (result.0@, result.1@) == self@.ends(),
    {
        match self {
            ExternalEvent::Bind { from, to, .. }
            | ExternalEvent::Copy { from, to, .. }
            | ExternalEvent::Move { from, to, .. }
            | ExternalEvent::StaticBorrow { from, to, .. }
            | ExternalEvent::MutableBorrow { from, to, .. }
            | ExternalEvent::StaticDie { from, to, .. }
            | ExternalEvent::MutableDie { from, to, .. }
            | ExternalEvent::RefDie { from, to, .. }
            | ExternalEvent::PassByStaticReference { from, to, .. }
            | ExternalEvent::PassByMutableReference { from, to, .. } => (from.clone(), to.clone()),
            ExternalEvent::GoOutOfScope { .. } => (ResourceTy::Anonymous, ResourceTy::Anonymous),
        }
    }

    /// The access point that goes out of scope, if that is what the event says.
    pub fn is_gos_ev(&self) -> (result: Option<&ResourceAccessPoint>)
        ensures
            match result {
                Some(r) => self@ matches ExternalEvent::GoOutOfScope { ro, .. } && ro == r@,
                None => !(self@ is GoOutOfScope),
            },
    {
        match self {
            ExternalEvent::GoOutOfScope { ro, .. } => Some(ro),
            _ => None,
        }
    }
}

} // verus!
