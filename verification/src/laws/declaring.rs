//! What is known of a variable once it has been declared.

use crate::aliases::{can_splice, splice_all, spliced};
use crate::data::{MutRef, Name, Owner, ResourceAccessPoint, ResourceTy, StaticRef, Struct};
use crate::declare::{
    lemma_add_fields_grows, lemma_add_rap_grows, lemma_add_struct_and_fields_grows,
    lemma_bind_grows, only_grows, pat_bindings, pats_bindings,
};
use crate::hir::{dotted, spec_bool_of_mut, AdtKind, Binding, Expr, Pat, Ty, TyKind};
use crate::state::State;
use vstd::prelude::*;

verus! {

/// A type whose variables are not recorded.
pub open spec fn is_unrecorded(ty: Ty) -> bool {
    match ty.kind {
        TyKind::Fn { .. } => true,
        TyKind::Adt { kind, .. } => kind == AdtKind::Union && !ty.is_special_owner,
        _ => false,
    }
}

/// Declaring a variable leaves the access points that are there as they are, and afterwards the
/// variable has one, unless it is of a type that is not recorded.
pub proof fn law_declared_variable_is_known(
    s: State,
    name: Name,
    is_mut: bool,
    expr: Expr,
    ty: Ty,
    scope: usize,
    is_global: bool,
)
    ensures
        only_grows(s, s.define_lhs(name, is_mut, expr, ty, scope, is_global)),
        !is_unrecorded(ty) ==> s.define_lhs(
            name,
            is_mut,
            expr,
            ty,
            scope,
            is_global,
        ).raps.contains_key(name),
        is_unrecorded(ty) ==> s.define_lhs(name, is_mut, expr, ty, scope, is_global) == s,
{
    let hash = s.hashes as u64;
    lemma_add_rap_grows(
        s,
        ResourceAccessPoint::MutRef(MutRef { name, hash, is_mut }),
        scope,
        is_global,
    );
    lemma_add_rap_grows(
        s,
        ResourceAccessPoint::StaticRef(StaticRef { name, hash, is_mut }),
        scope,
        is_global,
    );
    lemma_add_rap_grows(
        s,
        ResourceAccessPoint::Owner(Owner { name, hash, is_mut }),
        scope,
        is_global,
    );
    assert(s.rap_names =~= s.rap_names.subrange(0, s.rap_names.len() as int));
    if let TyKind::Adt { kind, fields } = ty.kind {
        lemma_add_struct_and_fields_grows(s, name, fields@, is_mut, scope, is_global);
    }
}

proof fn lemma_fields_known(
    s: State,
    name: Name,
    owner: u64,
    fields: Seq<String>,
    is_mut: bool,
    scope: usize,
    is_global: bool,
)
    ensures
        ({
            let t = s.add_fields(name, owner, fields, is_mut, scope, is_global);
            forall|i: int| #![trigger fields[i]]
                0 <= i < fields.len() ==> {
                    &&& t.raps.contains_key(dotted(name, fields[i]@))
                    &&& !s.raps.contains_key(dotted(name, fields[i]@)) ==> (t.raps[dotted(
                        name,
                        fields[i]@,
                    )].rap matches ResourceAccessPoint::Struct(m) && m.owner == owner
                        && m.is_member)
                }
        }),
    decreases fields.len(),
{
    if fields.len() > 0 {
        let rest = fields.drop_last();
        lemma_fields_known(s, name, owner, rest, is_mut, scope, is_global);
        let u = s.add_fields(name, owner, rest, is_mut, scope, is_global);
        let t = s.add_fields(name, owner, fields, is_mut, scope, is_global);
        let last = dotted(name, fields.last()@);
        let member = ResourceAccessPoint::Struct(
            Struct { name: last, hash: u.hashes as u64, owner, is_mut, is_member: true },
        );
        lemma_add_rap_grows(u, member, scope, is_global);
        lemma_new_fields(s, name, owner, rest, is_mut, scope, is_global);
        assert forall|i: int| #![trigger fields[i]] 0 <= i < fields.len() implies {
            &&& t.raps.contains_key(dotted(name, fields[i]@))
            &&& !s.raps.contains_key(dotted(name, fields[i]@)) ==> (t.raps[dotted(
                name,
                fields[i]@,
            )].rap matches ResourceAccessPoint::Struct(m) && m.owner == owner && m.is_member)
        } by {
            if i < rest.len() {
                assert(rest[i] == fields[i]);
                assert(u.raps.contains_key(dotted(name, rest[i]@)));
            }
        }
    }
}

/// What adding fields adds are fields.
proof fn lemma_new_fields(
    s: State,
    name: Name,
    owner: u64,
    fields: Seq<String>,
    is_mut: bool,
    scope: usize,
    is_global: bool,
)
    ensures
        ({
            let t = s.add_fields(name, owner, fields, is_mut, scope, is_global);
            forall|k: Name| #[trigger]
                t.raps.contains_key(k) && !s.raps.contains_key(k) ==> {
                    &&& (t.raps[k].rap matches ResourceAccessPoint::Struct(m) && m.owner == owner
                        && m.is_member)
                    &&& t.raps[k].scope == scope
                    &&& t.raps[k].is_global == is_global
                }
        }),
    decreases fields.len(),
{
    if fields.len() > 0 {
        lemma_new_fields(s, name, owner, fields.drop_last(), is_mut, scope, is_global);
    }
}

/// Once a struct has been declared, its fields have access points too, so that they can be
/// assigned to one by one. Where neither it nor they were there before, the fields carry the
/// struct's number.
pub proof fn law_fields_belong_to_struct(
    s: State,
    name: Name,
    fields: Seq<String>,
    is_mut: bool,
    scope: usize,
    is_global: bool,
)
    ensures
        ({
            let t = s.add_struct_and_fields(name, fields, is_mut, scope, is_global);
            &&& forall|i: int|
                0 <= i < fields.len() ==> t.raps.contains_key(dotted(name, #[trigger] fields[i]@))
            &&& !s.raps.contains_key(name) ==> (
            t.raps[name].rap matches ResourceAccessPoint::Struct(whole) && whole.hash
                == s.hashes as u64 && !whole.is_member)
            &&& forall|i: int| #![trigger fields[i]]
                0 <= i < fields.len() && !s.raps.contains_key(dotted(name, fields[i]@)) ==> (
                t.raps[dotted(name, fields[i]@)].rap matches ResourceAccessPoint::Struct(m)
                    && m.owner == s.hashes as u64 && m.is_member)
        }),
{
    let owner = s.hashes as u64;
    let whole = ResourceAccessPoint::Struct(
        Struct { name, hash: owner, owner, is_mut, is_member: false },
    );
    let u = s.add_rap(whole, scope, is_global);
    lemma_fields_known(u, name, owner, fields, is_mut, scope, is_global);
    lemma_add_fields_grows(u, name, owner, fields, is_mut, scope, is_global);
    let t = s.add_struct_and_fields(name, fields, is_mut, scope, is_global);
    assert forall|i: int| #![trigger fields[i]]
        0 <= i < fields.len() && !s.raps.contains_key(dotted(name, fields[i]@)) implies (t.raps[dotted(
        name,
        fields[i]@,
    )].rap matches ResourceAccessPoint::Struct(m) && m.owner == s.hashes as u64 && m.is_member) by {
        assert(dotted(name, fields[i]@).len() > name.len());
        assert(!u.raps.contains_key(dotted(name, fields[i]@)));
    }
    assert(u.raps.contains_key(name));
}

/// Everything that declaring a variable adds belongs to the scope that it is declared in, and to
/// a branch exactly if the declaration stands in one.
pub proof fn law_declared_in_its_scope(
    s: State,
    name: Name,
    is_mut: bool,
    expr: Expr,
    ty: Ty,
    scope: usize,
    is_global: bool,
    other: Name,
)
    requires
        !s.raps.contains_key(other),
        s.define_lhs(name, is_mut, expr, ty, scope, is_global).raps.contains_key(other),
    ensures
        s.define_lhs(name, is_mut, expr, ty, scope, is_global).raps[other].scope == scope,
        s.define_lhs(name, is_mut, expr, ty, scope, is_global).raps[other].is_global == is_global,
{
    if let TyKind::Adt { kind, fields } = ty.kind {
        if kind == AdtKind::Struct && !ty.is_special_owner {
            lemma_struct_scope(s, name, fields@, is_mut, scope, is_global);
        }
    }
}

proof fn lemma_struct_scope(
    s: State,
    name: Name,
    fields: Seq<String>,
    is_mut: bool,
    scope: usize,
    is_global: bool,
)
    ensures
        ({
            let t = s.add_struct_and_fields(name, fields, is_mut, scope, is_global);
            forall|k: Name| #[trigger]
                t.raps.contains_key(k) && !s.raps.contains_key(k) ==> t.raps[k].scope == scope
                    && t.raps[k].is_global == is_global
        }),
{
    let owner = s.hashes as u64;
    let u = s.add_struct(name, owner, false, is_mut, scope, is_global);
    lemma_add_fields_grows(u, name, owner, fields, is_mut, scope, is_global);
    lemma_new_fields(u, name, owner, fields, is_mut, scope, is_global);
    let t = s.add_struct_and_fields(name, fields, is_mut, scope, is_global);
    assert forall|k: Name| #[trigger]
        t.raps.contains_key(k) && !s.raps.contains_key(k) implies t.raps[k].scope == scope
        && t.raps[k].is_global == is_global by {
        if u.raps.contains_key(k) {
            assert(k == name);
        }
    }
}

/// Variables that a pattern binds belong to its branch: none of them gets an event for the end of
/// its scope when the function ends.
pub proof fn law_bound_variables_stay_in_branch(
    s: State,
    bindings: Seq<Binding>,
    parent: ResourceTy<Name>,
    scope: usize,
    name: Name,
)
    requires
        !s.raps.contains_key(name),
        s.bind_all(bindings, parent, scope).raps.contains_key(name),
    ensures
        s.bind_all(bindings, parent, scope).raps[name].scope == scope,
        !s.bind_all(bindings, parent, scope).raps[name].is_global,
        !s.bind_all(bindings, parent, scope).leaves(name),
    decreases bindings.len(),
{
    if bindings.len() > 0 {
        let rest = bindings.drop_last();
        let b = bindings.last();
        let t = s.bind_all(rest, parent, scope);
        lemma_bind_grows(t, b, parent, scope);
        if t.raps.contains_key(name) {
            law_bound_variables_stay_in_branch(s, rest, parent, scope, name);
        } else {
            if let TyKind::Adt { kind: AdtKind::Struct, fields } = b.ty.kind {
                lemma_struct_scope(
                    t,
                    b.name@,
                    fields@,
                    spec_bool_of_mut(b.mutability),
                    scope,
                    false,
                );
            }
        }
    }
}

/// A pattern lists its variables from left to right, each with the access point that it has once
/// all of them are bound.
pub proof fn law_bound_lists_variables(
    s: State,
    bindings: Seq<Binding>,
    parent: ResourceTy<Name>,
    parent_ty: Ty,
    scope: usize,
)
    ensures
        s.bound(bindings, parent, parent_ty, scope).len() == bindings.len(),
        forall|i: int| #![trigger bindings[i]]
            0 <= i < bindings.len() ==> {
                let t = s.bind_all(bindings, parent, scope);
                &&& t.raps.contains_key(bindings[i].name@)
                &&& s.bound(bindings, parent, parent_ty, scope)[i].0
                    == t.raps[bindings[i].name@].rap
            },
    decreases bindings.len(),
{
    if bindings.len() > 0 {
        let rest = bindings.drop_last();
        law_bound_lists_variables(s, rest, parent, parent_ty, scope);
        let u = s.bind_all(rest, parent, scope);
        let t = s.bind_all(bindings, parent, scope);
        lemma_bind_grows(u, bindings.last(), parent, scope);
        assert forall|i: int| #![trigger bindings[i]] 0 <= i < bindings.len() implies {
            &&& t.raps.contains_key(bindings[i].name@)
            &&& s.bound(bindings, parent, parent_ty, scope)[i].0 == t.raps[bindings[i].name@].rap
        } by {
            if i < rest.len() {
                assert(rest[i] == bindings[i]);
                assert(u.raps.contains_key(rest[i].name@));
            }
        }
    }
}

/// A function that is called more than once has one access point, which the first call adds.
pub proof fn law_function_is_added_once(
    s: State,
    arg: Expr,
    other: Expr,
    fn_name: Name,
    scope: usize,
    later: usize,
)
    ensures
        s.match_arg(arg, fn_name, scope).raps.contains_key(fn_name),
        s.match_arg(arg, fn_name, scope).match_arg(other, fn_name, later).raps == s.match_arg(
            arg,
            fn_name,
            scope,
        ).raps,
{
}

/// The names of `list` occur in `longer` in the same order, at the places `places`.
pub open spec fn embeds(list: Seq<Name>, longer: Seq<Name>, places: Seq<int>) -> bool {
    &&& places.len() == list.len()
    &&& forall|i: int|
        0 <= i < places.len() ==> 0 <= #[trigger] places[i] < longer.len() && longer[places[i]]
            == list[i]
    &&& forall|i: int, j: int| 0 <= i < j < places.len() ==> places[i] < places[j]
}

/// None of the places is one that a new name goes to.
pub open spec fn avoids(places: Seq<int>, new: Map<usize, String>, offset: usize) -> bool {
    forall|i: int, key: usize|
        0 <= i < places.len() && #[trigger] new.contains_key(key) ==> #[trigger] places[i] != key
            + offset
}

/// The names of `new` with a key below `bound`.
pub open spec fn below(new: Map<usize, String>, bound: nat) -> Map<usize, String> {
    new.restrict(Set::new(|key: usize| key < bound))
}

proof fn lemma_spliced(
    list: Seq<Name>,
    new: Map<usize, String>,
    offset: usize,
    bound: nat,
) -> (places: Seq<int>)
    requires
        bound <= usize::MAX + 1,
        new.dom().finite(),
        can_splice(list, new, offset),
    ensures
        embeds(list, spliced(list, new, offset, bound), places),
        avoids(places, below(new, bound), offset),
        below(new, bound).dom().finite(),
        spliced(list, new, offset, bound).len() == list.len() + below(new, bound).dom().len(),
        forall|key: usize| #[trigger]
            new.contains_key(key) && key < bound ==> {
                &&& key + offset < spliced(list, new, offset, bound).len()
                &&& spliced(list, new, offset, bound)[key + offset] == new[key]@
            },
    decreases bound,
{
    if bound == 0 {
        assert(below(new, 0).dom() =~= Set::empty());
        Seq::new(list.len(), |i: int| i)
    } else {
        let key = (bound - 1) as usize;
        let before = spliced(list, new, offset, (bound - 1) as nat);
        let places = lemma_spliced(list, new, offset, (bound - 1) as nat);
        let old_keys = below(new, (bound - 1) as nat);
        if new.contains_key(key) {
            assert(below(new, bound).dom() =~= old_keys.dom().insert(key));
            assert(!old_keys.dom().contains(key));
            let at = key + offset;
            let moved = Seq::new(
                places.len(),
                |i: int|
                    if places[i] < at {
                        places[i]
                    } else {
                        places[i] + 1
                    },
            );
            let after = before.insert(at, new[key]@);
            assert(at <= before.len());
            assert forall|i: int| 0 <= i < moved.len() implies 0 <= #[trigger] moved[i]
                < after.len() && after[moved[i]] == list[i] by {
                assert(before[places[i]] == list[i]);
            }
            assert forall|i: int, k: usize|
                0 <= i < moved.len() && #[trigger] below(new, bound).contains_key(
                    k,
                ) implies #[trigger] moved[i] != k + offset by {
                if k < key {
                    assert(old_keys.contains_key(k));
                    assert(places[i] != k + offset);
                }
            }
            assert forall|k: usize| #[trigger] new.contains_key(k) && k < bound implies {
                &&& k + offset < after.len()
                &&& after[k + offset] == new[k]@
            } by {
                if k < key {
                    assert(before[k + offset] == new[k]@);
                }
            }
            moved
        } else {
            assert(below(new, bound) =~= old_keys);
            places
        }
    }
}

/// Updating aliases puts each new name where its key and the offset say, and keeps the names that
/// were there, in their order and at other places. There is nothing else in the list.
pub proof fn law_new_aliases_are_in_place(
    list: Seq<Name>,
    new: Map<usize, String>,
    offset: usize,
)
    requires
        new.dom().finite(),
        can_splice(list, new, offset),
    ensures
        exists|places: Seq<int>|
            embeds(list, splice_all(list, new, offset), places) && avoids(places, new, offset),
        splice_all(list, new, offset).len() == list.len() + new.dom().len(),
        forall|key: usize| #[trigger]
            new.contains_key(key) ==> {
                &&& key + offset < splice_all(list, new, offset).len()
                &&& splice_all(list, new, offset)[key + offset] == new[key]@
            },
{
    let bound = (usize::MAX + 1) as nat;
    let places = lemma_spliced(list, new, offset, bound);
    assert(below(new, bound) =~= new);
    assert(embeds(list, splice_all(list, new, offset), places));
}

proof fn lemma_room_for_names(
    list: Seq<Name>,
    new: Map<usize, String>,
    offset: usize,
    bound: nat,
)
    requires
        bound <= usize::MAX + 1,
        new.dom().finite(),
        forall|key: usize| #[trigger]
            new.contains_key(key) && key < bound ==> key + offset <= list.len() + below(
                new,
                key as nat,
            ).dom().len() || key + offset <= spliced(list, new, offset, key as nat).len(),
    ensures
        below(new, bound).dom().finite(),
        spliced(list, new, offset, bound).len() == list.len() + below(new, bound).dom().len(),
    decreases bound,
{
    if bound == 0 {
        assert(below(new, 0).dom() =~= Set::empty());
    } else {
        let key = (bound - 1) as usize;
        lemma_room_for_names(list, new, offset, (bound - 1) as nat);
        let old_keys = below(new, (bound - 1) as nat);
        if new.contains_key(key) {
            assert(below(new, bound).dom() =~= old_keys.dom().insert(key));
            assert(!old_keys.dom().contains(key));
        } else {
            assert(below(new, bound) =~= old_keys);
        }
    }
}

/// New aliases can be put in exactly if each has a place: no further on than the end of the names
/// that are there and of the new ones with smaller keys.
pub proof fn law_new_aliases_need_their_places(
    list: Seq<Name>,
    new: Map<usize, String>,
    offset: usize,
)
    requires
        new.dom().finite(),
    ensures
        can_splice(list, new, offset) <==> forall|key: usize| #[trigger]
            new.contains_key(key) ==> key + offset <= list.len() + below(
                new,
                key as nat,
            ).dom().len(),
{
    if can_splice(list, new, offset) {
        assert forall|key: usize| #[trigger] new.contains_key(key) implies key + offset
            <= list.len() + below(new, key as nat).dom().len() by {
            lemma_room_for_names(list, new, offset, key as nat);
        }
    }
    if forall|key: usize| #[trigger]
        new.contains_key(key) ==> key + offset <= list.len() + below(new, key as nat).dom().len() {
        assert forall|key: usize| #[trigger] new.contains_key(key) implies key + offset <= spliced(
            list,
            new,
            offset,
            key as nat,
        ).len() by {
            lemma_room_for_names(list, new, offset, key as nat);
        }
    }
}

/// The pattern binds the variable, itself or in a part of it.
pub open spec fn binds(pat: Pat, b: Binding) -> bool
    decreases pat,
{
    match pat {
        Pat::TupleStruct(pats) => some_binds(pats@, b),
        Pat::Struct(pats) => some_binds(pats@, b),
        Pat::Tuple(pats) => some_binds(pats@, b),
        Pat::Slice(pats) => some_binds(pats@, b),
        Pat::Ref(inner) => binds(*inner, b),
        Pat::Or(pats) => pats@.len() > 0 && binds(pats@[0], b),
        Pat::Binding(x) => x == b || match x.sub {
            Some(p) => binds(*p, b),
            None => false,
        },
        Pat::Other => false,
    }
}

/// One of the patterns binds the variable.
pub open spec fn some_binds(pats: Seq<Pat>, b: Binding) -> bool
    decreases pats,
{
    pats.len() > 0 && (some_binds(pats.drop_last(), b) || binds(pats.last(), b))
}

/// A pattern lists the variables that it binds anywhere in it, and no others, so that each of them
/// gets an access point.
pub proof fn law_pattern_lists_its_variables(pat: Pat, b: Binding)
    ensures
        pat_bindings(pat).contains(b) <==> binds(pat, b),
    decreases pat,
{
    match pat {
        Pat::TupleStruct(pats) => lemma_patterns_list(pats@, b),
        Pat::Struct(pats) => lemma_patterns_list(pats@, b),
        Pat::Tuple(pats) => lemma_patterns_list(pats@, b),
        Pat::Slice(pats) => lemma_patterns_list(pats@, b),
        Pat::Ref(inner) => law_pattern_lists_its_variables(*inner, b),
        Pat::Or(pats) => {
            if pats@.len() > 0 {
                assert(decreases_to!(pat => pat->Or_0@[0]));
                law_pattern_lists_its_variables(pats@[0], b);
            }
        },
        Pat::Binding(x) => {
            assert(seq![x][0] == x);
            if let Some(p) = x.sub {
                law_pattern_lists_its_variables(*p, b);
                lemma_contains_add(seq![x], pat_bindings(*p), b);
            }
        },
        Pat::Other => {},
    }
}

proof fn lemma_patterns_list(pats: Seq<Pat>, b: Binding)
    ensures
        pats_bindings(pats).contains(b) <==> some_binds(pats, b),
    decreases pats,
{
    if pats.len() > 0 {
        lemma_patterns_list(pats.drop_last(), b);
        assert(decreases_to!(pats => pats[pats.len() - 1]));
        law_pattern_lists_its_variables(pats.last(), b);
        lemma_contains_add(pats_bindings(pats.drop_last()), pat_bindings(pats.last()), b);
    }
}

proof fn lemma_contains_add(a: Seq<Binding>, b: Seq<Binding>, x: Binding)
    ensures
        (a + b).contains(x) <==> a.contains(x) || b.contains(x),
{
    if a.contains(x) {
        assert((a + b)[a.index_of(x)] == x);
    }
    if b.contains(x) {
        assert((a + b)[a.len() + b.index_of(x)] == x);
    }
}

} // verus!
