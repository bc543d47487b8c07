//! Whether variables can be declared and bound, and return types looked at.

use crate::data::{Name, ResourceTy};
use crate::declare::{lemma_pats_prefix, no_union, pat_bindings, pats_bindings};
use crate::expr_visitor::ExprVisitor;
use crate::hir::{spec_bool_of_mut, AdtKind, Binding, Expr, GenericArg, Pat, Ty, TyKind};
use crate::state::State;
use vstd::prelude::*;

verus! {

/// The most access points that a variable of the type can bring.
pub open spec fn room(ty: Ty) -> nat {
    match ty.kind {
        TyKind::Adt { fields, .. } => 1 + fields@.len(),
        _ => 1,
    }
}

/// The most access points that the variables can bring.
pub open spec fn rooms(bindings: Seq<Binding>) -> nat
    decreases bindings.len(),
{
    if bindings.len() == 0 {
        0
    } else {
        rooms(bindings.drop_last()) + room(bindings.last().ty)
    }
}

proof fn lemma_rooms_add(a: Seq<Binding>, b: Seq<Binding>)
    ensures
        rooms(a + b) == rooms(a) + rooms(b),
        no_union(a + b) <==> no_union(a) && no_union(b),
    decreases b.len(),
{
    if no_union(a + b) {
        assert forall|i: int| 0 <= i < a.len() implies !(
        #[trigger] a[i].ty.kind matches TyKind::Adt { kind, .. } && kind == AdtKind::Union) by {
            assert((a + b)[i] == a[i]);
        }
        assert forall|i: int| 0 <= i < b.len() implies !(
        #[trigger] b[i].ty.kind matches TyKind::Adt { kind, .. } && kind == AdtKind::Union) by {
            assert((a + b)[a.len() + i] == b[i]);
        }
    }
    if b.len() == 0 {
        assert(a + b =~= a);
    } else {
        assert((a + b).drop_last() =~= a + b.drop_last());
        lemma_rooms_add(a, b.drop_last());
    }
}

proof fn lemma_fields_room(
    s: State,
    name: Name,
    owner: u64,
    fields: Seq<String>,
    is_mut: bool,
    scope: usize,
    is_global: bool,
)
    ensures
        s.add_fields(name, owner, fields, is_mut, scope, is_global).hashes <= s.hashes
            + fields.len(),
    decreases fields.len(),
{
    if fields.len() > 0 {
        lemma_fields_room(s, name, owner, fields.drop_last(), is_mut, scope, is_global);
    }
}

proof fn lemma_struct_room(
    s: State,
    name: Name,
    fields: Seq<String>,
    is_mut: bool,
    scope: usize,
    is_global: bool,
)
    ensures
        s.add_struct_and_fields(name, fields, is_mut, scope, is_global).hashes <= s.hashes + 1
            + fields.len(),
{
    let owner = s.hashes as u64;
    lemma_fields_room(
        s.add_struct(name, owner, false, is_mut, scope, is_global),
        name,
        owner,
        fields,
        is_mut,
        scope,
        is_global,
    );
}

proof fn lemma_rooms(s: State, bindings: Seq<Binding>, parent: ResourceTy<Name>, scope: usize)
    ensures
        s.bind_all(bindings, parent, scope).hashes <= s.hashes + rooms(bindings),
    decreases bindings.len(),
{
    if bindings.len() > 0 {
        let b = bindings.last();
        lemma_rooms(s, bindings.drop_last(), parent, scope);
        if let TyKind::Adt { kind: AdtKind::Struct, fields } = b.ty.kind {
            lemma_struct_room(
                s.bind_all(bindings.drop_last(), parent, scope),
                b.name@,
                fields@,
                spec_bool_of_mut(b.mutability),
                scope,
                false,
            );
        }
    }
}

fn room_of(ty: &Ty) -> (result: Option<usize>)
    ensures
        match result {
            Some(n) => n == room(*ty),
            None => room(*ty) > usize::MAX,
        },
{
    match &ty.kind {
        TyKind::Adt { fields, .. } => fields.len().checked_add(1),
        _ => Some(1),
    }
}

/// The most access points that a pattern can bring, if it binds no union and the number is no
/// larger than numbers go.
fn rooms_of(pat: &Pat) -> (result: Option<usize>)
    ensures
        match result {
            Some(n) => no_union(pat_bindings(*pat)) && n == rooms(pat_bindings(*pat)),
            None => !(no_union(pat_bindings(*pat)) && rooms(pat_bindings(*pat)) <= usize::MAX),
        },
    decreases *pat,
{
    match pat {
        Pat::TupleStruct(pats) => rooms_of_all(pats),
        Pat::Struct(pats) => rooms_of_all(pats),
        Pat::Tuple(pats) => rooms_of_all(pats),
        Pat::Slice(pats) => rooms_of_all(pats),
        Pat::Ref(inner) => rooms_of(inner),
        Pat::Or(pats) => {
            if pats.len() > 0 {
                assert(decreases_to!(*pat => pat->Or_0@[0]));
                rooms_of(&pats[0])
            } else {
                Some(0)
            }
        },
        Pat::Binding(b) => {
            proof {
                assert(seq![*b].drop_last() =~= Seq::<Binding>::empty());
                assert(rooms(Seq::<Binding>::empty()) == 0);
                assert(rooms(seq![*b]) == room(b.ty));
                assert(seq![*b][0] == *b);
                if let Some(p) = &b.sub {
                    lemma_rooms_add(seq![*b], pat_bindings(**p));
                }
            }
            if let TyKind::Adt { kind: AdtKind::Union, .. } = b.ty.kind {
                assert(!no_union(seq![*b]));
                return None;
            }
            match &b.sub {
                Some(p) => match (room_of(&b.ty), rooms_of(p)) {
                    (Some(m), Some(n)) => m.checked_add(n),
                    _ => None,
                },
                None => room_of(&b.ty),
            }
        },
        Pat::Other => Some(0),
    }
}

fn rooms_of_all(pats: &Vec<Pat>) -> (result: Option<usize>)
    ensures
        match result {
            Some(n) => no_union(pats_bindings(pats@)) && n == rooms(pats_bindings(pats@)),
            None => !(no_union(pats_bindings(pats@)) && rooms(pats_bindings(pats@)) <= usize::MAX),
        },
    decreases pats@,
{
    let ghost all = pats_bindings(pats@);
    let mut n: usize = 0;
    let mut i: usize = 0;
    assert(pats@.take(0) =~= Seq::<Pat>::empty());
    while i < pats.len()
        invariant
            i <= pats@.len(),
            all == pats_bindings(pats@),
            no_union(pats_bindings(pats@.take(i as int))),
            n == rooms(pats_bindings(pats@.take(i as int))),
        decreases pats@.len() - i,
    {
        proof {
            let done = pats_bindings(pats@.take(i as int));
            let upto = pats_bindings(pats@.take(i + 1));
            assert(pats@.take(i + 1).drop_last() =~= pats@.take(i as int));
            assert(pats@.take(i + 1).last() == pats@[i as int]);
            lemma_rooms_add(done, pat_bindings(pats@[i as int]));
            lemma_pats_prefix(pats@, i + 1);
            assert(all =~= upto + all.skip(upto.len() as int));
            lemma_rooms_add(upto, all.skip(upto.len() as int));
            assert(decreases_to!(pats@ => pats@[i as int]));
        }
        n = match rooms_of(&pats[i]) {
            Some(more) => match n.checked_add(more) {
                Some(sum) => sum,
                None => {
                    return None;
                },
            },
            None => {
                return None;
            },
        };
        i += 1;
    }
    assert(pats@.take(i as int) =~= pats@);
    Some(n)
}

impl<'a> ExprVisitor<'a> {
    /// The function's return type can be asked for its references.
    pub fn can_is_return_type_copyable(&self, fn_expr: &Expr) -> (result: bool)
        ensures
            result == (fn_expr.ty.kind is Fn && fn_expr.ty.kind->output.parts_are_types()),
    {
        match &fn_expr.ty.kind {
            TyKind::Fn { output } => {
                if output.is_ref() {
                    return true;
                }
                let mut i: usize = 0;
                while i < output.parts.len()
                    invariant
                        i <= output.parts@.len(),
                        fn_expr.ty.kind == (TyKind::Fn { output: *output }),
                        !output.spec_is_ref(),
                        forall|j: int|
                            0 <= j < i ==> #[trigger] output.parts@[j] == (GenericArg::Type {
                                is_ref: false,
                            }),
                    decreases output.parts@.len() - i,
                {
                    match output.parts[i] {
                        GenericArg::Type { is_ref: true } => {
                            assert(output.parts@[i as int] == (GenericArg::Type { is_ref: true }));
                            assert(output.parts_are_types());
                            return true;
                        },
                        GenericArg::Type { is_ref: false } => {},
                        _ => {
                            assert(!(output.parts@[i as int] is Type));
                            return false;
                        },
                    }
                    i += 1;
                }
                true
            },
            _ => false,
        }
    }

    /// There is room for the access points of a variable of type `ty` with the value `expr`, even
    /// if all of their names are new, and it is known what the value refers to.
    pub fn can_define_lhs(&self, expr: &Expr, ty: &Ty) -> (result: bool)
        ensures
            result == ((ty.spec_is_ref() && expr.spec_is_addr() ==> expr.ty.deref_is_ref is Some)
                && self@.hashes + room(*ty) <= usize::MAX),
            result ==> forall|name: Name, is_mut: bool, scope: usize, is_global: bool| #[trigger]
                self@.define_lhs(name, is_mut, *expr, *ty, scope, is_global).hashes <= usize::MAX,
    {
        proof {
            assert forall|name: Name, is_mut: bool, scope: usize, is_global: bool| #[trigger]
                self@.define_lhs(name, is_mut, *expr, *ty, scope, is_global).hashes <= self@.hashes
                    + room(*ty) by {
                if let TyKind::Adt { kind, fields } = ty.kind {
                    lemma_struct_room(self@, name, fields@, is_mut, scope, is_global);
                }
            }
        }
        if ty.is_ref() && expr.is_addr() && expr.ty.deref_is_ref.is_none() {
            return false;
        }
        match room_of(ty) {
            Some(n) => n <= usize::MAX - self.rap_hashes,
            None => false,
        }
    }

    /// There is room for the access points of the variables that the pattern binds, even if all of
    /// their names are new, and none of the variables is a union.
    pub fn can_get_dec_of_pat2(&self, pat: &Pat) -> (result: bool)
        ensures
            result == (no_union(pat_bindings(*pat)) && self@.hashes + rooms(pat_bindings(*pat))
                <= usize::MAX),
            result ==> forall|parent: ResourceTy<Name>, scope: usize| #[trigger]
                self@.bind_all(pat_bindings(*pat), parent, scope).hashes <= usize::MAX,
    {
        proof {
            assert forall|parent: ResourceTy<Name>, scope: usize| #[trigger]
                self@.bind_all(pat_bindings(*pat), parent, scope).hashes <= self@.hashes + rooms(
                    pat_bindings(*pat),
                ) by {
                lemma_rooms(self@, pat_bindings(*pat), parent, scope);
            }
        }
        match rooms_of(pat) {
            Some(n) => n <= usize::MAX - self.rap_hashes,
            None => false,
        }
    }
}

} // verus!
