//! What each kind of variable, argument and pattern records.

use crate::aliases::Loan;
use crate::checks::declaring::{room, rooms};
use crate::data::{ExternalEvent, Name, ResourceAccessPoint, ResourceTy};
use crate::declare::{
    aliasing_of, lhs_known, lhs_resource, no_union, pat_bindings, pats_bindings, ref_data,
};
use crate::expr_visitor::Evt;
use crate::hir::{AdtKind, Binding, Expr, ExprKind, Mutability, Pat, Path, Ty, TyKind, UnOp};
use crate::laws::recording::recorded;
use crate::state::State;
use vstd::prelude::*;

verus! {

/// A resource has the aliases of the loan of its access point. Without a loan, or without an access
/// point, it has none.
pub proof fn law_resource_has_the_aliases_of_its_loan(
    loans: Map<Name, Loan>,
    r: ResourceAccessPoint<Name>,
)
    ensures
        loans.contains_key(r.spec_name()) ==> aliasing_of(loans, ResourceTy::Value(r))
            == loans[r.spec_name()].aliasing,
        !loans.contains_key(r.spec_name()) ==> aliasing_of(loans, ResourceTy::Value(r)).len() == 0,
        aliasing_of(loans, ResourceTy::Deref(r)) == aliasing_of(loans, ResourceTy::Value(r)),
        aliasing_of(loans, ResourceTy::Anonymous).len() == 0,
        aliasing_of(loans, ResourceTy::Caller).len() == 0,
{
}

/// Who a new reference borrows from is decided by its value alone: the resource whose address is
/// taken, or the lender of the reference that is copied.
pub proof fn law_lender_is_that_of_the_value(loans: Map<Name, Loan>, expr: Expr)
    ensures
        expr.kind is AddrOf ==> ref_data(loans, expr).0 == expr.resource@,
        !(expr.kind is AddrOf) ==> ref_data(loans, expr).0 == expr.lender@,
{
}

/// A copied reference has the aliases of its lender. So has an address, and in front of them the
/// access point whose address is taken if that is a reference itself.
pub proof fn law_aliases_are_those_of_the_lender(
    loans: Map<Name, Loan>,
    expr: Expr,
    r: ResourceAccessPoint<Name>,
)
    ensures
        !(expr.kind is AddrOf) ==> ref_data(loans, expr).1 == aliasing_of(loans, expr.lender@),
        expr.kind is AddrOf && expr.ty.deref_is_ref != Some(true) ==> ref_data(loans, expr).1
            == aliasing_of(loans, expr.resource@),
        expr.kind is AddrOf && (expr.resource@ is Anonymous || expr.resource@ is Caller)
            ==> ref_data(loans, expr).1.len() == 0,
        expr.kind is AddrOf && expr.ty.deref_is_ref == Some(true) && (expr.resource@
            == ResourceTy::Value(r) || expr.resource@ == ResourceTy::Deref(r)) ==> {
            &&& ref_data(loans, expr).1.len() == 1 + aliasing_of(loans, expr.resource@).len()
            &&& ref_data(loans, expr).1[0] == r.spec_name()
            &&& ref_data(loans, expr).1.skip(1) == aliasing_of(loans, expr.resource@)
        },
{
    if expr.kind is AddrOf && expr.ty.deref_is_ref == Some(true) && (expr.resource@
        == ResourceTy::Value(r) || expr.resource@ == ResourceTy::Deref(r)) {
        assert(ref_data(loans, expr).1.skip(1) =~= aliasing_of(loans, expr.resource@));
    }
}

/// Declaring a reference records a loan from the resource whose address is taken, or from the
/// lender of the reference that is copied, on the line of its value. It is mutable exactly if the
/// reference is.
pub proof fn law_declared_reference_borrows_from_its_lender(
    s: State,
    name: Name,
    is_mut: bool,
    expr: Expr,
    ty: Ty,
    mutability: Mutability,
    scope: usize,
    is_global: bool,
)
    requires
        ty.kind == (TyKind::Ref { mutability }),
    ensures
        ({
            let t = s.define_lhs(name, is_mut, expr, ty, scope, is_global);
            let lender = if expr.kind is AddrOf {
                expr.resource@
            } else {
                expr.lender@
            };
            let aliasing = ref_data(s.loans, expr).1;
            &&& t.loans[name] == (Loan {
                lender,
                assigned_at: expr.line,
                lifetime: expr.line,
                ref_mutability: mutability == Mutability::Mut,
                aliasing,
            })
            &&& t == s.add_ref(
                name,
                mutability == Mutability::Mut,
                is_mut,
                expr.line,
                lender,
                aliasing,
                scope,
                is_global,
            )
        }),
{
}

/// A variable that is neither a reference nor a function is an owner, unless it is a struct or
/// union. One that is shown as a plain owner is an owner whatever it is made of.
pub proof fn law_declared_value_is_an_owner(
    s: State,
    name: Name,
    is_mut: bool,
    expr: Expr,
    ty: Ty,
    scope: usize,
    is_global: bool,
)
    requires
        ty.kind is Other || (ty.kind is Adt && (ty.is_special_owner || ty.kind->kind
            == AdtKind::Enum)),
    ensures
        s.define_lhs(name, is_mut, expr, ty, scope, is_global) == s.add_owner(
            name,
            is_mut,
            scope,
            is_global,
        ),
{
}

/// A struct is entered first, as a whole that owns itself.
pub proof fn law_declared_struct_is_a_whole(
    s: State,
    name: Name,
    is_mut: bool,
    expr: Expr,
    ty: Ty,
    fields: Vec<String>,
    scope: usize,
    is_global: bool,
)
    requires
        ty.kind == (TyKind::Adt { kind: AdtKind::Struct, fields }),
        !ty.is_special_owner,
        fields@.len() == 0,
    ensures
        s.define_lhs(name, is_mut, expr, ty, scope, is_global) == s.add_struct(
            name,
            s.hashes as u64,
            false,
            is_mut,
            scope,
            is_global,
        ),
{
}

/// Then each field is entered, as a member that carries the number which the whole was given. Its
/// name is that of the struct, a dot and its own.
pub proof fn law_declared_struct_has_its_fields(
    s: State,
    name: Name,
    is_mut: bool,
    expr: Expr,
    shorter: Ty,
    longer: Ty,
    fields: Vec<String>,
    more: Vec<String>,
    field: String,
    scope: usize,
    is_global: bool,
)
    requires
        shorter.kind == (TyKind::Adt { kind: AdtKind::Struct, fields }),
        longer.kind == (TyKind::Adt { kind: AdtKind::Struct, fields: more }),
        !shorter.is_special_owner,
        !longer.is_special_owner,
        more@ == fields@.push(field),
    ensures
        s.define_lhs(name, is_mut, expr, longer, scope, is_global) == s.define_lhs(
            name,
            is_mut,
            expr,
            shorter,
            scope,
            is_global,
        ).add_struct(
            name + seq!['.'] + field@,
            s.hashes as u64,
            true,
            is_mut,
            scope,
            is_global,
        ),
{
    assert(more@.drop_last() =~= fields@);
    assert(more@.last() == field);
}

/// A union, or a function, is not entered at all.
pub proof fn law_declared_union_is_left_out(
    s: State,
    name: Name,
    is_mut: bool,
    expr: Expr,
    ty: Ty,
    scope: usize,
    is_global: bool,
)
    requires
        ty.kind is Fn || (ty.kind is Adt && !ty.is_special_owner && ty.kind->kind
            == AdtKind::Union),
    ensures
        s.define_lhs(name, is_mut, expr, ty, scope, is_global) == s,
{
}

/// Passing an argument enters the function, and adds an event from what is passed to the function:
/// a reference is passed by reference, shared or mutable; anything else is copied if its type can
/// be copied and moved if not, whatever kind of type it is.
pub proof fn law_argument_goes_to_its_function(
    s: State,
    arg: Expr,
    fn_name: Name,
    scope: usize,
    mutability: Mutability,
)
    ensures
        ({
            let f = s.add_fn(fn_name, scope);
            let from = arg.resource@;
            let to = ResourceTy::Value(f.raps[fn_name].rap);
            let id = s.next_id as usize;
            let t = s.match_arg(arg, fn_name, scope);
            &&& arg.ty.kind == (TyKind::Ref { mutability }) && mutability == Mutability::Not ==> t
                == recorded(f, arg.line, ExternalEvent::PassByStaticReference { from, to, id })
            &&& arg.ty.kind == (TyKind::Ref { mutability }) && mutability == Mutability::Mut ==> t
                == recorded(f, arg.line, ExternalEvent::PassByMutableReference { from, to, id })
            &&& !(arg.ty.kind is Ref) && arg.ty.is_copy ==> t == recorded(
                f,
                arg.line,
                ExternalEvent::Copy { from, to, id, is_partial: false },
            )
            &&& !(arg.ty.kind is Ref) && !arg.ty.is_copy ==> t == recorded(
                f,
                arg.line,
                ExternalEvent::Move { from, to, id, is_partial: false },
            )
        }),
{
}

/// An argument can be passed where the function and its event can be entered. Nothing is drawn
/// between an argument and a function, so that this needs no line unless the name of the function
/// is that of a variable.
pub proof fn law_argument_can_be_passed(s: State, arg: Expr, fn_name: Name, scope: usize)
    requires
        s.next_id < usize::MAX,
        s.hashes < usize::MAX,
        !s.raps.contains_key(fn_name) || s.raps[fn_name].rap is Function || s.lines.contains_key(
            arg.line,
        ),
    ensures
        s.can_match_arg(arg, fn_name, scope),
{
}

/// A variable that a pattern binds is entered as its type says, in the scope and branch of the
/// pattern. A reference borrows from the matched value and has no aliases.
pub proof fn law_bound_variable_is_entered_by_type(
    s: State,
    b: Binding,
    parent: ResourceTy<Name>,
    scope: usize,
    mutability: Mutability,
)
    ensures
        ({
            let is_mut = b.mutability == Mutability::Mut;
            let t = s.bind(b, parent, scope);
            &&& b.ty.kind == (TyKind::Ref { mutability }) ==> t == s.add_ref(
                b.name@,
                mutability == Mutability::Mut,
                is_mut,
                b.line,
                parent,
                Seq::empty(),
                scope,
                false,
            )
            &&& b.ty.kind is Adt && b.ty.kind->kind == AdtKind::Struct ==> t
                == s.add_struct_and_fields(
                b.name@,
                b.ty.kind->fields@,
                is_mut,
                scope,
                false,
            )
            &&& b.ty.kind is Adt && b.ty.kind->kind == AdtKind::Enum ==> t == s.add_owner(
                b.name@,
                is_mut,
                scope,
                false,
            )
            &&& b.ty.kind is Fn || b.ty.kind is Other ==> t == s.add_owner(
                b.name@,
                is_mut,
                scope,
                false,
            )
        }),
{
}

/// A struct and its fields are entered in the same way wherever they come from.
pub proof fn law_structs_are_entered_alike(
    s: State,
    name: Name,
    fields: Seq<String>,
    field: String,
    is_mut: bool,
    scope: usize,
    is_global: bool,
)
    ensures
        s.add_struct_and_fields(name, Seq::empty(), is_mut, scope, is_global) == s.add_struct(
            name,
            s.hashes as u64,
            false,
            is_mut,
            scope,
            is_global,
        ),
        s.add_struct_and_fields(name, fields.push(field), is_mut, scope, is_global)
            == s.add_struct_and_fields(name, fields, is_mut, scope, is_global).add_struct(
            name + seq!['.'] + field@,
            s.hashes as u64,
            true,
            is_mut,
            scope,
            is_global,
        ),
{
    assert(fields.push(field).drop_last() =~= fields);
}

/// The variables of a pattern are bound one after the other. Each is listed with its access point,
/// the matched type, and what happens to the matched value: behind a reference it is borrowed,
/// mutably or not as the reference is; otherwise it is copied if the variable's type can be copied
/// and moved if not, whatever kind of type the matched value has.
pub proof fn law_bound_variable_tells_what_happens(
    s: State,
    bindings: Seq<Binding>,
    b: Binding,
    parent: ResourceTy<Name>,
    parent_ty: Ty,
    scope: usize,
)
    ensures
        s.bind_all(Seq::empty(), parent, scope) == s,
        s.bound(Seq::empty(), parent, parent_ty, scope).len() == 0,
        ({
            let t = s.bind_all(bindings, parent, scope).bind(b, parent, scope);
            let evt = match parent_ty.kind {
                TyKind::Ref { mutability } => if mutability == Mutability::Mut {
                    Evt::MBorrow
                } else {
                    Evt::SBorrow
                },
                _ => if b.ty.is_copy {
                    Evt::Copy
                } else {
                    Evt::Move
                },
            };
            &&& s.bind_all(bindings.push(b), parent, scope) == t
            &&& s.bound(bindings.push(b), parent, parent_ty, scope) == s.bound(
                bindings,
                parent,
                parent_ty,
                scope,
            ).push((t.raps[b.name@].rap, evt, parent_ty))
        }),
{
    assert(bindings.push(b).drop_last() =~= bindings);
}

/// What happens to the matched value, for each variable of a pattern.
pub proof fn law_every_bound_variable_tells_what_happens(
    s: State,
    bindings: Seq<Binding>,
    parent: ResourceTy<Name>,
    parent_ty: Ty,
    scope: usize,
    i: int,
)
    requires
        0 <= i < bindings.len(),
    ensures
        ({
            let bound = s.bound(bindings, parent, parent_ty, scope);
            &&& bound.len() == bindings.len()
            &&& bound[i].2 == parent_ty
            &&& parent_ty.kind matches TyKind::Ref { mutability } ==> {
                &&& mutability == Mutability::Mut ==> bound[i].1 == Evt::MBorrow
                &&& mutability == Mutability::Not ==> bound[i].1 == Evt::SBorrow
            }
            &&& !(parent_ty.kind is Ref) && bindings[i].ty.is_copy ==> bound[i].1 == Evt::Copy
            &&& !(parent_ty.kind is Ref) && !bindings[i].ty.is_copy ==> bound[i].1 == Evt::Move
        }),
    decreases bindings.len(),
{
    let rest = bindings.drop_last();
    lemma_bound_len(s, bindings, parent, parent_ty, scope);
    lemma_bound_len(s, rest, parent, parent_ty, scope);
    if i < rest.len() {
        law_every_bound_variable_tells_what_happens(s, rest, parent, parent_ty, scope, i);
        assert(rest[i] == bindings[i]);
    }
}

proof fn lemma_bound_len(
    s: State,
    bindings: Seq<Binding>,
    parent: ResourceTy<Name>,
    parent_ty: Ty,
    scope: usize,
)
    ensures
        s.bound(bindings, parent, parent_ty, scope).len() == bindings.len(),
    decreases bindings.len(),
{
    if bindings.len() > 0 {
        lemma_bound_len(s, bindings.drop_last(), parent, parent_ty, scope);
    }
}

/// A pattern binds the variables of its parts from left to right. A variable comes before those of
/// the pattern behind it, and of several alternatives the first one counts.
pub proof fn law_patterns_bind_from_left_to_right(
    pats: Vec<Pat>,
    inner: Pat,
    b: Binding,
    parts: Seq<Pat>,
    part: Pat,
)
    ensures
        pats_bindings(Seq::empty()).len() == 0,
        pats_bindings(parts.push(part)) == pats_bindings(parts) + pat_bindings(part),
        pat_bindings(Pat::TupleStruct(pats)) == pats_bindings(pats@),
        pat_bindings(Pat::Struct(pats)) == pats_bindings(pats@),
        pat_bindings(Pat::Tuple(pats)) == pats_bindings(pats@),
        pat_bindings(Pat::Slice(pats)) == pats_bindings(pats@),
        pat_bindings(Pat::Ref(Box::new(inner))) == pat_bindings(inner),
        pats@.len() > 0 ==> pat_bindings(Pat::Or(pats)) == pat_bindings(pats@[0]),
        b.sub is None ==> pat_bindings(Pat::Binding(b)) == seq![b],
        b.sub == Some(Box::new(inner)) ==> pat_bindings(Pat::Binding(b)) == seq![b] + pat_bindings(
            inner,
        ),
        pat_bindings(Pat::Other).len() == 0,
{
    assert(parts.push(part).drop_last() =~= parts);
}

/// Only unions cannot be bound.
pub proof fn law_only_unions_cannot_be_bound(bindings: Seq<Binding>)
    ensures
        no_union(bindings) <==> forall|i: int|
            0 <= i < bindings.len() && (#[trigger] bindings[i]).ty.kind is Adt
                ==> bindings[i].ty.kind->kind != AdtKind::Union,
{
    if !no_union(bindings) {
        let i = choose|i: int|
            0 <= i < bindings.len() && (
            #[trigger] bindings[i].ty.kind matches TyKind::Adt { kind, .. } && kind
                == AdtKind::Union);
        assert(bindings[i].ty.kind is Adt);
    }
}

/// Room is counted for a variable and for each of its fields.
pub proof fn law_room_is_counted(ty: Ty, bindings: Seq<Binding>, b: Binding)
    ensures
        ty.kind is Adt ==> room(ty) == 1 + ty.kind->fields@.len(),
        !(ty.kind is Adt) ==> room(ty) == 1,
        rooms(Seq::empty()) == 0,
        rooms(bindings.push(b)) == rooms(bindings) + room(b.ty),
{
    assert(bindings.push(b).drop_last() =~= bindings);
}

/// A variable that is assigned to is known by its name, and a field of one by the variable's name,
/// a dot and its own. Nothing is recorded of that.
pub proof fn law_variable_is_assigned_to(
    s: State,
    expr: Expr,
    base: Expr,
    p: Path,
    field: String,
)
    ensures
        expr.kind == ExprKind::Path(p) ==> {
            &&& lhs_resource(s.raps, expr) == ResourceTy::Value(s.raps[p.segments@[0]@].rap)
            &&& s.assign_to(expr) == s
            &&& lhs_known(s.raps, expr) <==> p.segments@.len() > 0 && s.raps.contains_key(
                p.segments@[0]@,
            )
        },
        expr.kind == ExprKind::Field(Box::new(base), field) && base.kind == ExprKind::Path(p) ==> {
            let name = p.segments@[0]@ + seq!['.'] + field@;
            &&& lhs_resource(s.raps, expr) == ResourceTy::Value(s.raps[name].rap)
            &&& s.assign_to(expr) == s
            &&& lhs_known(s.raps, expr) <==> p.segments@.len() > 0 && s.raps.contains_key(name)
        },
{
}

/// Assigning to `*e` goes through the reference that it comes down to, which is a use of it on the
/// line of `e`. Where it comes down to none, the resource has no name and nothing is recorded.
pub proof fn law_dereference_is_assigned_through(s: State, expr: Expr, inner: Expr)
    requires
        expr.kind == ExprKind::Unary(UnOp::Deref, Box::new(inner)),
    ensures
        lhs_known(s.raps, expr),
        expr.rap is None ==> lhs_resource(s.raps, expr) == ResourceTy::<Name>::Anonymous
            && s.assign_to(expr) == s,
        expr.rap matches Some(r) ==> lhs_resource(s.raps, expr) == ResourceTy::Deref(r@)
            && s.assign_to(expr) == s.update_rap(r@, inner.line),
{
}

} // verus!
