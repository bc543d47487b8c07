//! What assigning each kind of expression records.

use crate::data::{ExternalEvent, Name, ResourceAccessPoint, ResourceTy};
use crate::expr_visitor::Evt;
use crate::hir::{dotted, joined, Expr, ExprField, ExprKind, Mutability, Path, TyKind, UnOp};
use crate::laws::recording::recorded;
use crate::state::{event_of, State};
use crate::steps::{
    field_steps, fields_known, lemma_one_step, lemma_steps_add, rhs_known, rhs_steps, use_steps, Step,
};
use vstd::prelude::*;

verus! {

/// The record after `expr` has been assigned to `lhs`, with `evt` for a resource that is named
/// outright.
pub open spec fn assigned(s: State, lhs: ResourceTy<Name>, expr: Expr, evt: Evt) -> State {
    s.steps(rhs_steps(s.raps, lhs, expr, evt))
}

/// `expr` can be assigned to `lhs`.
pub open spec fn assignable(s: State, lhs: ResourceTy<Name>, expr: Expr, evt: Evt) -> bool {
    rhs_known(s.raps, lhs, expr) && s.can_take(rhs_steps(s.raps, lhs, expr, evt))
}

/// The record after the access point that an expression comes down to has been used on a line.
pub open spec fn used(s: State, rap: Option<ResourceAccessPoint>, line: usize) -> State {
    match rap {
        Some(r) => s.update_rap(r@, line),
        None => s,
    }
}

proof fn lemma_use_then_add(s: State, uses: Seq<Step>, add: Step)
    requires
        uses.len() <= 1,
        uses.len() == 1 ==> uses[0] is Use,
        add is Add,
    ensures
        s.steps(uses.push(add)) == (if uses.len() == 0 {
            s
        } else {
            s.step(uses[0])
        }).step(add),
        s.can_take(uses.push(add)) <==> (uses.len() == 1 ==> s.can_step(uses[0])) && s.can_step(add)
            && s.next_id < usize::MAX,
{
    let steps = uses.push(add);
    assert(steps.drop_last() =~= uses);
    if uses.len() == 1 {
        assert(uses =~= seq![uses[0]]);
        lemma_one_step(s, uses[0]);
        assert(steps[0] == uses[0]);
    } else {
        assert(s.steps(uses) == s);
    }
    assert(steps[uses.len() as int] == add);
    assert(s.steps(steps).next_id == s.next_id + 1);
}

/// A variable that is assigned is used on the line where it stands, and there the event is added
/// that was asked for, from the variable to what is assigned to.
pub proof fn law_variable_is_assigned(
    s: State,
    lhs: ResourceTy<Name>,
    expr: Expr,
    p: Path,
    evt: Evt,
)
    requires
        expr.kind == ExprKind::Path(p),
    ensures
        ({
            let name = if p.is_ctor {
                joined(p.segments@)
            } else {
                p.segments@[0]@
            };
            let rap = s.raps[name].rap;
            let from = ResourceTy::Value(rap);
            &&& assigned(s, lhs, expr, evt) == recorded(
                s.update_rap(rap, p.line),
                p.line,
                event_of(evt, lhs, from, s.next_id as usize, false),
            )
            &&& assignable(s, lhs, expr, evt) <==> {
                &&& p.is_ctor || p.segments@.len() > 0
                &&& s.raps.contains_key(name)
                &&& s.can_update_rap(rap)
                &&& s.can_add_ev(p.line, evt, lhs, from, false)
                &&& s.next_id < usize::MAX
            }
        }),
{
    let steps = rhs_steps(s.raps, lhs, expr, evt);
    assert(steps =~= seq![steps[0]].push(steps[1]));
    lemma_use_then_add(s, seq![steps[0]], steps[1]);
}

/// What a function or method returns comes from the function, on the line of the call.
pub proof fn law_call_is_assigned(
    s: State,
    lhs: ResourceTy<Name>,
    expr: Expr,
    line: usize,
    fn_name: String,
    evt: Evt,
)
    requires
        expr.kind == (ExprKind::Call { line, fn_name }) || expr.kind == (ExprKind::MethodCall {
            line,
            fn_name,
        }),
    ensures
        ({
            let from = ResourceTy::Value(s.raps[fn_name@].rap);
            &&& assigned(s, lhs, expr, evt) == recorded(
                s,
                line,
                event_of(evt, lhs, from, s.next_id as usize, false),
            )
            &&& assignable(s, lhs, expr, evt) <==> {
                &&& s.raps.contains_key(fn_name@)
                &&& s.can_add_ev(line, evt, lhs, from, false)
                &&& s.next_id < usize::MAX
            }
        }),
{
    let steps = rhs_steps(s.raps, lhs, expr, evt);
    assert(steps =~= Seq::empty().push(steps[0]));
    lemma_use_then_add(s, Seq::empty(), steps[0]);
}

/// A literal, or the result of an operator other than a dereference, has no name: what is assigned
/// to is bound to it, whatever event was asked for.
pub proof fn law_nameless_value_is_bound(
    s: State,
    lhs: ResourceTy<Name>,
    expr: Expr,
    op: UnOp,
    inner: Expr,
    evt: Evt,
)
    requires
        expr.kind is Lit || expr.kind is Binary || (expr.kind == ExprKind::Unary(
            op,
            Box::new(inner),
        ) && (op == UnOp::Neg || op == UnOp::Not)),
    ensures
        assigned(s, lhs, expr, evt) == recorded(
            s,
            expr.line,
            ExternalEvent::Bind { from: ResourceTy::Anonymous, to: lhs, id: s.next_id as usize },
        ),
        s.next_id < usize::MAX ==> assignable(s, lhs, expr, evt),
{
    let steps = rhs_steps(s.raps, lhs, expr, evt);
    assert(steps =~= Seq::empty().push(steps[0]));
    lemma_use_then_add(s, Seq::empty(), steps[0]);
}

/// The mutability of an address: that of the innermost one in a chain of addresses.
pub open spec fn innermost(expr: Expr) -> Mutability
    decreases expr,
{
    match expr.kind {
        ExprKind::AddrOf(m, inner) => if inner.kind is AddrOf {
            innermost(*inner)
        } else {
            m
        },
        _ => Mutability::Not,
    }
}

proof fn lemma_innermost(expr: Expr)
    requires
        expr.kind is AddrOf,
    ensures
        expr.spec_fetch_mutability() == Some(innermost(expr)),
    decreases expr,
{
    reveal_with_fuel(Expr::spec_fetch_mutability, 2);
    if let ExprKind::AddrOf(m, inner) = expr.kind {
        if inner.kind is AddrOf {
            lemma_innermost(*inner);
        }
    }
}

/// Assigning `&mut e` is a mutable borrow and assigning `&e` a shared one, from whatever access
/// point the address comes down to, if it comes down to one, and whatever event was asked for. It
/// is a use of what the address is taken of.
pub proof fn law_address_is_a_borrow(
    s: State,
    lhs: ResourceTy<Name>,
    expr: Expr,
    m: Mutability,
    inner: Expr,
    evt: Evt,
)
    requires
        expr.kind == ExprKind::AddrOf(m, Box::new(inner)),
    ensures
        ({
            let from = match expr.rap {
                Some(r) => ResourceTy::Value(r@),
                None => ResourceTy::Anonymous,
            };
            let id = s.next_id as usize;
            let is_mut = if inner.kind is AddrOf {
                innermost(inner) == Mutability::Mut
            } else {
                m == Mutability::Mut
            };
            let event = if is_mut {
                ExternalEvent::MutableBorrow { from, to: lhs, id, is_partial: false }
            } else {
                ExternalEvent::StaticBorrow { from, to: lhs, id, is_partial: false }
            };
            &&& assigned(s, lhs, expr, evt) == recorded(
                used(s, inner.rap, inner.line),
                inner.line,
                event,
            )
            &&& assignable(s, lhs, expr, evt) <==> {
                &&& inner.rap matches Some(r) ==> s.can_update_rap(r@)
                &&& s.can_add_event(inner.line, event)
                &&& s.next_id < usize::MAX
            }
        }),
{
    lemma_innermost(expr);
    let uses = use_steps(inner);
    let steps = rhs_steps(s.raps, lhs, expr, evt);
    assert(steps == uses.push(steps.last()));
    lemma_use_then_add(s, uses, steps.last());
}

/// Assigning `*e` reads through the reference that `e` comes down to, which is a use of it.
pub proof fn law_dereference_is_read_through(
    s: State,
    lhs: ResourceTy<Name>,
    expr: Expr,
    inner: Expr,
    evt: Evt,
)
    requires
        expr.kind == ExprKind::Unary(UnOp::Deref, Box::new(inner)),
    ensures
        ({
            let from = match inner.rap {
                Some(r) => ResourceTy::Deref(r@),
                None => ResourceTy::Anonymous,
            };
            &&& assigned(s, lhs, expr, evt) == recorded(
                used(s, inner.rap, inner.line),
                inner.line,
                event_of(evt, lhs, from, s.next_id as usize, false),
            )
            &&& assignable(s, lhs, expr, evt) <==> {
                &&& inner.rap matches Some(r) ==> s.can_update_rap(r@)
                &&& s.can_add_ev(inner.line, evt, lhs, from, false)
                &&& s.next_id < usize::MAX
            }
        }),
{
    let uses = use_steps(inner);
    let steps = rhs_steps(s.raps, lhs, expr, evt);
    assert(steps == uses.push(steps.last()));
    lemma_use_then_add(s, uses, steps.last());
}

/// A field of a variable is known under the variable's name, a dot and its own. Its variable's
/// line is the line of the event.
pub proof fn law_field_is_assigned(
    s: State,
    lhs: ResourceTy<Name>,
    expr: Expr,
    base: Expr,
    p: Path,
    field: String,
    evt: Evt,
)
    requires
        expr.kind == ExprKind::Field(Box::new(base), field),
        base.kind == ExprKind::Path(p),
    ensures
        ({
            let name = p.segments@[0]@ + seq!['.'] + field@;
            let from = ResourceTy::Value(s.raps[name].rap);
            &&& assigned(s, lhs, expr, evt) == recorded(
                s,
                p.line,
                event_of(evt, lhs, from, s.next_id as usize, false),
            )
            &&& assignable(s, lhs, expr, evt) <==> {
                &&& p.segments@.len() > 0
                &&& s.raps.contains_key(name)
                &&& s.can_add_ev(p.line, evt, lhs, from, false)
                &&& s.next_id < usize::MAX
            }
        }),
{
    let steps = rhs_steps(s.raps, lhs, expr, evt);
    assert(steps =~= Seq::empty().push(steps[0]));
    lemma_use_then_add(s, Seq::empty(), steps[0]);
}

/// Blocks, `return`, dropped temporaries and a branch that stands alone are seen through:
/// assigning them is assigning what they give. Where they give nothing, nothing happens.
pub proof fn law_wrappings_are_seen_through(
    s: State,
    lhs: ResourceTy<Name>,
    expr: Expr,
    inner: Expr,
    evt: Evt,
)
    ensures
        expr.kind == ExprKind::Block(Some(Box::new(inner))) || expr.kind == ExprKind::Ret(
            Some(Box::new(inner)),
        ) || expr.kind == ExprKind::DropTemps(Box::new(inner)) || expr.kind == ExprKind::If(
            Box::new(inner),
            None,
        ) ==> assigned(s, lhs, expr, evt) == assigned(s, lhs, inner, evt) && (assignable(
            s,
            lhs,
            expr,
            evt,
        ) <==> assignable(s, lhs, inner, evt)),
        expr.kind == ExprKind::Block(None) || expr.kind == ExprKind::Ret(None) || expr.kind
            is Other ==> assigned(s, lhs, expr, evt) == s && (assignable(s, lhs, expr, evt)
            <==> s.next_id <= usize::MAX),
{
    assert(s.steps(Seq::empty()) == s);
}

proof fn lemma_steps_keep_raps(s: State, steps: Seq<Step>)
    ensures
        s.steps(steps).raps == s.raps,
    decreases steps.len(),
{
    if steps.len() > 0 {
        lemma_steps_keep_raps(s, steps.drop_last());
    }
}

/// Assigning a conditional is assigning one branch and then the other.
pub proof fn law_both_branches_are_assigned(
    s: State,
    lhs: ResourceTy<Name>,
    expr: Expr,
    a: Expr,
    b: Expr,
    evt: Evt,
)
    requires
        expr.kind == ExprKind::If(Box::new(a), Some(Box::new(b))),
    ensures
        assigned(s, lhs, expr, evt) == assigned(assigned(s, lhs, a, evt), lhs, b, evt),
{
    let first = rhs_steps(s.raps, lhs, a, evt);
    let second = rhs_steps(s.raps, lhs, b, evt);
    lemma_steps_keep_raps(s, first);
    lemma_steps_add(s, first, second);
    assert(rhs_steps(s.raps, lhs, expr, evt) == first + second);
}

/// Assigning a struct literal first binds the struct to a resource without a name.
pub proof fn law_struct_literal_binds_first(
    s: State,
    lhs: ResourceTy<Name>,
    expr: Expr,
    fields: Vec<ExprField>,
    evt: Evt,
)
    requires
        expr.kind == ExprKind::Struct(fields),
        fields@.len() == 0,
    ensures
        assigned(s, lhs, expr, evt) == recorded(
            s,
            expr.line,
            ExternalEvent::Bind { from: ResourceTy::Anonymous, to: lhs, id: s.next_id as usize },
        ),
{
    let steps = rhs_steps(s.raps, lhs, expr, evt);
    assert(field_steps(s.raps, lhs, fields@) =~= Seq::empty());
    assert(steps =~= Seq::empty().push(steps[0]));
    lemma_use_then_add(s, Seq::empty(), steps[0]);
}

/// Each further field of a struct literal is then assigned to the field of that name: a shared
/// reference is copied and a mutable one moved; anything else is copied if its type can be copied
/// and moved if not.
pub proof fn law_struct_literal_fills_its_fields(
    s: State,
    lhs: ResourceTy<Name>,
    r: ResourceAccessPoint<Name>,
    shorter: Expr,
    longer: Expr,
    fields: Vec<ExprField>,
    more: Vec<ExprField>,
    field: ExprField,
    evt: Evt,
)
    requires
        lhs == ResourceTy::Value(r) || lhs == ResourceTy::Deref(r),
        shorter.kind == ExprKind::Struct(fields),
        longer.kind == ExprKind::Struct(more),
        longer.line == shorter.line,
        more@ == fields@.push(field),
    ensures
        ({
            let t = assigned(s, lhs, shorter, evt);
            let to = ResourceTy::Value(s.raps[r.spec_name() + seq!['.'] + field.name@].rap);
            let is_copied = match field.expr.ty.kind {
                TyKind::Ref { mutability } => mutability == Mutability::Not,
                _ => field.expr.ty.is_copy,
            };
            assigned(s, lhs, longer, evt) == assigned(
                t,
                to,
                field.expr,
                if is_copied {
                    Evt::Copy
                } else {
                    Evt::Move
                },
            )
        }),
{
    let a = rhs_steps(s.raps, lhs, shorter, evt);
    let b = rhs_steps(s.raps, lhs, longer, evt);
    assert(more@.drop_last() =~= fields@);
    assert(more@.last() == field);
    let is_copied = match field.expr.ty.kind {
        TyKind::Ref { mutability } => mutability == Mutability::Not,
        _ => field.expr.ty.is_copy,
    };
    let evt_of_field = if is_copied {
        Evt::Copy
    } else {
        Evt::Move
    };
    let to = ResourceTy::Value(s.raps[r.spec_name() + seq!['.'] + field.name@].rap);
    let last = rhs_steps(s.raps, to, field.expr, evt_of_field);
    let bind = seq![
        Step::Add { line: longer.line, evt: Evt::Bind, lhs, rhs: ResourceTy::Anonymous },
    ];
    assert(a == bind + field_steps(s.raps, lhs, fields@));
    assert(b == bind + field_steps(s.raps, lhs, more@));
    assert(field_steps(s.raps, lhs, more@) == field_steps(s.raps, lhs, fields@) + last);
    assert(b =~= a + last);
    lemma_steps_keep_raps(s, a);
    lemma_steps_add(s, a, last);
}

/// What a conditional or a struct literal looks up is what its parts look up, and the fields'
/// names.
pub proof fn law_parts_have_to_be_known(
    s: State,
    lhs: ResourceTy<Name>,
    r: ResourceAccessPoint<Name>,
    expr: Expr,
    a: Expr,
    b: Expr,
    shorter: Expr,
    fields: Vec<ExprField>,
    more: Vec<ExprField>,
    field: ExprField,
)
    ensures
        expr.kind == ExprKind::If(Box::new(a), Some(Box::new(b))) ==> (rhs_known(s.raps, lhs, expr)
            <==> rhs_known(s.raps, lhs, a) && rhs_known(s.raps, lhs, b)),
        expr.kind == ExprKind::Struct(fields) && fields@.len() == 0 ==> rhs_known(
            s.raps,
            lhs,
            expr,
        ),
        (lhs == ResourceTy::Value(r) || lhs == ResourceTy::Deref(r)) && shorter.kind
            == ExprKind::Struct(fields) && expr.kind == ExprKind::Struct(more) && more@
            == fields@.push(field) ==> (rhs_known(s.raps, lhs, expr) <==> {
            let name = r.spec_name() + seq!['.'] + field.name@;
            &&& rhs_known(s.raps, lhs, shorter)
            &&& s.raps.contains_key(name)
            &&& rhs_known(s.raps, ResourceTy::Value(s.raps[name].rap), field.expr)
        }),
{
    assert(fields@.push(field).drop_last() =~= fields@);
    assert(fields@.len() == 0 ==> fields_known(s.raps, lhs, fields@));
    if more@ == fields@.push(field) {
        assert(more@.last() == field);
        assert(more@.drop_last() == fields@);
        assert(fields_known(s.raps, lhs, more@) <==> {
            let name = dotted(lhs.spec_rap()->0.spec_name(), field.name@);
            &&& fields_known(s.raps, lhs, fields@)
            &&& lhs.spec_rap() is Some
            &&& s.raps.contains_key(name)
            &&& rhs_known(s.raps, ResourceTy::Value(s.raps[name].rap), field.expr)
        });
        assert(shorter.kind == ExprKind::Struct(fields) ==> rhs_known(s.raps, lhs, shorter)
            == fields_known(s.raps, lhs, fields@));
    }
}

/// Steps can be taken exactly if each of them can and the numbers for events do not run out.
pub proof fn law_steps_are_taken_one_by_one(s: State, steps: Seq<Step>, step: Step)
    ensures
        s.steps(Seq::empty()) == s,
        s.steps(steps.push(step)) == s.steps(steps).step(step),
        s.can_take(steps) <==> (forall|i: int|
            0 <= i < steps.len() ==> s.can_step(#[trigger] steps[i])) && s.steps(steps).next_id
            <= usize::MAX,
        step matches Step::Use { rap, line } ==> s.step(step) == s.update_rap(rap, line) && (
        s.can_step(step) <==> s.can_update_rap(rap)),
        step matches Step::Add { line, evt, lhs, rhs } ==> s.step(step) == s.add_ev(
            line,
            evt,
            lhs,
            rhs,
            false,
        ) && (s.can_step(step) <==> s.can_add_ev(line, evt, lhs, rhs, false)),
{
    assert(steps.push(step).drop_last() =~= steps);
}

} // verus!
