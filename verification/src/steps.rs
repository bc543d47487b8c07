//! What assigning an expression does, as a list of steps.

use crate::aliases::{
    aliases_end, lemma_same_aliasing, lemma_with_lifetime, reaches, same_aliasing, Loan,
};
use crate::data::{Name, ResourceAccessPoint, ResourceTy};
use crate::expr_visitor::{Evt, RapData};
use crate::hir::{dotted, Expr, ExprField, ExprKind, Mutability, Path, Ty, TyKind, UnOp};
use crate::state::State;
use vstd::prelude::*;

verus! {

/// One thing that the visitor records.
pub ghost enum Step {
    /// An access point is used on a line.
    Use { rap: ResourceAccessPoint<Name>, line: usize },
    /// An event is added to a line.
    Add { line: usize, evt: Evt, lhs: ResourceTy<Name>, rhs: ResourceTy<Name> },
}

impl State {
    pub open spec fn step(self, step: Step) -> State {
        match step {
            Step::Use { rap, line } => self.update_rap(rap, line),
            Step::Add { line, evt, lhs, rhs } => self.add_ev(line, evt, lhs, rhs, false),
        }
    }

    pub open spec fn can_step(self, step: Step) -> bool {
        match step {
            Step::Use { rap, line } => self.can_update_rap(rap),
            Step::Add { line, evt, lhs, rhs } => self.can_add_ev(line, evt, lhs, rhs, false),
        }
    }

    /// The record after the steps, taken one after the other.
    pub open spec fn steps(self, steps: Seq<Step>) -> State
        decreases steps.len(),
    {
        if steps.len() == 0 {
            self
        } else {
            self.steps(steps.drop_last()).step(steps.last())
        }
    }

    /// Each step can be taken, and the numbers for events do not run out.
    pub open spec fn can_take(self, steps: Seq<Step>) -> bool {
        &&& forall|i: int| 0 <= i < steps.len() ==> self.can_step(#[trigger] steps[i])
        &&& self.steps(steps).next_id <= usize::MAX
    }
}

/// What happens when a value of the type is handed over: it is copied or moved.
pub open spec fn transfer_evt(ty: Ty) -> Evt {
    match ty.kind {
        TyKind::Ref { mutability } => if mutability == Mutability::Not {
            Evt::Copy
        } else {
            Evt::Move
        },
        _ => if ty.is_copy {
            Evt::Copy
        } else {
            Evt::Move
        },
    }
}

pub open spec fn borrow_evt(mutability: Mutability) -> Evt {
    if mutability == Mutability::Mut {
        Evt::MBorrow
    } else {
        Evt::SBorrow
    }
}

/// The use of the access point that an expression comes down to.
pub open spec fn use_steps(expr: Expr) -> Seq<Step> {
    match expr.rap {
        Some(r) => seq![Step::Use { rap: r@, line: expr.line }],
        None => Seq::empty(),
    }
}

/// The steps recorded when `lhs` is assigned `expr`, where `evt` is what happens to a resource
/// that is named outright.
pub open spec fn rhs_steps(
    raps: Map<Name, RapData<Name>>,
    lhs: ResourceTy<Name>,
    expr: Expr,
    evt: Evt,
) -> Seq<Step>
    decreases expr,
{
    match expr.kind {
        ExprKind::Path(p) => {
            let rap = raps[p.target()].rap;
            seq![
                Step::Use { rap, line: p.line },
                Step::Add { line: p.line, evt, lhs, rhs: ResourceTy::Value(rap) },
            ]
        },
        ExprKind::Call { line, fn_name } => seq![
            Step::Add { line, evt, lhs, rhs: ResourceTy::Value(raps[fn_name@].rap) },
        ],
        ExprKind::MethodCall { line, fn_name } => seq![
            Step::Add { line, evt, lhs, rhs: ResourceTy::Value(raps[fn_name@].rap) },
        ],
        ExprKind::Lit | ExprKind::Binary => seq![
            Step::Add { line: expr.line, evt: Evt::Bind, lhs, rhs: ResourceTy::Anonymous },
        ],
        ExprKind::Unary(op, inner) => if op == UnOp::Deref {
            use_steps(*inner).push(
                Step::Add {
                    line: inner.line,
                    evt,
                    lhs,
                    rhs: match inner.rap {
                        Some(r) => ResourceTy::Deref(r@),
                        None => ResourceTy::Anonymous,
                    },
                },
            )
        } else {
            seq![Step::Add { line: expr.line, evt: Evt::Bind, lhs, rhs: ResourceTy::Anonymous }]
        },
        ExprKind::AddrOf(_, inner) => use_steps(*inner).push(
            Step::Add {
                line: inner.line,
                evt: borrow_evt(expr.spec_fetch_mutability()->0),
                lhs,
                rhs: match expr.rap {
                    Some(r) => ResourceTy::Value(r@),
                    None => ResourceTy::Anonymous,
                },
            },
        ),
        ExprKind::Block(Some(e)) => rhs_steps(raps, lhs, *e, evt),
        ExprKind::Struct(fields) => seq![
            Step::Add { line: expr.line, evt: Evt::Bind, lhs, rhs: ResourceTy::Anonymous },
        ] + field_steps(raps, lhs, fields@),
        ExprKind::Field(base, field) => match base.kind {
            ExprKind::Path(p) => seq![
                Step::Add {
                    line: p.line,
                    evt,
                    lhs,
                    rhs: ResourceTy::Value(raps[dotted(p.segments@[0]@, field@)].rap),
                },
            ],
            _ => Seq::empty(),
        },
        ExprKind::Ret(Some(e)) => rhs_steps(raps, lhs, *e, evt),
        ExprKind::If(a, Some(b)) => rhs_steps(raps, lhs, *a, evt) + rhs_steps(raps, lhs, *b, evt),
        ExprKind::If(a, None) => rhs_steps(raps, lhs, *a, evt),
        ExprKind::DropTemps(e) => rhs_steps(raps, lhs, *e, evt),
        _ => Seq::empty(),
    }
}

/// The access point of a field of what is assigned to.
pub open spec fn field_rap(
    raps: Map<Name, RapData<Name>>,
    lhs: ResourceTy<Name>,
    field: ExprField,
) -> ResourceAccessPoint<Name> {
    raps[dotted(lhs.spec_rap()->0.spec_name(), field.name@)].rap
}

/// The steps recorded when each field of `lhs` is assigned its initializer.
pub open spec fn field_steps(
    raps: Map<Name, RapData<Name>>,
    lhs: ResourceTy<Name>,
    fields: Seq<ExprField>,
) -> Seq<Step>
    decreases fields,
{
    if fields.len() == 0 {
        Seq::empty()
    } else {
        field_steps(raps, lhs, fields.drop_last()) + rhs_steps(
            raps,
            ResourceTy::Value(field_rap(raps, lhs, fields.last())),
            fields.last().expr,
            transfer_evt(fields.last().expr.ty),
        )
    }
}

/// Every name that assigning `expr` to `lhs` looks up is there to be found.
pub open spec fn rhs_known(
    raps: Map<Name, RapData<Name>>,
    lhs: ResourceTy<Name>,
    expr: Expr,
) -> bool
    decreases expr,
{
    match expr.kind {
        ExprKind::Path(p) => (p.is_ctor || p.segments@.len() > 0) && raps.contains_key(p.target()),
        ExprKind::Call { line, fn_name } => raps.contains_key(fn_name@),
        ExprKind::MethodCall { line, fn_name } => raps.contains_key(fn_name@),
        ExprKind::Block(Some(e)) => rhs_known(raps, lhs, *e),
        ExprKind::Struct(fields) => fields_known(raps, lhs, fields@),
        ExprKind::Field(base, field) => match base.kind {
            ExprKind::Path(p) => p.segments@.len() > 0 && raps.contains_key(
                dotted(p.segments@[0]@, field@),
            ),
            _ => false,
        },
        ExprKind::Ret(Some(e)) => rhs_known(raps, lhs, *e),
        ExprKind::If(a, Some(b)) => rhs_known(raps, lhs, *a) && rhs_known(raps, lhs, *b),
        ExprKind::If(a, None) => rhs_known(raps, lhs, *a),
        ExprKind::DropTemps(e) => rhs_known(raps, lhs, *e),
        _ => true,
    }
}

pub open spec fn fields_known(
    raps: Map<Name, RapData<Name>>,
    lhs: ResourceTy<Name>,
    fields: Seq<ExprField>,
) -> bool
    decreases fields,
{
    fields.len() > 0 ==> {
        &&& fields_known(raps, lhs, fields.drop_last())
        &&& lhs.spec_rap() is Some
        &&& raps.contains_key(dotted(lhs.spec_rap()->0.spec_name(), fields.last().name@))
        &&& rhs_known(
            raps,
            ResourceTy::Value(field_rap(raps, lhs, fields.last())),
            fields.last().expr,
        )
    }
}

/// From `a` to `b` events were added and lifetimes moved, and nothing else has changed.
pub open spec fn only_events_and_lifetimes(a: State, b: State) -> bool {
    &&& same_aliasing(a.loans, b.loans)
    &&& forall|k: Name| #[trigger]
        a.loans.contains_key(k) ==> b.loans[k] == (Loan { lifetime: b.loans[k].lifetime, ..a.loans[k] })
    &&& a.borrowers == b.borrowers
    &&& a.raps == b.raps
    &&& a.rap_names == b.rap_names
    &&& a.lines.dom() == b.lines.dom()
    &&& a.hashes == b.hashes
    &&& a.next_id <= b.next_id
    &&& a.events.is_prefix_of(b.events)
}

pub proof fn lemma_only_trans(a: State, b: State, c: State)
    requires
        only_events_and_lifetimes(a, b),
        only_events_and_lifetimes(b, c),
    ensures
        only_events_and_lifetimes(a, c),
{
    assert forall|k: Name| #[trigger] a.loans.contains_key(k) implies c.loans[k] == (Loan {
        lifetime: c.loans[k].lifetime,
        ..a.loans[k]
    }) by {
        assert(b.loans.contains_key(k));
    }
    assert forall|k: Name| #[trigger] a.loans.contains_key(k) implies a.loans[k].aliasing
        == c.loans[k].aliasing by {
        assert(b.loans.contains_key(k));
    }
    assert(a.events =~= c.events.subrange(0, a.events.len() as int));
}

pub proof fn lemma_step(s: State, step: Step)
    requires
        s.can_step(step),
    ensures
        only_events_and_lifetimes(s, s.step(step)),
{
    match step {
        Step::Use { rap, line } => {
            if rap.spec_is_ref() {
                lemma_with_lifetime(
                    s.loans,
                    |k: Name| reaches(s.loans, rap.spec_name(), k),
                    line,
                );
            }
            assert(s.step(step).events =~= s.events.subrange(0, s.events.len() as int));
        },
        Step::Add { line, evt, lhs, rhs } => {
            let t = s.step(step);
            assert(s.lines.dom() =~= t.lines.dom());
            assert(s.events =~= t.events.subrange(0, s.events.len() as int));
        },
    }
}

/// What can be done next does not depend on events or lifetimes.
pub proof fn lemma_can_step(a: State, b: State, step: Step)
    requires
        only_events_and_lifetimes(a, b),
    ensures
        a.can_step(step) <==> b.can_step(step),
{
    lemma_same_aliasing(a.loans, b.loans);
    match step {
        Step::Use { rap, line } => {
            assert(aliases_end(a.loans, rap.spec_name()) <==> aliases_end(
                b.loans,
                rap.spec_name(),
            ));
        },
        Step::Add { line, evt, lhs, rhs } => {
            assert(a.lines.contains_key(line) <==> b.lines.contains_key(line));
        },
    }
}

pub proof fn lemma_steps(s: State, steps: Seq<Step>)
    requires
        forall|i: int| 0 <= i < steps.len() ==> s.can_step(#[trigger] steps[i]),
    ensures
        only_events_and_lifetimes(s, s.steps(steps)),
    decreases steps.len(),
{
    if steps.len() == 0 {
        assert(s.events =~= s.events.subrange(0, s.events.len() as int));
    } else {
        let rest = steps.drop_last();
        assert forall|i: int| 0 <= i < rest.len() implies s.can_step(#[trigger] rest[i]) by {
            assert(rest[i] == steps[i]);
        }
        lemma_steps(s, rest);
        assert(s.can_step(steps[steps.len() - 1]));
        lemma_can_step(s, s.steps(rest), steps.last());
        lemma_step(s.steps(rest), steps.last());
        lemma_only_trans(s, s.steps(rest), s.steps(steps));
    }
}

pub proof fn lemma_steps_add(s: State, a: Seq<Step>, b: Seq<Step>)
    ensures
        s.steps(a + b) == s.steps(a).steps(b),
    decreases b.len(),
{
    if b.len() == 0 {
        assert(a + b =~= a);
    } else {
        assert((a + b).drop_last() =~= a + b.drop_last());
        assert((a + b).last() == b.last());
        lemma_steps_add(s, a, b.drop_last());
    }
}

/// Steps that can be taken as a whole can be taken in two parts.
pub proof fn lemma_can_take(s: State, a: Seq<Step>, b: Seq<Step>)
    requires
        s.can_take(a + b),
    ensures
        s.can_take(a),
        s.steps(a).can_take(b),
        s.steps(a + b) == s.steps(a).steps(b),
        only_events_and_lifetimes(s, s.steps(a)),
{
    lemma_steps_add(s, a, b);
    assert forall|i: int| 0 <= i < a.len() implies s.can_step(#[trigger] a[i]) by {
        assert((a + b)[i] == a[i]);
    }
    lemma_steps(s, a);
    assert forall|i: int| 0 <= i < b.len() implies s.steps(a).can_step(#[trigger] b[i]) by {
        assert((a + b)[a.len() + i] == b[i]);
        lemma_can_step(s, s.steps(a), b[i]);
    }
    lemma_steps(s.steps(a), b);
}

/// A single step, taken as a list of one.
pub proof fn lemma_one_step(s: State, step: Step)
    ensures
        s.steps(seq![step]) == s.step(step),
{
    assert(seq![step].drop_last() =~= Seq::<Step>::empty());
    assert(s.steps(Seq::<Step>::empty()) == s);
}

/// The steps of the first fields come first, and what they look up is found.
pub proof fn lemma_fields_prefix(
    raps: Map<Name, RapData<Name>>,
    lhs: ResourceTy<Name>,
    fields: Seq<ExprField>,
    n: int,
)
    requires
        0 <= n <= fields.len(),
        fields_known(raps, lhs, fields),
    ensures
        fields_known(raps, lhs, fields.take(n)),
        field_steps(raps, lhs, fields.take(n)).is_prefix_of(field_steps(raps, lhs, fields)),
    decreases fields.len(),
{
    if n == fields.len() {
        assert(fields.take(n) =~= fields);
    } else {
        let rest = fields.drop_last();
        lemma_fields_prefix(raps, lhs, rest, n);
        assert(rest.take(n) =~= fields.take(n));
        let a = field_steps(raps, lhs, fields.take(n));
        let b = field_steps(raps, lhs, rest);
        let c = field_steps(raps, lhs, fields);
        assert(a =~= c.subrange(0, a.len() as int)) by {
            assert(a =~= b.subrange(0, a.len() as int));
            assert(b =~= c.subrange(0, b.len() as int));
        }
    }
}

} // verus!
