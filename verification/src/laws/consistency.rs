//! What every operation keeps of the record.

use crate::aliases::Loan;
use crate::data::{
    ExternalEvent, Function, MutRef, Name, Owner, ResourceAccessPoint, ResourceTy, StaticRef,
    Struct,
};
use crate::declare::{argument_evt, lemma_add_fields_grows, lemma_bind_grows, ref_data};
use crate::expr_visitor::Evt;
use crate::hir::{dotted, spec_bool_of_mut, AdtKind, Binding, Expr, Ty, TyKind};
use crate::lifetimes::{cascade, lemma_cascade, lemma_end_loans};
use crate::state::{event_of, State};
use crate::steps::{
    lemma_can_take, lemma_one_step, lemma_steps, only_events_and_lifetimes, Step,
};
use vstd::prelude::*;
use vstd::seq_lib::group_to_multiset_ensures;

verus! {

/// Every access point is stored under its own name, and no two of them have the same number.
pub open spec fn well_numbered(s: State) -> bool {
    &&& forall|k: Name| #[trigger]
        s.raps.contains_key(k) ==> s.raps[k].rap.spec_name() == k && s.raps[k].rap.spec_hash()
            < s.hashes
    &&& forall|k: Name, l: Name|
        #![trigger s.raps.contains_key(k), s.raps.contains_key(l)]
        s.raps.contains_key(k) && s.raps.contains_key(l) && k != l ==> s.raps[k].rap.spec_hash()
            != s.raps[l].rap.spec_hash()
}

/// The events are numbered in the order in which they were added.
pub open spec fn events_in_order(s: State) -> bool {
    &&& forall|i: int, j: int|
        0 <= i < j < s.events.len() ==> (#[trigger] s.events[i]).1.spec_id() < (
        #[trigger] s.events[j]).1.spec_id()
    &&& forall|i: int|
        0 <= i < s.events.len() ==> (#[trigger] s.events[i]).1.spec_id() < s.next_id
}

/// The events on `line` that are drawn as arrows, in the order in which they were added.
pub open spec fn arrows_on(
    events: Seq<(usize, ExternalEvent<Name>)>,
    line: usize,
) -> Seq<ExternalEvent<Name>>
    decreases events.len(),
{
    if events.len() == 0 {
        Seq::empty()
    } else {
        let rest = arrows_on(events.drop_last(), line);
        if events.last().0 == line && events.last().1.draws_arrow() {
            rest.push(events.last().1)
        } else {
            rest
        }
    }
}

/// Each line of the program shows the arrows among the events on it, and an arrow is on a line of
/// the program.
pub open spec fn lines_show_arrows(s: State) -> bool {
    &&& forall|l: usize| #[trigger]
        s.lines.contains_key(l) ==> s.lines[l] == arrows_on(s.events, l)
    &&& forall|i: int|
        0 <= i < s.events.len() && (#[trigger] s.events[i]).1.draws_arrow()
            ==> s.lines.contains_key(s.events[i].0)
}

/// What every operation keeps.
pub open spec fn consistent(s: State) -> bool {
    &&& well_numbered(s)
    &&& events_in_order(s)
    &&& lines_show_arrows(s)
}

/// A record with nothing in it but the lines of the program is consistent.
pub proof fn law_empty_record_is_consistent(s: State)
    requires
        forall|k: Name| !s.raps.contains_key(k),
        s.events.len() == 0,
        forall|l: usize| #[trigger] s.lines.contains_key(l) ==> s.lines[l].len() == 0,
    ensures
        consistent(s),
{
    assert forall|l: usize| #[trigger] s.lines.contains_key(l) implies s.lines[l] == arrows_on(
        s.events,
        l,
    ) by {
        assert(s.lines[l] =~= arrows_on(s.events, l));
    }
}

/// An access point whose name is taken is not added again: the first one stays.
pub proof fn law_first_rap_stays(
    s: State,
    r: ResourceAccessPoint<Name>,
    scope: usize,
    is_global: bool,
    other: ResourceAccessPoint<Name>,
    other_scope: usize,
    other_global: bool,
)
    requires
        r.spec_name() == other.spec_name(),
    ensures
        s.add_rap(r, scope, is_global).add_rap(other, other_scope, other_global) == s.add_rap(
            r,
            scope,
            is_global,
        ),
        s.add_rap(r, scope, is_global).raps.contains_key(r.spec_name()),
{
}

/// Adding an access point that carries the next number keeps the record consistent.
pub proof fn law_add_rap_keeps_consistent(
    s: State,
    r: ResourceAccessPoint<Name>,
    scope: usize,
    is_global: bool,
)
    requires
        consistent(s),
        s.hashes <= u64::MAX,
        r.spec_hash() == s.hashes,
    ensures
        consistent(s.add_rap(r, scope, is_global)),
{
    let t = s.add_rap(r, scope, is_global);
    assert forall|k: Name, l: Name|
        #![trigger t.raps.contains_key(k), t.raps.contains_key(l)]
        t.raps.contains_key(k) && t.raps.contains_key(l) && k != l implies t.raps[k].rap.spec_hash()
        != t.raps[l].rap.spec_hash() by {
        assert(k == r.spec_name() || s.raps.contains_key(k));
        assert(l == r.spec_name() || s.raps.contains_key(l));
    }
}

/// Adding an event under the next number keeps the record consistent.
pub proof fn law_add_event_keeps_consistent(s: State, line: usize, event: ExternalEvent<Name>)
    requires
        consistent(s),
        s.can_add_event(line, event),
        event.spec_id() == s.next_id,
    ensures
        consistent(State { next_id: s.next_id + 1, ..s.add_external_event(line, event) }),
{
    let t = State { next_id: s.next_id + 1, ..s.add_external_event(line, event) };
    assert(t.events.drop_last() =~= s.events);
    assert forall|l: usize| #[trigger] t.lines.contains_key(l) implies t.lines[l] == arrows_on(
        t.events,
        l,
    ) by {
        assert(s.lines.contains_key(l));
    }
    assert forall|i: int|
        0 <= i < t.events.len() && (#[trigger] t.events[i]).1.draws_arrow() implies t.lines.contains_key(
        t.events[i].0,
    ) by {
        if i < s.events.len() {
            assert(t.events[i] == s.events[i]);
        }
    }
    assert forall|i: int, j: int| 0 <= i < j < t.events.len() implies (
    #[trigger] t.events[i]).1.spec_id() < (#[trigger] t.events[j]).1.spec_id() by {
        assert(t.events[i] == s.events[i]);
        if j < s.events.len() {
            assert(t.events[j] == s.events[j]);
        }
    }
    assert forall|i: int| 0 <= i < t.events.len() implies (#[trigger] t.events[i]).1.spec_id()
        < t.next_id by {
        if i < s.events.len() {
            assert(t.events[i] == s.events[i]);
        }
    }
}

/// The events that `evt` stands for carry the number that they are given.
proof fn lemma_add_ev_consistent(
    s: State,
    line: usize,
    evt: Evt,
    lhs: ResourceTy<Name>,
    rhs: ResourceTy<Name>,
    is_partial: bool,
)
    requires
        consistent(s),
        s.next_id <= usize::MAX,
        s.can_add_ev(line, evt, lhs, rhs, is_partial),
    ensures
        consistent(s.add_ev(line, evt, lhs, rhs, is_partial)),
{
    law_add_event_keeps_consistent(
        s,
        line,
        event_of(evt, lhs, rhs, s.next_id as usize, is_partial),
    );
}

/// Assigning an expression, or recording uses and events one by one, keeps the record consistent.
pub proof fn law_steps_keep_consistent(s: State, steps: Seq<Step>)
    requires
        consistent(s),
        s.can_take(steps),
    ensures
        consistent(s.steps(steps)),
    decreases steps.len(),
{
    if steps.len() > 0 {
        let rest = steps.drop_last();
        let last = steps.last();
        assert(rest + seq![last] =~= steps);
        lemma_can_take(s, rest, seq![last]);
        law_steps_keep_consistent(s, rest);
        let t = s.steps(rest);
        assert(t.can_step(seq![last][0]));
        lemma_one_step(t, last);
        match last {
            Step::Use { rap, line } => {},
            Step::Add { line, evt, lhs, rhs } => {
                lemma_add_ev_consistent(t, line, evt, lhs, rhs, false);
            },
        }
    }
}

proof fn lemma_add_ref_consistent(
    s: State,
    name: Name,
    ref_mutability: bool,
    is_mut: bool,
    line: usize,
    lender: ResourceTy<Name>,
    aliasing: Seq<Name>,
    scope: usize,
    is_global: bool,
)
    requires
        consistent(s),
        s.hashes <= usize::MAX,
    ensures
        consistent(
            s.add_ref(
                name,
                ref_mutability,
                is_mut,
                line,
                lender,
                aliasing,
                scope,
                is_global,
            ),
        ),
{
    let hash = s.hashes as u64;
    if ref_mutability {
        law_add_rap_keeps_consistent(
            s,
            ResourceAccessPoint::MutRef(MutRef { name, hash, is_mut }),
            scope,
            is_global,
        );
    } else {
        law_add_rap_keeps_consistent(
            s,
            ResourceAccessPoint::StaticRef(StaticRef { name, hash, is_mut }),
            scope,
            is_global,
        );
    }
}

proof fn lemma_add_fields_consistent(
    s: State,
    name: Name,
    owner: u64,
    fields: Seq<String>,
    is_mut: bool,
    scope: usize,
    is_global: bool,
)
    requires
        consistent(s),
        s.add_fields(name, owner, fields, is_mut, scope, is_global).hashes <= usize::MAX,
    ensures
        consistent(s.add_fields(name, owner, fields, is_mut, scope, is_global)),
    decreases fields.len(),
{
    if fields.len() > 0 {
        let t = s.add_fields(name, owner, fields.drop_last(), is_mut, scope, is_global);
        lemma_add_fields_consistent(s, name, owner, fields.drop_last(), is_mut, scope, is_global);
        law_add_rap_keeps_consistent(
            t,
            ResourceAccessPoint::Struct(
                Struct {
                    name: dotted(name, fields.last()@),
                    hash: t.hashes as u64,
                    owner,
                    is_mut,
                    is_member: true,
                },
            ),
            scope,
            is_global,
        );
    }
}

proof fn lemma_add_struct_and_fields_consistent(
    s: State,
    name: Name,
    fields: Seq<String>,
    is_mut: bool,
    scope: usize,
    is_global: bool,
)
    requires
        consistent(s),
        s.add_struct_and_fields(name, fields, is_mut, scope, is_global).hashes <= usize::MAX,
    ensures
        consistent(s.add_struct_and_fields(name, fields, is_mut, scope, is_global)),
{
    let owner = s.hashes as u64;
    let t = s.add_struct(name, owner, false, is_mut, scope, is_global);
    lemma_add_fields_grows(t, name, owner, fields, is_mut, scope, is_global);
    law_add_rap_keeps_consistent(
        s,
        ResourceAccessPoint::Struct(Struct { name, hash: owner, owner, is_mut, is_member: false }),
        scope,
        is_global,
    );
    lemma_add_fields_consistent(t, name, owner, fields, is_mut, scope, is_global);
}

proof fn lemma_add_owner_consistent(
    s: State,
    name: Name,
    is_mut: bool,
    scope: usize,
    is_global: bool,
)
    requires
        consistent(s),
        s.hashes <= usize::MAX,
    ensures
        consistent(s.add_owner(name, is_mut, scope, is_global)),
{
    law_add_rap_keeps_consistent(
        s,
        ResourceAccessPoint::Owner(Owner { name, hash: s.hashes as u64, is_mut }),
        scope,
        is_global,
    );
}

/// Declaring a variable keeps the record consistent.
pub proof fn law_define_lhs_keeps_consistent(
    s: State,
    name: Name,
    is_mut: bool,
    expr: Expr,
    ty: Ty,
    scope: usize,
    is_global: bool,
)
    requires
        consistent(s),
        s.define_lhs(name, is_mut, expr, ty, scope, is_global).hashes <= usize::MAX,
    ensures
        consistent(s.define_lhs(name, is_mut, expr, ty, scope, is_global)),
{
    match ty.kind {
        TyKind::Ref { mutability } => {
            let (lender, aliasing) = ref_data(s.loans, expr);
            lemma_add_ref_consistent(
                s,
                name,
                spec_bool_of_mut(mutability),
                is_mut,
                expr.line,
                lender,
                aliasing,
                scope,
                is_global,
            );
        },
        TyKind::Adt { kind, fields } => {
            if !ty.is_special_owner && kind == AdtKind::Struct {
                lemma_add_struct_and_fields_consistent(
                    s,
                    name,
                    fields@,
                    is_mut,
                    scope,
                    is_global,
                );
            } else if ty.is_special_owner || kind == AdtKind::Enum {
                lemma_add_owner_consistent(s, name, is_mut, scope, is_global);
            }
        },
        TyKind::Fn { .. } => {},
        TyKind::Other => {
            lemma_add_owner_consistent(s, name, is_mut, scope, is_global);
        },
    }
}

/// Binding the variables of a pattern keeps the record consistent.
pub proof fn law_bind_all_keeps_consistent(
    s: State,
    bindings: Seq<Binding>,
    parent: ResourceTy<Name>,
    scope: usize,
)
    requires
        consistent(s),
        s.bind_all(bindings, parent, scope).hashes <= usize::MAX,
    ensures
        consistent(s.bind_all(bindings, parent, scope)),
    decreases bindings.len(),
{
    if bindings.len() > 0 {
        let b = bindings.last();
        let t = s.bind_all(bindings.drop_last(), parent, scope);
        lemma_bind_grows(t, b, parent, scope);
        law_bind_all_keeps_consistent(s, bindings.drop_last(), parent, scope);
        let is_mut = spec_bool_of_mut(b.mutability);
        match b.ty.kind {
            TyKind::Ref { mutability } => {
                lemma_add_ref_consistent(
                    t,
                    b.name@,
                    spec_bool_of_mut(mutability),
                    is_mut,
                    b.line,
                    parent,
                    Seq::empty(),
                    scope,
                    false,
                );
            },
            TyKind::Adt { kind: AdtKind::Struct, fields } => {
                lemma_add_struct_and_fields_consistent(t, b.name@, fields@, is_mut, scope, false);
            },
            _ => {
                lemma_add_owner_consistent(t, b.name@, is_mut, scope, false);
            },
        }
    }
}

/// Passing an argument keeps the record consistent.
pub proof fn law_match_arg_keeps_consistent(s: State, arg: Expr, fn_name: Name, scope: usize)
    requires
        consistent(s),
        s.can_match_arg(arg, fn_name, scope),
    ensures
        consistent(s.match_arg(arg, fn_name, scope)),
{
    let t = s.add_fn(fn_name, scope);
    law_add_rap_keeps_consistent(
        s,
        ResourceAccessPoint::Function(Function { name: fn_name, hash: s.hashes as u64 }),
        scope,
        true,
    );
    lemma_add_ev_consistent(
        t,
        arg.line,
        argument_evt(arg.ty),
        ResourceTy::Value(t.raps[fn_name].rap),
        arg.resource@,
        false,
    );
}

/// Going out of scope keeps the record consistent.
pub proof fn law_leave_scopes_keeps_consistent(s: State, names: Seq<Name>)
    requires
        consistent(s),
        s.leave_scopes(names).next_id <= usize::MAX,
    ensures
        consistent(s.leave_scopes(names)),
    decreases names.len(),
{
    if names.len() > 0 {
        law_leave_scopes_keeps_consistent(s, names.drop_last());
        let t = s.leave_scopes(names.drop_last());
        let name = names.last();
        if t.leaves(name) {
            law_add_event_keeps_consistent(
                t,
                t.raps[name].scope,
                ExternalEvent::GoOutOfScope { ro: t.raps[name].rap, id: t.next_id as usize },
            );
        }
    }
}

/// Loans have no part in it: taking over other lifetimes, or other aliases, keeps the record
/// consistent.
pub proof fn law_loans_do_not_matter(s: State, loans: Map<Name, Loan>)
    requires
        consistent(s),
    ensures
        consistent(State { loans, ..s }),
{
}

/// Ending loans keeps the record consistent.
pub proof fn law_end_loans_keeps_consistent(
    s: State,
    names: Seq<Name>,
    lenders: Seq<Seq<Seq<Name>>>,
    borrowers: Map<Name, usize>,
)
    requires
        consistent(s),
        forall|i: int|
            0 <= i < names.len() ==> s.can_end_loan(#[trigger] names[i], lenders, borrowers),
        s.next_id + names.len() <= usize::MAX,
    ensures
        consistent(s.end_loans(names, lenders, borrowers)),
    decreases names.len(),
{
    if names.len() > 0 {
        let rest = names.drop_last();
        assert forall|i: int| 0 <= i < rest.len() implies s.can_end_loan(
            #[trigger] rest[i],
            lenders,
            borrowers,
        ) by {
            assert(rest[i] == names[i]);
        }
        lemma_end_loans(s, rest, lenders, borrowers);
        law_end_loans_keeps_consistent(s, rest, lenders, borrowers);
        let t = s.end_loans(rest, lenders, borrowers);
        let name = names.last();
        assert(s.can_end_loan(names[names.len() - 1], lenders, borrowers));
        law_add_event_keeps_consistent(
            t,
            t.loans[name].lifetime,
            t.death_of(name, lenders, borrowers),
        );
    }
}

/// Ending all loans keeps the record consistent.
pub proof fn law_print_deaths_keeps_consistent(
    s: State,
    lenders: Seq<Seq<Seq<Name>>>,
    borrowers: Map<Name, usize>,
)
    requires
        consistent(s),
        s.can_print_deaths(lenders, borrowers),
        forall|k: Name| s.loans.contains_key(k) <==> #[trigger] s.borrowers.contains(k),
    ensures
        consistent(s.print_deaths(lenders, borrowers)),
{
    broadcast use group_to_multiset_ensures;

    let order = cascade(s.loans, s.borrowers);
    lemma_cascade(s.loans, s.borrowers);
    assert(order.len() == order.to_multiset().len());
    assert(order.len() == s.borrowers.len());
    assert forall|i: int| 0 <= i < order.len() implies s.can_end_loan(
        #[trigger] order[i],
        lenders,
        borrowers,
    ) by {
        assert(order.contains(order[i]));
        assert(order.to_multiset().count(order[i]) > 0);
        assert(s.borrowers.contains(order[i]));
    }
    law_end_loans_keeps_consistent(s, order, lenders, borrowers);
}

/// Assigning an expression leaves access points, lenders and aliases as they are. It moves
/// lifetimes and adds events after those that are there. They are numbered one after the other,
/// beginning with the next number, and none of them concerns a part of a resource only.
pub proof fn law_assigning_adds_events(s: State, steps: Seq<Step>)
    requires
        s.can_take(steps),
    ensures
        only_events_and_lifetimes(s, s.steps(steps)),
        s.steps(steps).next_id - s.next_id == s.steps(steps).events.len() - s.events.len(),
        forall|i: int|
            s.events.len() <= i < s.steps(steps).events.len() ==> (#[trigger] s.steps(
                steps,
            ).events[i]).1.spec_id() == s.next_id + i - s.events.len(),
        forall|i: int|
            s.events.len() <= i < s.steps(steps).events.len() ==> !(#[trigger] s.steps(
                steps,
            ).events[i]).1.spec_is_partial(),
    decreases steps.len(),
{
    lemma_steps(s, steps);
    if steps.len() > 0 {
        let rest = steps.drop_last();
        let last = steps.last();
        assert(rest + seq![last] =~= steps);
        lemma_can_take(s, rest, seq![last]);
        law_assigning_adds_events(s, rest);
        lemma_one_step(s.steps(rest), last);
        let t = s.steps(rest);
        let u = s.steps(steps);
        assert forall|i: int| s.events.len() <= i < u.events.len() implies (
        #[trigger] u.events[i]).1.spec_id() == s.next_id + i - s.events.len()
            && !u.events[i].1.spec_is_partial() by {
            if i < t.events.len() {
                assert(u.events[i] == t.events[i]);
            }
        }
    }
}

} // verus!
