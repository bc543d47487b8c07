//! What the entries of the record say, and what a single operation adds to it.

use crate::aliases::Loan;
use crate::data::{
    ExternalEvent, Function, MutRef, Name, Owner, ResourceAccessPoint, ResourceTy, StaticRef,
    Struct,
};
use crate::declare::bound_view;
use crate::expr_visitor::{
    events_view, names_view, placed_events_view, Evt, ExprVisitor, RapData, RefData,
};
use crate::hir::Ty;
use crate::lifetimes::regions_view;
use crate::state::{event_of, State};
use vstd::prelude::*;
use vstd::std_specs::cmp::PartialEqSpec;

verus! {

/// The record after an event has been added to a line under the next number.
pub open spec fn recorded(s: State, line: usize, event: ExternalEvent<Name>) -> State {
    State { next_id: s.next_id + 1, ..s.add_external_event(line, event) }
}

/// Contracts see of a visitor all that it holds.
pub proof fn law_record_shows_visitor(v: &ExprVisitor)
    ensures
        v@.loans == v.borrow_map@,
        v@.borrowers == v.borrow_map.names(),
        v@.raps == v.raps@,
        v@.rap_names == v.raps.names(),
        v@.hashes == v.rap_hashes,
        v@.next_id == v.unique_id,
        v@.events.len() == v.preprocessed_events@.len(),
        forall|i: int|
            0 <= i < v@.events.len() ==> (#[trigger] v@.events[i]).0 == v.preprocessed_events@[i].0
                && v@.events[i].1 == v.preprocessed_events@[i].1@,
        forall|l: usize| #[trigger]
            v@.lines.contains_key(l) <==> v.event_line_map@.contains_key(l),
        forall|l: usize| #[trigger]
            v@.lines.contains_key(l) ==> v@.lines[l].len() == v.event_line_map@[l]@.len(),
        forall|l: usize, i: int|
            #![trigger v@.lines[l][i]]
            v@.lines.contains_key(l) && 0 <= i < v@.lines[l].len() ==> v@.lines[l][i]
                == v.event_line_map@[l]@[i]@,
{
}

/// What is no part of the record is the same wherever two visitors have the same setting.
pub proof fn law_setting_is_the_rest(v: &ExprVisitor, w: &ExprVisitor)
    requires
        v.same_setting(w),
    ensures
        v.current_scope == w.current_scope,
        v.analysis_result == w.analysis_result,
        v.source_map == w.source_map,
        v.annotated_lines == w.annotated_lines,
        v.id_map == w.id_map,
        v.inside_branch == w.inside_branch,
        v.fn_ret == w.fn_ret,
{
}

/// Contracts see of a loan and of an access point all that they hold.
pub proof fn law_entries_show_their_parts(loan: RefData, rap: RapData)
    ensures
        loan@.lender == loan.lender@,
        loan@.assigned_at == loan.assigned_at,
        loan@.lifetime == loan.lifetime,
        loan@.ref_mutability == loan.ref_mutability,
        loan@.aliasing.len() == loan.aliasing@.len(),
        forall|i: int|
            0 <= i < loan@.aliasing.len() ==> #[trigger] loan@.aliasing[i] == loan.aliasing@[i]@,
        rap@.rap == rap.rap@,
        rap@.scope == rap.scope,
        rap@.is_global == rap.is_global,
{
}

/// Lists are seen entry by entry, in their order.
pub proof fn law_lists_show_their_entries(
    names: Seq<String>,
    events: Seq<ExternalEvent>,
    placed: Seq<(usize, ExternalEvent)>,
    bound: Seq<(ResourceAccessPoint, Evt, &Ty)>,
    lenders: Seq<Vec<Vec<String>>>,
)
    ensures
        names_view(names).len() == names.len(),
        forall|i: int| 0 <= i < names.len() ==> #[trigger] names_view(names)[i] == names[i]@,
        events_view(events).len() == events.len(),
        forall|i: int| 0 <= i < events.len() ==> #[trigger] events_view(events)[i] == events[i]@,
        placed_events_view(placed).len() == placed.len(),
        forall|i: int|
            0 <= i < placed.len() ==> #[trigger] placed_events_view(placed)[i] == (
                placed[i].0,
                placed[i].1@,
            ),
        bound_view(bound).len() == bound.len(),
        forall|i: int|
            0 <= i < bound.len() ==> #[trigger] bound_view(bound)[i] == (
                bound[i].0@,
                bound[i].1,
                *bound[i].2,
            ),
        regions_view(lenders).len() == lenders.len(),
        forall|l: int|
            0 <= l < lenders.len() ==> (#[trigger] regions_view(lenders)[l]).len()
                == lenders[l]@.len(),
        forall|l: int, j: int|
            #![trigger regions_view(lenders)[l][j]]
            0 <= l < lenders.len() && 0 <= j < lenders[l]@.len() ==> regions_view(lenders)[l][j]
                == names_view(lenders[l]@[j]@),
{
}

/// An access point is seen by its variant and everything in it; two of them are equal where they
/// look the same.
pub proof fn law_access_points_show_their_parts(
    o: Owner,
    st: Struct,
    m: MutRef,
    r: StaticRef,
    f: Function,
    a: ResourceAccessPoint,
    b: ResourceAccessPoint,
)
    ensures
        ResourceAccessPoint::Owner(o)@ == ResourceAccessPoint::Owner(
            Owner { name: o.name@, hash: o.hash, is_mut: o.is_mut },
        ),
        ResourceAccessPoint::Struct(st)@ == ResourceAccessPoint::Struct(
            Struct {
                name: st.name@,
                hash: st.hash,
                owner: st.owner,
                is_mut: st.is_mut,
                is_member: st.is_member,
            },
        ),
        ResourceAccessPoint::MutRef(m)@ == ResourceAccessPoint::MutRef(
            MutRef { name: m.name@, hash: m.hash, is_mut: m.is_mut },
        ),
        ResourceAccessPoint::StaticRef(r)@ == ResourceAccessPoint::StaticRef(
            StaticRef { name: r.name@, hash: r.hash, is_mut: r.is_mut },
        ),
        ResourceAccessPoint::Function(f)@ == ResourceAccessPoint::Function(
            Function { name: f.name@, hash: f.hash },
        ),
        a.eq_spec(&b) <==> a@ == b@,
{
}

/// An access point goes by its name, carries its number, and is a reference if it is one of the
/// two kinds of reference.
pub proof fn law_access_points_have_names(
    o: Owner<Name>,
    st: Struct<Name>,
    m: MutRef<Name>,
    r: StaticRef<Name>,
    f: Function<Name>,
)
    ensures
        ResourceAccessPoint::Owner(o).spec_name() == o.name,
        ResourceAccessPoint::Struct(st).spec_name() == st.name,
        ResourceAccessPoint::MutRef(m).spec_name() == m.name,
        ResourceAccessPoint::StaticRef(r).spec_name() == r.name,
        ResourceAccessPoint::Function(f).spec_name() == f.name,
        ResourceAccessPoint::Owner(o).spec_hash() == o.hash,
        ResourceAccessPoint::Struct(st).spec_hash() == st.hash,
        ResourceAccessPoint::MutRef(m).spec_hash() == m.hash,
        ResourceAccessPoint::StaticRef(r).spec_hash() == r.hash,
        ResourceAccessPoint::Function(f).spec_hash() == f.hash,
        !ResourceAccessPoint::Owner(o).spec_is_ref(),
        !ResourceAccessPoint::Struct(st).spec_is_ref(),
        ResourceAccessPoint::MutRef(m).spec_is_ref(),
        ResourceAccessPoint::StaticRef(r).spec_is_ref(),
        !ResourceAccessPoint::Function(f).spec_is_ref(),
{
}

/// A resource is seen by its variant and the access point in it; two of them are equal where they
/// look the same.
pub proof fn law_resources_show_their_parts(
    r: ResourceAccessPoint,
    n: ResourceAccessPoint<Name>,
    a: ResourceTy,
    b: ResourceTy,
)
    ensures
        ResourceTy::<String>::Anonymous@ == ResourceTy::<Name>::Anonymous,
        ResourceTy::<String>::Caller@ == ResourceTy::<Name>::Caller,
        ResourceTy::Value(r)@ == ResourceTy::Value(r@),
        ResourceTy::Deref(r)@ == ResourceTy::Deref(r@),
        ResourceTy::Value(n).spec_rap() == Some(n),
        ResourceTy::Deref(n).spec_rap() == Some(n),
        ResourceTy::<Name>::Anonymous.spec_rap() is None,
        ResourceTy::<Name>::Caller.spec_rap() is None,
        a.eq_spec(&b) <==> a@ == b@,
{
}

/// An event is seen by its variant and everything in it.
pub proof fn law_events_show_their_parts(
    from: ResourceTy,
    to: ResourceTy,
    ro: ResourceAccessPoint,
    id: usize,
    is_partial: bool,
    num_curr_borrowers: usize,
)
    ensures
        (ExternalEvent::Bind { from, to, id })@ == (ExternalEvent::Bind {
            from: from@,
            to: to@,
            id,
        }),
        (ExternalEvent::Copy { from, to, id, is_partial })@ == (ExternalEvent::Copy {
            from: from@,
            to: to@,
            id,
            is_partial,
        }),
        (ExternalEvent::Move { from, to, id, is_partial })@ == (ExternalEvent::Move {
            from: from@,
            to: to@,
            id,
            is_partial,
        }),
        (ExternalEvent::StaticBorrow { from, to, id, is_partial })@ == (
        ExternalEvent::StaticBorrow { from: from@, to: to@, id, is_partial }),
        (ExternalEvent::MutableBorrow { from, to, id, is_partial })@ == (
        ExternalEvent::MutableBorrow { from: from@, to: to@, id, is_partial }),
        (ExternalEvent::StaticDie { from, to, id })@ == (ExternalEvent::StaticDie {
            from: from@,
            to: to@,
            id,
        }),
        (ExternalEvent::MutableDie { from, to, id })@ == (ExternalEvent::MutableDie {
            from: from@,
            to: to@,
            id,
        }),
        (ExternalEvent::RefDie { from, to, num_curr_borrowers, id })@ == (ExternalEvent::RefDie {
            from: from@,
            to: to@,
            num_curr_borrowers,
            id,
        }),
        (ExternalEvent::PassByStaticReference { from, to, id })@ == (
        ExternalEvent::PassByStaticReference { from: from@, to: to@, id }),
        (ExternalEvent::PassByMutableReference { from, to, id })@ == (
        ExternalEvent::PassByMutableReference { from: from@, to: to@, id }),
        (ExternalEvent::GoOutOfScope { ro, id })@ == (ExternalEvent::GoOutOfScope { ro: ro@, id }),
{
}

/// The resource of an event comes from the right-hand side and goes to the left-hand side, and
/// each kind of happening has an event of its own.
pub proof fn law_each_happening_has_its_event(
    lhs: ResourceTy<Name>,
    rhs: ResourceTy<Name>,
    id: usize,
    is_partial: bool,
)
    ensures
        event_of(Evt::Bind, lhs, rhs, id, is_partial) == (ExternalEvent::Bind {
            from: rhs,
            to: lhs,
            id,
        }),
        event_of(Evt::Copy, lhs, rhs, id, is_partial) == (ExternalEvent::Copy {
            from: rhs,
            to: lhs,
            id,
            is_partial,
        }),
        event_of(Evt::Move, lhs, rhs, id, is_partial) == (ExternalEvent::Move {
            from: rhs,
            to: lhs,
            id,
            is_partial,
        }),
        event_of(Evt::SBorrow, lhs, rhs, id, is_partial) == (ExternalEvent::StaticBorrow {
            from: rhs,
            to: lhs,
            id,
            is_partial,
        }),
        event_of(Evt::MBorrow, lhs, rhs, id, is_partial) == (ExternalEvent::MutableBorrow {
            from: rhs,
            to: lhs,
            id,
            is_partial,
        }),
        event_of(Evt::SDie, lhs, rhs, id, is_partial) == (ExternalEvent::StaticDie {
            from: rhs,
            to: lhs,
            id,
        }),
        event_of(Evt::MDie, lhs, rhs, id, is_partial) == (ExternalEvent::MutableDie {
            from: rhs,
            to: lhs,
            id,
        }),
        event_of(Evt::PassBySRef, lhs, rhs, id, is_partial) == (
        ExternalEvent::PassByStaticReference { from: rhs, to: lhs, id }),
        event_of(Evt::PassByMRef, lhs, rhs, id, is_partial) == (
        ExternalEvent::PassByMutableReference { from: rhs, to: lhs, id }),
{
}

/// The same of an event whose names are strings.
pub proof fn law_each_happening_has_its_event_by_string(
    lhs: ResourceTy,
    rhs: ResourceTy,
    id: usize,
    is_partial: bool,
    evt: Evt,
)
    ensures
        event_of(evt, lhs, rhs, id, is_partial)@ == event_of(evt, lhs@, rhs@, id, is_partial),
{
}

/// A variable, or what is reached through one: no function, and no resource without a name.
pub open spec fn is_variable(r: ResourceTy<Name>) -> bool {
    match r {
        ResourceTy::Value(ResourceAccessPoint::Function(_)) => false,
        ResourceTy::Value(_) => true,
        ResourceTy::Deref(_) => true,
        ResourceTy::Anonymous => false,
        ResourceTy::Caller => false,
    }
}

/// `event` between `from` and `to` has been added to a line: it is the last of all events, and the
/// last on its line too if both ends are variables.
pub open spec fn shown_between(
    s: State,
    line: usize,
    event: ExternalEvent<Name>,
    from: ResourceTy<Name>,
    to: ResourceTy<Name>,
) -> bool {
    let t = s.add_external_event(line, event);
    &&& event.ends() == (from, to)
    &&& t.events == s.events.push((line, event))
    &&& t.lines == if is_variable(from) && is_variable(to) {
        s.lines.insert(line, s.lines[line].push(event))
    } else {
        s.lines
    }
    &&& t == (State { events: t.events, lines: t.lines, ..s })
    &&& s.can_add_event(line, event) <==> (is_variable(from) && is_variable(to)
        ==> s.lines.contains_key(line))
}

/// An event is added after all others, and is drawn on its line exactly if it is an exchange
/// between two variables. The end of a scope is never drawn.
pub proof fn law_exchanges_between_variables_are_drawn(
    s: State,
    line: usize,
    from: ResourceTy<Name>,
    to: ResourceTy<Name>,
    ro: ResourceAccessPoint<Name>,
    id: usize,
    is_partial: bool,
    num_curr_borrowers: usize,
)
    ensures
        shown_between(s, line, ExternalEvent::Bind { from, to, id }, from, to),
        shown_between(s, line, ExternalEvent::Copy { from, to, id, is_partial }, from, to),
        shown_between(s, line, ExternalEvent::Move { from, to, id, is_partial }, from, to),
        shown_between(s, line, ExternalEvent::StaticBorrow { from, to, id, is_partial }, from, to),
        shown_between(s, line, ExternalEvent::MutableBorrow { from, to, id, is_partial }, from, to),
        shown_between(s, line, ExternalEvent::StaticDie { from, to, id }, from, to),
        shown_between(s, line, ExternalEvent::MutableDie { from, to, id }, from, to),
        shown_between(
            s,
            line,
            ExternalEvent::RefDie { from, to, num_curr_borrowers, id },
            from,
            to,
        ),
        shown_between(s, line, ExternalEvent::PassByStaticReference { from, to, id }, from, to),
        shown_between(s, line, ExternalEvent::PassByMutableReference { from, to, id }, from, to),
        s.add_external_event(line, ExternalEvent::GoOutOfScope { ro, id }) == (State {
            events: s.events.push((line, ExternalEvent::GoOutOfScope { ro, id })),
            ..s
        }),
        s.can_add_event(line, ExternalEvent::GoOutOfScope { ro, id }),
{
}

/// Every event carries the number that it was made with, only four kinds can concern a part of a
/// resource, and an event ends a scope exactly if it is the end of that access point's scope.
pub proof fn law_events_carry_their_numbers(
    from: ResourceTy<Name>,
    to: ResourceTy<Name>,
    ro: ResourceAccessPoint<Name>,
    other: ResourceAccessPoint<Name>,
    id: usize,
    p: bool,
    n: usize,
)
    ensures
        (ExternalEvent::Bind { from, to, id }).spec_id() == id,
        (ExternalEvent::Copy { from, to, id, is_partial: p }).spec_id() == id,
        (ExternalEvent::Move { from, to, id, is_partial: p }).spec_id() == id,
        (ExternalEvent::StaticBorrow { from, to, id, is_partial: p }).spec_id() == id,
        (ExternalEvent::MutableBorrow { from, to, id, is_partial: p }).spec_id() == id,
        (ExternalEvent::StaticDie { from, to, id }).spec_id() == id,
        (ExternalEvent::MutableDie { from, to, id }).spec_id() == id,
        (ExternalEvent::RefDie { from, to, num_curr_borrowers: n, id }).spec_id() == id,
        (ExternalEvent::PassByStaticReference { from, to, id }).spec_id() == id,
        (ExternalEvent::PassByMutableReference { from, to, id }).spec_id() == id,
        (ExternalEvent::GoOutOfScope { ro, id }).spec_id() == id,
        (ExternalEvent::Copy { from, to, id, is_partial: p }).spec_is_partial() == p,
        (ExternalEvent::Move { from, to, id, is_partial: p }).spec_is_partial() == p,
        (ExternalEvent::StaticBorrow { from, to, id, is_partial: p }).spec_is_partial() == p,
        (ExternalEvent::MutableBorrow { from, to, id, is_partial: p }).spec_is_partial() == p,
        (ExternalEvent::GoOutOfScope { ro, id }).ends_scope_of(other) <==> ro == other,
        !(ExternalEvent::Bind { from, to, id }).ends_scope_of(ro),
        !(ExternalEvent::StaticDie { from, to, id }).ends_scope_of(ro),
        !(ExternalEvent::MutableDie { from, to, id }).ends_scope_of(ro),
        !(ExternalEvent::RefDie { from, to, num_curr_borrowers: n, id }).ends_scope_of(ro),
        !(ExternalEvent::Move { from, to, id, is_partial: p }).ends_scope_of(ro),
        !(ExternalEvent::Copy { from, to, id, is_partial: p }).ends_scope_of(ro),
        !(ExternalEvent::StaticBorrow { from, to, id, is_partial: p }).ends_scope_of(ro),
        !(ExternalEvent::MutableBorrow { from, to, id, is_partial: p }).ends_scope_of(ro),
        !(ExternalEvent::PassByStaticReference { from, to, id }).ends_scope_of(ro),
        !(ExternalEvent::PassByMutableReference { from, to, id }).ends_scope_of(ro),
        !(ExternalEvent::Bind { from, to, id }).spec_is_partial(),
        !(ExternalEvent::StaticDie { from, to, id }).spec_is_partial(),
        !(ExternalEvent::MutableDie { from, to, id }).spec_is_partial(),
        !(ExternalEvent::RefDie { from, to, num_curr_borrowers: n, id }).spec_is_partial(),
        !(ExternalEvent::PassByStaticReference { from, to, id }).spec_is_partial(),
        !(ExternalEvent::PassByMutableReference { from, to, id }).spec_is_partial(),
        !(ExternalEvent::GoOutOfScope { ro, id }).spec_is_partial(),
{
}

/// An event for a happening is added under the next number, which then is used up.
pub proof fn law_happening_takes_next_number(
    s: State,
    line: usize,
    evt: Evt,
    lhs: ResourceTy<Name>,
    rhs: ResourceTy<Name>,
    is_partial: bool,
)
    ensures
        s.add_ev(line, evt, lhs, rhs, is_partial) == recorded(
            s,
            line,
            event_of(evt, lhs, rhs, s.next_id as usize, is_partial),
        ),
        s.can_add_ev(line, evt, lhs, rhs, is_partial) <==> (is_variable(lhs) && is_variable(rhs)
            ==> s.lines.contains_key(line)),
{
}

/// `rap` has been added under `name`, unless there was an access point of that name.
pub open spec fn entered(
    s: State,
    t: State,
    name: Name,
    rap: ResourceAccessPoint<Name>,
    scope: usize,
    is_global: bool,
) -> bool {
    t == if s.raps.contains_key(name) {
        s
    } else {
        State {
            raps: s.raps.insert(name, RapData { rap, scope, is_global }),
            rap_names: s.rap_names.push(name),
            hashes: s.hashes + 1,
            ..s
        }
    }
}

/// What is added is of the kind that is asked for, carries the next number and is stored under its
/// name, with its scope and branch. A function belongs to no branch. A name that is taken keeps
/// what it has.
pub proof fn law_access_points_are_entered_by_name(
    s: State,
    name: Name,
    is_mut: bool,
    scope: usize,
    is_global: bool,
    owner: u64,
    is_member: bool,
)
    ensures
        ({
            let hash = s.hashes as u64;
            &&& entered(
                s,
                s.add_owner(name, is_mut, scope, is_global),
                name,
                ResourceAccessPoint::Owner(Owner { name, hash, is_mut }),
                scope,
                is_global,
            )
            &&& entered(
                s,
                s.add_static_ref(name, is_mut, scope, is_global),
                name,
                ResourceAccessPoint::StaticRef(StaticRef { name, hash, is_mut }),
                scope,
                is_global,
            )
            &&& entered(
                s,
                s.add_mut_ref(name, is_mut, scope, is_global),
                name,
                ResourceAccessPoint::MutRef(MutRef { name, hash, is_mut }),
                scope,
                is_global,
            )
            &&& entered(
                s,
                s.add_fn(name, scope),
                name,
                ResourceAccessPoint::Function(Function { name, hash }),
                scope,
                true,
            )
            &&& entered(
                s,
                s.add_struct(name, owner, is_member, is_mut, scope, is_global),
                name,
                ResourceAccessPoint::Struct(Struct { name, hash, owner, is_mut, is_member }),
                scope,
                is_global,
            )
        }),
{
}

/// Any access point is stored under its own name.
pub proof fn law_access_point_is_entered_as_it_is(
    s: State,
    r: ResourceAccessPoint<Name>,
    scope: usize,
    is_global: bool,
)
    ensures
        entered(s, s.add_rap(r, scope, is_global), r.spec_name(), r, scope, is_global),
{
}

/// A reference is added as what it is, mutable or shared, together with a loan that begins and so
/// far ends on its line. The loan takes the place of one that the name may have had.
pub proof fn law_reference_comes_with_its_loan(
    s: State,
    name: Name,
    ref_mutability: bool,
    is_mut: bool,
    line: usize,
    lender: ResourceTy<Name>,
    aliasing: Seq<Name>,
    scope: usize,
    is_global: bool,
)
    ensures
        ({
            let t = s.add_ref(
                name,
                ref_mutability,
                is_mut,
                line,
                lender,
                aliasing,
                scope,
                is_global,
            );
            &&& t.loans == s.loans.insert(
                name,
                Loan { lender, assigned_at: line, lifetime: line, ref_mutability, aliasing },
            )
            &&& t.borrowers == if s.loans.contains_key(name) {
                s.borrowers
            } else {
                s.borrowers.push(name)
            }
            &&& ref_mutability ==> entered(
                s,
                State { loans: s.loans, borrowers: s.borrowers, ..t },
                name,
                ResourceAccessPoint::MutRef(MutRef { name, hash: s.hashes as u64, is_mut }),
                scope,
                is_global,
            )
            &&& !ref_mutability ==> entered(
                s,
                State { loans: s.loans, borrowers: s.borrowers, ..t },
                name,
                ResourceAccessPoint::StaticRef(StaticRef { name, hash: s.hashes as u64, is_mut }),
                scope,
                is_global,
            )
        }),
{
}

/// A use moves the lifetime of a reference, and of nothing else.
pub proof fn law_only_references_are_kept_alive(
    s: State,
    o: Owner<Name>,
    st: Struct<Name>,
    m: MutRef<Name>,
    r: StaticRef<Name>,
    f: Function<Name>,
    line: usize,
)
    ensures
        s.update_rap(ResourceAccessPoint::MutRef(m), line) == s.update_lifetime(m.name, line),
        s.update_rap(ResourceAccessPoint::StaticRef(r), line) == s.update_lifetime(r.name, line),
        s.update_rap(ResourceAccessPoint::Owner(o), line) == s,
        s.update_rap(ResourceAccessPoint::Struct(st), line) == s,
        s.update_rap(ResourceAccessPoint::Function(f), line) == s,
        s.can_update_rap(ResourceAccessPoint::Owner(o)),
        s.can_update_rap(ResourceAccessPoint::Struct(st)),
        s.can_update_rap(ResourceAccessPoint::Function(f)),
{
}

} // verus!
