//! The events that end scopes and loans.

use crate::aliases::Loan;
use crate::data::{ExternalEvent, Name, ResourceAccessPoint, ResourceTy};
use crate::expr_visitor::ExprVisitor;
use crate::laws::recording::recorded;
use crate::lifetimes::{
    cascade, first_kill, is_ultimate, leader, lemma_cascade, lemma_end_loans, longest,
};
use crate::scopes::{has_left, lemma_leave_scopes};
use crate::state::State;
use vstd::prelude::*;
use vstd::seq_lib::group_to_multiset_ensures;

verus! {

/// How many events say that `rap` goes out of scope.
pub open spec fn times_left(
    events: Seq<(usize, ExternalEvent<Name>)>,
    rap: ResourceAccessPoint<Name>,
) -> nat
    decreases events.len(),
{
    if events.len() == 0 {
        0
    } else {
        times_left(events.drop_last(), rap) + if events.last().1.ends_scope_of(rap) {
            1nat
        } else {
            0
        }
    }
}

proof fn lemma_times_left(
    events: Seq<(usize, ExternalEvent<Name>)>,
    rap: ResourceAccessPoint<Name>,
)
    ensures
        times_left(events, rap) > 0 <==> has_left(events, rap),
    decreases events.len(),
{
    if events.len() > 0 {
        let rest = events.drop_last();
        lemma_times_left(rest, rap);
        if has_left(rest, rap) {
            let i = choose|i: int| 0 <= i < rest.len() && (#[trigger] rest[i]).1.ends_scope_of(rap);
            assert(events[i] == rest[i]);
        }
        if events.last().1.ends_scope_of(rap) {
            assert(events[events.len() - 1].1.ends_scope_of(rap));
        }
        if has_left(events, rap) {
            let i = choose|i: int|
                0 <= i < events.len() && (#[trigger] events[i]).1.ends_scope_of(rap);
            if i < rest.len() {
                assert(rest[i] == events[i]);
            }
        }
    }
}

/// An access point that has an event for the end of its scope gets no second one. One that has
/// none gets a single one exactly if it is among those that are looked at, is no function and
/// belongs to no branch.
pub proof fn law_scopes_end_once(s: State, names: Seq<Name>, rap: ResourceAccessPoint<Name>)
    ensures
        times_left(s.events, rap) >= 1 ==> times_left(s.leave_scopes(names).events, rap)
            == times_left(s.events, rap),
        times_left(s.events, rap) == 0 ==> times_left(s.leave_scopes(names).events, rap) == (if exists|
            i: int,
        |
            0 <= i < names.len() && s.raps[#[trigger] names[i]].rap == rap
                && s.raps[names[i]].is_global && !(rap is Function) {
            1nat
        } else {
            0
        }),
    decreases names.len(),
{
    if names.len() > 0 {
        let rest = names.drop_last();
        law_scopes_end_once(s, rest, rap);
        lemma_leave_scopes(s, rest);
        let t = s.leave_scopes(rest);
        let u = s.leave_scopes(names);
        lemma_times_left(t.events, rap);
        lemma_times_left(s.events, rap);
        let last = names.last();
        assert(s.raps[last] == t.raps[last]);
        if t.leaves(last) {
            assert(u.events.drop_last() =~= t.events);
        }
        if times_left(s.events, rap) == 0 {
            if exists|i: int|
                0 <= i < rest.len() && s.raps[#[trigger] rest[i]].rap == rap
                    && s.raps[rest[i]].is_global && !(rap is Function) {
                let i = choose|i: int|
                    0 <= i < rest.len() && s.raps[#[trigger] rest[i]].rap == rap
                        && s.raps[rest[i]].is_global && !(rap is Function);
                assert(names[i] == rest[i]);
            } else {
                assert forall|i: int| 0 <= i < names.len() - 1 implies !(s.raps[
                #[trigger] names[i]].rap == rap && s.raps[names[i]].is_global && !(
                rap is Function)) by {
                    assert(rest[i] == names[i]);
                }
                assert(names[names.len() - 1] == last);
            }
        }
    }
}

/// After the scopes have ended, ending them again adds nothing.
pub proof fn law_leaving_twice_adds_nothing(s: State, names: Seq<Name>)
    ensures
        s.leave_scopes(names).leave_scopes(names) == s.leave_scopes(names),
{
    let t = s.leave_scopes(names);
    lemma_leave_scopes(s, names);
    assert forall|i: int| 0 <= i < names.len() implies !t.leaves(#[trigger] names[i]) by {
        let rap = s.raps[names[i]].rap;
        law_scopes_end_once(s, names, rap);
        lemma_times_left(t.events, rap);
        lemma_times_left(s.events, rap);
    }
    lemma_leave_none(t, names);
}

proof fn lemma_leave_none(s: State, names: Seq<Name>)
    requires
        forall|i: int| 0 <= i < names.len() ==> !s.leaves(#[trigger] names[i]),
    ensures
        s.leave_scopes(names) == s,
    decreases names.len(),
{
    if names.len() > 0 {
        let rest = names.drop_last();
        assert forall|i: int| 0 <= i < rest.len() implies !s.leaves(#[trigger] rest[i]) by {
            assert(rest[i] == names[i]);
        }
        lemma_leave_none(s, rest);
        assert(!s.leaves(names[names.len() - 1]));
    }
}

/// The event ends the scope of one of the access points, on the line where that scope ends. The
/// access point is no function and belongs to no branch.
pub open spec fn ends_a_scope(
    s: State,
    names: Seq<Name>,
    placed: (usize, ExternalEvent<Name>),
    id: int,
) -> bool {
    exists|n: int|
        0 <= n < names.len() && s.raps[#[trigger] names[n]].is_global && !(
        s.raps[names[n]].rap is Function) && placed.0 == s.raps[names[n]].scope && placed.1 == (
        ExternalEvent::GoOutOfScope { ro: s.raps[names[n]].rap, id: id as usize })
}

/// Each event that ending scopes adds ends the scope of one of the access points that are looked
/// at, and carries the next number. Nothing but events is added, and none of them is drawn.
pub proof fn law_scope_events_stand_where_scopes_end(s: State, names: Seq<Name>)
    ensures
        ({
            let t = s.leave_scopes(names);
            &&& t == (State { events: t.events, next_id: t.next_id, ..s })
            &&& t.next_id == s.next_id + t.events.len() - s.events.len()
            &&& s.events.is_prefix_of(t.events)
            &&& forall|i: int|
                s.events.len() <= i < t.events.len() ==> ends_a_scope(
                    s,
                    names,
                    #[trigger] t.events[i],
                    s.next_id + i - s.events.len(),
                )
        }),
    decreases names.len(),
{
    lemma_leave_scopes(s, names);
    if names.len() > 0 {
        let rest = names.drop_last();
        law_scope_events_stand_where_scopes_end(s, rest);
        lemma_leave_scopes(s, rest);
        let t = s.leave_scopes(rest);
        let u = s.leave_scopes(names);
        assert forall|i: int| s.events.len() <= i < u.events.len() implies ends_a_scope(
            s,
            names,
            #[trigger] u.events[i],
            s.next_id + i - s.events.len(),
        ) by {
            if i < t.events.len() {
                assert(u.events[i] == t.events[i]);
                assert(ends_a_scope(s, rest, t.events[i], s.next_id + i - s.events.len()));
                let n = choose|n: int|
                    0 <= n < rest.len() && s.raps[#[trigger] rest[n]].is_global && !(
                    s.raps[rest[n]].rap is Function) && t.events[i].0 == s.raps[rest[n]].scope
                        && t.events[i].1 == (ExternalEvent::GoOutOfScope {
                        ro: s.raps[rest[n]].rap,
                        id: (s.next_id + i - s.events.len()) as usize,
                    });
                assert(names[n] == rest[n]);
            } else {
                assert(names[names.len() - 1] == names.last());
            }
        }
    }
}

/// A visitor lists each of its loans and each of its access points once.
pub proof fn law_lists_are_complete(v: &ExprVisitor)
    requires
        v.borrow_map.wf(),
        v.raps.wf(),
    ensures
        v@.borrowers.no_duplicates(),
        forall|k: Name| v@.loans.contains_key(k) <==> #[trigger] v@.borrowers.contains(k),
        v@.rap_names.no_duplicates(),
        forall|k: Name| v@.raps.contains_key(k) <==> #[trigger] v@.rap_names.contains(k),
{
    v.borrow_map.lemma_names();
    v.raps.lemma_names();
}

/// Every loan is ended by one event, on the last line of its lifetime, and nothing but loans is
/// ended. Those with the most aliases come first. The event goes from the borrower to its lender,
/// or, where the lender has no name, to what the borrower refers to. A reference dies without
/// giving its resource back, leaving the other borrowers behind, exactly if it is not ultimate.
pub proof fn law_every_loan_ends_once(
    s: State,
    lenders: Seq<Seq<Seq<Name>>>,
    borrowers: Map<Name, usize>,
)
    requires
        s.can_print_deaths(lenders, borrowers),
        s.borrowers.no_duplicates(),
        forall|k: Name| s.loans.contains_key(k) <==> #[trigger] s.borrowers.contains(k),
    ensures
        ({
            let order = cascade(s.loans, s.borrowers);
            let t = s.print_deaths(lenders, borrowers);
            &&& order.no_duplicates()
            &&& forall|i: int, j: int|
                0 <= i < j < order.len() ==> s.loans[#[trigger] order[i]].aliasing.len()
                    >= s.loans[#[trigger] order[j]].aliasing.len()
            &&& forall|k: Name| s.loans.contains_key(k) <==> #[trigger] order.contains(k)
            &&& t == (State { events: t.events, lines: t.lines, next_id: t.next_id, ..s })
            &&& t.next_id == s.next_id + order.len()
            &&& t.events.len() == s.events.len() + order.len()
            &&& t.events.take(s.events.len() as int) == s.events
            &&& forall|i: int| #![trigger order[i]]
                0 <= i < order.len() ==> {
                    let placed = t.events[s.events.len() + i];
                    let rap = s.raps[order[i]].rap;
                    let from = ResourceTy::Value(rap);
                    let to = if s.loans[order[i]].lender == ResourceTy::<Name>::Anonymous {
                        ResourceTy::Deref(rap)
                    } else {
                        s.loans[order[i]].lender
                    };
                    let id = (s.next_id + i) as usize;
                    &&& placed.0 == s.loans[order[i]].lifetime
                    &&& placed.1.ends() == (from, to)
                    &&& placed.1.spec_id() == s.next_id + i
                    &&& !is_ultimate(s.loans, lenders, order[i]) ==> placed.1
                        == (ExternalEvent::RefDie {
                        from,
                        to,
                        num_curr_borrowers: (borrowers[rap.spec_name()] - 1) as usize,
                        id,
                    })
                    &&& is_ultimate(s.loans, lenders, order[i]) && s.loans[order[i]].ref_mutability
                        ==> placed.1 == (ExternalEvent::MutableDie { from, to, id })
                    &&& is_ultimate(s.loans, lenders, order[i]) && !s.loans[order[i]].ref_mutability
                        ==> placed.1 == (ExternalEvent::StaticDie { from, to, id })
                }
        }),
{
    broadcast use group_to_multiset_ensures;

    let order = cascade(s.loans, s.borrowers);
    lemma_cascade(s.loans, s.borrowers);
    s.borrowers.lemma_multiset_has_no_duplicates();
    assert(order.to_multiset() == s.borrowers.to_multiset());
    order.lemma_multiset_has_no_duplicates_conv();
    assert forall|k: Name| s.loans.contains_key(k) <==> #[trigger] order.contains(k) by {
        assert(order.contains(k) <==> order.to_multiset().count(k) > 0);
        assert(s.borrowers.contains(k) <==> s.borrowers.to_multiset().count(k) > 0);
    }
    assert(order.len() == order.to_multiset().len());
    assert(order.len() == s.borrowers.len());
    assert forall|i: int| 0 <= i < order.len() implies s.can_end_loan(
        #[trigger] order[i],
        lenders,
        borrowers,
    ) by {
        assert(order.contains(order[i]));
    }
    lemma_end_loans(s, order, lenders, borrowers);
    assert(s.print_deaths(lenders, borrowers).events.take(s.events.len() as int) =~= s.events);
}

/// An event that ends the loan of `name` in a record goes from the borrower to the lender that the
/// loan names, whether or not the reference gives its resource back, and whatever else the loan
/// holds. Only where the lender has no name does it go to what the borrower refers to.
pub proof fn law_loan_ends_at_its_lender(
    s: State,
    name: Name,
    lenders: Seq<Seq<Seq<Name>>>,
    borrowers: Map<Name, usize>,
)
    ensures
        ({
            let event = s.death_of(name, lenders, borrowers);
            let rap = s.raps[name].rap;
            let t = s.end_loan(name, lenders, borrowers);
            &&& event.ends().0 == ResourceTy::Value(rap)
            &&& s.loans[name].lender != ResourceTy::<Name>::Anonymous ==> event.ends().1
                == s.loans[name].lender
            &&& s.loans[name].lender == ResourceTy::<Name>::Anonymous ==> event.ends().1
                == ResourceTy::Deref(rap)
            &&& t == recorded(s, s.loans[name].lifetime, event)
        }),
{
}

/// Two records in which a borrower has the same lender end its loan at the same place, however
/// else the loans and regions differ.
pub proof fn law_destination_depends_on_lender_alone(
    s: State,
    t: State,
    name: Name,
    lenders: Seq<Seq<Seq<Name>>>,
    other_lenders: Seq<Seq<Seq<Name>>>,
    borrowers: Map<Name, usize>,
    other_borrowers: Map<Name, usize>,
)
    requires
        s.loans[name].lender == t.loans[name].lender,
        s.raps[name].rap == t.raps[name].rap,
    ensures
        s.death_of(name, lenders, borrowers).ends() == t.death_of(
            name,
            other_lenders,
            other_borrowers,
        ).ends(),
{
}

/// A loan can be ended where it has an access point, its last line is one of the program's, and
/// its borrowers have been counted, itself among them. One that gives its resource back needs no
/// count.
pub proof fn law_loan_can_be_ended(
    s: State,
    name: Name,
    lenders: Seq<Seq<Seq<Name>>>,
    borrowers: Map<Name, usize>,
)
    requires
        s.raps.contains_key(name),
        s.lines.contains_key(s.loans[name].lifetime),
    ensures
        is_ultimate(s.loans, lenders, name) ==> s.can_end_loan(name, lenders, borrowers),
        borrowers.contains_key(s.raps[name].rap.spec_name())
            && borrowers[s.raps[name].rap.spec_name()] >= 1 ==> s.can_end_loan(
            name,
            lenders,
            borrowers,
        ),
{
}

/// All loans can be ended where each of them can, every reference in the regions has a loan, and
/// there are numbers left for the events.
pub proof fn law_loans_can_be_ended(
    s: State,
    lenders: Seq<Seq<Seq<Name>>>,
    borrowers: Map<Name, usize>,
)
    ensures
        s.can_print_deaths(lenders, borrowers) <==> {
            &&& forall|k: Name| #[trigger]
                s.loans.contains_key(k) ==> s.can_end_loan(k, lenders, borrowers)
            &&& forall|l: int, j: int, k: int|
                0 <= l < lenders.len() && 0 <= j < lenders[l].len() && 0 <= k < lenders[l][j].len()
                    ==> s.loans.contains_key(#[trigger] lenders[l][j][k])
            &&& s.next_id + s.borrowers.len() <= usize::MAX
        },
{
}

/// The lifetime of a loan becomes the first line that the compiler's analysis gives for it. A loan
/// for which it gives none keeps its lifetime. Nothing else changes.
pub proof fn law_first_line_of_analysis_counts(
    s: State,
    kills: Map<Name, Seq<Option<usize>>>,
    name: Name,
    i: int,
    line: usize,
)
    requires
        s.loans.contains_key(name),
    ensures
        ({
            let t = s.refine_lifetimes(kills);
            &&& t == (State { loans: t.loans, ..s })
            &&& t.loans.dom() == s.loans.dom()
            &&& t.loans[name] == (Loan { lifetime: t.loans[name].lifetime, ..s.loans[name] })
            &&& !kills.contains_key(name) ==> t.loans[name] == s.loans[name]
            &&& kills.contains_key(name) && (forall|j: int|
                0 <= j < kills[name].len() ==> #[trigger] kills[name][j] is None) ==> t.loans[name]
                == s.loans[name]
            &&& kills.contains_key(name) && 0 <= i < kills[name].len() && kills[name][i]
                == Some(line) && (forall|j: int|
                0 <= j < i ==> #[trigger] kills[name][j] is None) ==> t.loans[name].lifetime == line
        }),
{
    assert(s.refine_lifetimes(kills).loans.dom() =~= s.loans.dom());
    if kills.contains_key(name) {
        let outcomes = kills[name];
        if forall|j: int| 0 <= j < outcomes.len() ==> #[trigger] outcomes[j] is None {
            lemma_no_kill(outcomes);
        }
        if 0 <= i < outcomes.len() && outcomes[i] == Some(line) && (forall|j: int|
            0 <= j < i ==> #[trigger] outcomes[j] is None) {
            lemma_first_kill(outcomes, i);
        }
    }
}

proof fn lemma_no_kill(outcomes: Seq<Option<usize>>)
    requires
        forall|j: int| 0 <= j < outcomes.len() ==> #[trigger] outcomes[j] is None,
    ensures
        first_kill(outcomes) is None,
    decreases outcomes.len(),
{
    if outcomes.len() > 0 {
        lemma_no_kill(outcomes.drop_first());
    }
}

proof fn lemma_first_kill(outcomes: Seq<Option<usize>>, i: int)
    requires
        0 <= i < outcomes.len(),
        outcomes[i] is Some,
        forall|j: int| 0 <= j < i ==> #[trigger] outcomes[j] is None,
    ensures
        first_kill(outcomes) == outcomes[i],
    decreases outcomes.len(),
{
    if i > 0 {
        assert(outcomes[0] is None);
        let rest = outcomes.drop_first();
        assert forall|j: int| 0 <= j < i - 1 implies #[trigger] rest[j] is None by {
            assert(outcomes[j + 1] is None);
        }
        lemma_first_kill(rest, i - 1);
    }
}

/// A reference that borrowed from a resource without a name gives it back.
pub proof fn law_anonymous_loans_are_ultimate(
    loans: Map<Name, Loan>,
    lenders: Seq<Seq<Seq<Name>>>,
    name: Name,
)
    requires
        loans.contains_key(name),
        loans[name].lender is Anonymous,
    ensures
        is_ultimate(loans, lenders, name),
{
}

proof fn lemma_longest(loans: Map<Name, Loan>, refs: Seq<Name>)
    ensures
        forall|i: int|
            0 <= i < refs.len() ==> loans[#[trigger] refs[i]].lifetime <= longest(loans, refs).0,
        longest(loans, refs).0 > 0 ==> exists|i: int|
            0 <= i < refs.len() && #[trigger] refs[i] == longest(loans, refs).1
                && loans[refs[i]].lifetime == longest(loans, refs).0,
    decreases refs.len(),
{
    if refs.len() > 0 {
        let rest = refs.drop_last();
        lemma_longest(loans, rest);
        assert forall|i: int| 0 <= i < refs.len() implies loans[#[trigger] refs[i]].lifetime
            <= longest(loans, refs).0 by {
            if i < rest.len() {
                assert(rest[i] == refs[i]);
            }
        }
        if longest(loans, refs).0 > 0 {
            if loans[refs.last()].lifetime > longest(loans, rest).0 {
                assert(refs[refs.len() - 1] == longest(loans, refs).1);
            } else {
                let i = choose|i: int|
                    0 <= i < rest.len() && #[trigger] rest[i] == longest(loans, rest).1
                        && loans[rest[i]].lifetime == longest(loans, rest).0;
                assert(refs[i] == rest[i]);
            }
        }
    }
}

/// The reference that lives longest in a region is one of its references, and is ultimate: each
/// region gives its resource back, in whatever order the regions come.
pub proof fn law_region_has_its_own_leader(
    loans: Map<Name, Loan>,
    lenders: Seq<Seq<Seq<Name>>>,
    l: int,
    j: int,
    name: Name,
)
    requires
        0 <= l < lenders.len(),
        0 <= j < lenders[l].len(),
        lenders[l][j].contains(name),
        loans[name].lifetime > 0,
    ensures
        is_ultimate(loans, lenders, leader(loans, lenders[l], j)),
        lenders[l][j].contains(leader(loans, lenders[l], j)),
        forall|k: int|
            0 <= k < lenders[l][j].len() ==> loans[#[trigger] lenders[l][j][k]].lifetime
                <= loans[leader(loans, lenders[l], j)].lifetime,
{
    let region = lenders[l][j];
    lemma_longest(loans, region);
    let k = region.index_of(name);
    assert(region[k] == name);
}

/// Of the references that live longest in a region, the first one leads it.
pub proof fn law_first_of_the_longest_leads(
    loans: Map<Name, Loan>,
    regions: Seq<Seq<Name>>,
    j: int,
    k: int,
)
    requires
        0 <= j < regions.len(),
        0 <= k < regions[j].len(),
        loans[regions[j][k]].lifetime > 0,
        forall|i: int|
            0 <= i < k ==> loans[#[trigger] regions[j][i]].lifetime < loans[regions[j][k]].lifetime,
        forall|i: int|
            k <= i < regions[j].len() ==> loans[#[trigger] regions[j][i]].lifetime
                <= loans[regions[j][k]].lifetime,
    ensures
        leader(loans, regions, j) == regions[j][k],
{
    lemma_first_longest(loans, regions[j], k);
}

proof fn lemma_first_longest(loans: Map<Name, Loan>, refs: Seq<Name>, k: int)
    requires
        0 <= k < refs.len(),
        loans[refs[k]].lifetime > 0,
        forall|i: int| 0 <= i < k ==> loans[#[trigger] refs[i]].lifetime < loans[refs[k]].lifetime,
        forall|i: int|
            k <= i < refs.len() ==> loans[#[trigger] refs[i]].lifetime <= loans[refs[k]].lifetime,
    ensures
        longest(loans, refs) == (loans[refs[k]].lifetime, refs[k]),
    decreases refs.len(),
{
    let rest = refs.drop_last();
    if k < rest.len() {
        assert forall|i: int| 0 <= i < k implies loans[#[trigger] rest[i]].lifetime
            < loans[rest[k]].lifetime by {
            assert(rest[i] == refs[i]);
        }
        assert forall|i: int| k <= i < rest.len() implies loans[#[trigger] rest[i]].lifetime
            <= loans[rest[k]].lifetime by {
            assert(rest[i] == refs[i]);
        }
        lemma_first_longest(loans, rest, k);
        assert(loans[refs[refs.len() - 1]].lifetime <= loans[refs[k]].lifetime);
    } else {
        lemma_longest(loans, rest);
        if longest(loans, rest).0 > 0 {
            let i = choose|i: int|
                0 <= i < rest.len() && #[trigger] rest[i] == longest(loans, rest).1
                    && loans[rest[i]].lifetime == longest(loans, rest).0;
            assert(refs[i] == rest[i]);
        }
    }
}

/// What leads a region is ultimate. A region in which nothing lives is led by no name.
pub proof fn law_leaders_are_ultimate(
    loans: Map<Name, Loan>,
    lenders: Seq<Seq<Seq<Name>>>,
    l: int,
    j: int,
)
    requires
        0 <= l < lenders.len(),
        0 <= j < lenders[l].len(),
    ensures
        is_ultimate(loans, lenders, leader(loans, lenders[l], j)),
        (forall|k: int|
            0 <= k < lenders[l][j].len() ==> loans[#[trigger] lenders[l][j][k]].lifetime == 0)
            ==> leader(loans, lenders[l], j).len() == 0,
{
    if forall|k: int|
        0 <= k < lenders[l][j].len() ==> loans[#[trigger] lenders[l][j][k]].lifetime == 0 {
        lemma_nothing_lives(loans, lenders[l][j]);
    }
}

proof fn lemma_nothing_lives(loans: Map<Name, Loan>, refs: Seq<Name>)
    requires
        forall|k: int| 0 <= k < refs.len() ==> loans[#[trigger] refs[k]].lifetime == 0,
    ensures
        longest(loans, refs) == (0usize, Seq::<char>::empty()),
    decreases refs.len(),
{
    if refs.len() > 0 {
        assert forall|k: int| 0 <= k < refs.drop_last().len() implies loans[
        #[trigger] refs.drop_last()[k]].lifetime == 0 by {
            assert(loans[refs[k]].lifetime == 0);
        }
        lemma_nothing_lives(loans, refs.drop_last());
        assert(loans[refs[refs.len() - 1]].lifetime == 0);
    }
}

/// Nothing gives a resource back but what leads a region or borrowed from a resource without a
/// name.
pub proof fn law_only_leaders_are_ultimate(
    loans: Map<Name, Loan>,
    lenders: Seq<Seq<Seq<Name>>>,
    name: Name,
)
    requires
        is_ultimate(loans, lenders, name),
    ensures
        (loans.contains_key(name) && loans[name].lender == ResourceTy::<Name>::Anonymous) || exists|
            l: int,
            j: int,
        |
            0 <= l < lenders.len() && 0 <= j < lenders[l].len() && name == #[trigger] leader(
                loans,
                lenders[l],
                j,
            ),
{
}

/// The regions hold references that live, and a reference is in one region only.
pub open spec fn regions_are_apart(loans: Map<Name, Loan>, lenders: Seq<Seq<Seq<Name>>>) -> bool {
    &&& forall|l: int, j: int|
        0 <= l < lenders.len() && 0 <= j < lenders[l].len() ==> (#[trigger] lenders[l][j]).len() > 0
    &&& forall|l: int, j: int, k: int|
        0 <= l < lenders.len() && 0 <= j < lenders[l].len() && 0 <= k < lenders[l][j].len()
            ==> loans[#[trigger] lenders[l][j][k]].lifetime > 0
    &&& forall|l: int, j: int, m: int, i: int, name: Name|
        0 <= l < lenders.len() && 0 <= j < lenders[l].len() && 0 <= m < lenders.len() && 0 <= i
            < lenders[m].len() && #[trigger] lenders[l][j].contains(name)
            && #[trigger] lenders[m][i].contains(name) ==> l == m && j == i
}

/// Of the references in a region, one gives the resource back: the one that lives longest. Any
/// other one that borrowed from something with a name just dies.
pub proof fn law_one_ultimate_reference_per_region(
    loans: Map<Name, Loan>,
    lenders: Seq<Seq<Seq<Name>>>,
    l: int,
    j: int,
    name: Name,
)
    requires
        regions_are_apart(loans, lenders),
        0 <= l < lenders.len(),
        0 <= j < lenders[l].len(),
        lenders[l][j].contains(name),
        !(loans[name].lender is Anonymous),
    ensures
        is_ultimate(loans, lenders, name) <==> name == leader(loans, lenders[l], j),
{
    if is_ultimate(loans, lenders, name) {
        let (m, i) = choose|m: int, i: int|
            0 <= m < lenders.len() && 0 <= i < lenders[m].len() && name == #[trigger] leader(
                loans,
                lenders[m],
                i,
            );
        let first = lenders[m][i][0];
        assert(lenders[m][i].contains(first));
        law_region_has_its_own_leader(loans, lenders, m, i, first);
        assert(lenders[m][i].contains(name));
    }
}

} // verus!
