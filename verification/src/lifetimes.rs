//! The ends of loans: when they end, which of them give the resource back, and in what order.

use crate::aliases::Loan;
use crate::data::{ExternalEvent, Name, ResourceAccessPoint, ResourceTy};
use crate::expr_visitor::{names_view, Evt, ExprVisitor, RefData};
use crate::name_map::NameMap;
use crate::state::State;
use vstd::multiset::Multiset;
use vstd::prelude::*;
use vstd::seq_lib::{group_to_multiset_ensures, lemma_multiset_commutative};

verus! {

/// The first line that an outcome gives.
pub open spec fn first_kill(outcomes: Seq<Option<usize>>) -> Option<usize>
    decreases outcomes.len(),
{
    if outcomes.len() == 0 {
        None
    } else if outcomes[0] is Some {
        outcomes[0]
    } else {
        first_kill(outcomes.drop_first())
    }
}

/// The line on which the compiler's analysis lets the loan of `name` end, if it knows of one.
pub open spec fn kill_line(kills: Map<Name, Seq<Option<usize>>>, name: Name) -> Option<usize> {
    if kills.contains_key(name) {
        first_kill(kills[name])
    } else {
        None
    }
}

/// The loans, each ending where the compiler's analysis lets it end.
pub open spec fn refined(
    loans: Map<Name, Loan>,
    kills: Map<Name, Seq<Option<usize>>>,
) -> Map<Name, Loan> {
    Map::new(
        |k: Name| loans.contains_key(k),
        |k: Name|
            match kill_line(kills, k) {
                Some(line) => Loan { lifetime: line, ..loans[k] },
                None => loans[k],
            },
    )
}

/// The longest lifetime among the references, and the first reference that has it. Before
/// anything lives this is line 0, and no name.
pub open spec fn longest(loans: Map<Name, Loan>, refs: Seq<Name>) -> (usize, Name)
    decreases refs.len(),
{
    if refs.len() == 0 {
        (0, Seq::empty())
    } else {
        let so_far = longest(loans, refs.drop_last());
        if loans[refs.last()].lifetime > so_far.0 {
            (loans[refs.last()].lifetime, refs.last())
        } else {
            so_far
        }
    }
}

/// The reference that gives the resource back at the end of region `j` of a lender: the one that
/// lives longest in the region.
pub open spec fn leader(loans: Map<Name, Loan>, regions: Seq<Seq<Name>>, j: int) -> Name {
    longest(loans, regions[j]).1
}

/// `name` gives its resource back when its loan ends: it leads a region of a lender, or borrowed
/// from a resource without a name.
pub open spec fn is_ultimate(
    loans: Map<Name, Loan>,
    lenders: Seq<Seq<Seq<Name>>>,
    name: Name,
) -> bool {
    ||| exists|l: int, j: int|
        0 <= l < lenders.len() && 0 <= j < lenders[l].len() && name == #[trigger] leader(
            loans,
            lenders[l],
            j,
        )
    ||| loans.contains_key(name) && loans[name].lender is Anonymous
}

/// Every reference in the regions has a loan.
pub open spec fn regions_known(loans: Map<Name, Loan>, lenders: Seq<Seq<Seq<Name>>>) -> bool {
    forall|l: int, j: int, k: int|
        0 <= l < lenders.len() && 0 <= j < lenders[l].len() && 0 <= k < lenders[l][j].len()
            ==> loans.contains_key(#[trigger] lenders[l][j][k])
}

/// The names that have `count` aliases, in their order.
pub open spec fn with_aliases(
    loans: Map<Name, Loan>,
    names: Seq<Name>,
    count: nat,
) -> Seq<Name> {
    names.filter(|n: Name| loans[n].aliasing.len() == count)
}

/// The names with at most `count` aliases: those with the most aliases first, and those with the
/// same number of aliases in their order.
pub open spec fn cascade_from(loans: Map<Name, Loan>, names: Seq<Name>, count: nat) -> Seq<Name>
    decreases count,
{
    with_aliases(loans, names, count) + if count == 0 {
        Seq::empty()
    } else {
        cascade_from(loans, names, (count - 1) as nat)
    }
}

/// The largest number of aliases that one of the names has.
pub open spec fn most_aliases(loans: Map<Name, Loan>, names: Seq<Name>) -> nat
    decreases names.len(),
{
    if names.len() == 0 {
        0
    } else {
        let rest = most_aliases(loans, names.drop_last());
        let last = loans[names.last()].aliasing.len();
        if last > rest {
            last
        } else {
            rest
        }
    }
}

/// The order in which loans end: those with the most aliases first.
pub open spec fn cascade(loans: Map<Name, Loan>, names: Seq<Name>) -> Seq<Name> {
    cascade_from(loans, names, most_aliases(loans, names))
}

/// The event that ends a loan. A reference that gives its resource back gives it to its lender,
/// or, where the lender has no name, to what the reference refers to. Any other reference just
/// dies, and leaves the other borrowers behind.
pub open spec fn death(
    loan: Loan,
    rap: ResourceAccessPoint<Name>,
    ultimate: bool,
    borrowers: Map<Name, usize>,
    id: usize,
) -> ExternalEvent<Name> {
    let to = if loan.lender is Anonymous {
        ResourceTy::Deref(rap)
    } else {
        loan.lender
    };
    let from = ResourceTy::Value(rap);
    if !ultimate {
        ExternalEvent::RefDie {
            from,
            to,
            num_curr_borrowers: (borrowers[rap.spec_name()] - 1) as usize,
            id,
        }
    } else if loan.ref_mutability {
        ExternalEvent::MutableDie { from, to, id }
    } else {
        ExternalEvent::StaticDie { from, to, id }
    }
}

impl State {
    /// The record with the lifetimes that the compiler's analysis gives.
    pub open spec fn refine_lifetimes(self, kills: Map<Name, Seq<Option<usize>>>) -> State {
        State { loans: refined(self.loans, kills), ..self }
    }

    /// The event that ends the loan of `name`.
    pub open spec fn death_of(
        self,
        name: Name,
        lenders: Seq<Seq<Seq<Name>>>,
        borrowers: Map<Name, usize>,
    ) -> ExternalEvent<Name> {
        death(
            self.loans[name],
            self.raps[name].rap,
            is_ultimate(self.loans, lenders, name),
            borrowers,
            self.next_id as usize,
        )
    }

    /// Ends the loan of `name`, on the last line of its lifetime.
    pub open spec fn end_loan(
        self,
        name: Name,
        lenders: Seq<Seq<Seq<Name>>>,
        borrowers: Map<Name, usize>,
    ) -> State {
        State {
            next_id: self.next_id + 1,
            ..self.add_external_event(
                self.loans[name].lifetime,
                self.death_of(name, lenders, borrowers),
            )
        }
    }

    pub open spec fn end_loans(
        self,
        names: Seq<Name>,
        lenders: Seq<Seq<Seq<Name>>>,
        borrowers: Map<Name, usize>,
    ) -> State
        decreases names.len(),
    {
        if names.len() == 0 {
            self
        } else {
            self.end_loans(names.drop_last(), lenders, borrowers).end_loan(
                names.last(),
                lenders,
                borrowers,
            )
        }
    }

    /// Ends all loans.
    pub open spec fn print_deaths(
        self,
        lenders: Seq<Seq<Seq<Name>>>,
        borrowers: Map<Name, usize>,
    ) -> State {
        self.end_loans(cascade(self.loans, self.borrowers), lenders, borrowers)
    }

    /// The loan of `name` can be ended: it has an access point, its last line is there if an arrow
    /// is to be drawn on it, and if it does not give its resource back, the borrowers to be left
    /// behind have been counted, itself among them.
    pub open spec fn can_end_loan(
        self,
        name: Name,
        lenders: Seq<Seq<Seq<Name>>>,
        borrowers: Map<Name, usize>,
    ) -> bool {
        &&& self.raps.contains_key(name)
        &&& self.can_add_event(
            self.loans[name].lifetime,
            self.death_of(name, lenders, borrowers),
        )
        &&& !is_ultimate(self.loans, lenders, name) ==> {
            &&& borrowers.contains_key(self.raps[name].rap.spec_name())
            &&& borrowers[self.raps[name].rap.spec_name()] >= 1
        }
    }

    pub open spec fn can_print_deaths(
        self,
        lenders: Seq<Seq<Seq<Name>>>,
        borrowers: Map<Name, usize>,
    ) -> bool {
        &&& regions_known(self.loans, lenders)
        &&& forall|k: Name| #[trigger]
            self.loans.contains_key(k) ==> self.can_end_loan(k, lenders, borrowers)
        &&& self.next_id + self.borrowers.len() <= usize::MAX
    }
}

/// The names with at most `count` aliases, in their order.
spec fn up_to(loans: Map<Name, Loan>, names: Seq<Name>, count: nat) -> Seq<Name> {
    names.filter(|n: Name| loans[n].aliasing.len() <= count)
}

proof fn lemma_filter_step(names: Seq<Name>, pred: spec_fn(Name) -> bool)
    requires
        names.len() > 0,
    ensures
        names.filter(pred) == if pred(names.last()) {
            names.drop_last().filter(pred).push(names.last())
        } else {
            names.drop_last().filter(pred)
        },
{
    reveal(Seq::filter);
}

proof fn lemma_up_to(loans: Map<Name, Loan>, names: Seq<Name>, count: nat)
    ensures
        up_to(loans, names, count).to_multiset() == with_aliases(
            loans,
            names,
            count,
        ).to_multiset().add(
            if count == 0 {
                Multiset::empty()
            } else {
                up_to(loans, names, (count - 1) as nat).to_multiset()
            },
        ),
    decreases names.len(),
{
    broadcast use group_to_multiset_ensures;

    let le = |n: Name| loans[n].aliasing.len() <= count;
    let eq = |n: Name| loans[n].aliasing.len() == count;
    let lt = |n: Name| loans[n].aliasing.len() <= (count - 1) as nat;
    if names.len() == 0 {
        reveal(Seq::filter);
        assert(names.filter(le).to_multiset() =~= Multiset::empty());
        assert(names.filter(eq).to_multiset() =~= Multiset::empty());
        assert(names.filter(lt).to_multiset() =~= Multiset::empty());
        assert(up_to(loans, names, count).to_multiset() =~= Multiset::empty());
    } else {
        lemma_up_to(loans, names.drop_last(), count);
        lemma_filter_step(names, le);
        lemma_filter_step(names, eq);
        lemma_filter_step(names, lt);
        let a = up_to(loans, names, count).to_multiset();
        let b = with_aliases(loans, names, count).to_multiset();
        if count == 0 {
            assert(a =~= b.add(Multiset::empty()));
        } else {
            assert(a =~= b.add(up_to(loans, names, (count - 1) as nat).to_multiset()));
        }
    }
}

proof fn lemma_cascade_from(loans: Map<Name, Loan>, names: Seq<Name>, count: nat)
    ensures
        cascade_from(loans, names, count).to_multiset() == up_to(
            loans,
            names,
            count,
        ).to_multiset(),
        forall|i: int|
            0 <= i < cascade_from(loans, names, count).len() ==> loans[#[trigger] cascade_from(
                loans,
                names,
                count,
            )[i]].aliasing.len() <= count,
        forall|i: int, j: int|
            0 <= i < j < cascade_from(loans, names, count).len() ==> loans[#[trigger] cascade_from(
                loans,
                names,
                count,
            )[i]].aliasing.len() >= loans[#[trigger] cascade_from(
                loans,
                names,
                count,
            )[j]].aliasing.len(),
        forall|c: nat|
            c <= count ==> #[trigger] with_aliases(loans, cascade_from(loans, names, count), c)
                == with_aliases(loans, names, c),
    decreases count,
{
    broadcast use group_to_multiset_ensures;

    lemma_up_to(loans, names, count);
    let eq = |n: Name| loans[n].aliasing.len() == count;
    let first = with_aliases(loans, names, count);
    let rest = if count == 0 {
        Seq::empty()
    } else {
        cascade_from(loans, names, (count - 1) as nat)
    };
    let all = cascade_from(loans, names, count);
    assert(all == first + rest);
    assert forall|i: int| 0 <= i < first.len() implies loans[#[trigger] first[i]].aliasing.len()
        == count by {
        names.lemma_filter_pred(eq, i);
    }
    if count > 0 {
        lemma_cascade_from(loans, names, (count - 1) as nat);
    }
    lemma_multiset_commutative(first, rest);
    assert(Seq::<Name>::empty().to_multiset() =~= Multiset::empty());
    assert forall|i: int| 0 <= i < all.len() implies loans[#[trigger] all[i]].aliasing.len()
        <= count by {
        if i < first.len() {
            assert(all[i] == first[i]);
        } else {
            assert(all[i] == rest[i - first.len()]);
        }
    }
    assert forall|i: int, j: int| 0 <= i < j < all.len() implies loans[#[trigger] all[i]].aliasing.len()
        >= loans[#[trigger] all[j]].aliasing.len() by {
        if i < first.len() {
            assert(all[i] == first[i]);
        } else {
            assert(all[i] == rest[i - first.len()]);
            assert(all[j] == rest[j - first.len()]);
        }
    }
    assert forall|c: nat| c <= count implies #[trigger] with_aliases(loans, all, c)
        == with_aliases(loans, names, c) by {
        let hit = |n: Name| loans[n].aliasing.len() == c;
        Seq::filter_distributes_over_add(first, rest, hit);
        if c == count {
            lemma_filter_all(first, hit);
            assert forall|i: int| 0 <= i < rest.len() implies !hit(#[trigger] rest[i]) by {}
            lemma_filter_none(rest, hit);
        } else {
            assert forall|i: int| 0 <= i < first.len() implies !hit(#[trigger] first[i]) by {}
            lemma_filter_none(first, hit);
            assert(rest.filter(hit) == with_aliases(loans, rest, c));
        }
        assert(with_aliases(loans, all, c) =~= with_aliases(loans, names, c));
    }
}

proof fn lemma_filter_all(names: Seq<Name>, pred: spec_fn(Name) -> bool)
    requires
        forall|i: int| 0 <= i < names.len() ==> pred(#[trigger] names[i]),
    ensures
        names.filter(pred) == names,
    decreases names.len(),
{
    if names.len() == 0 {
        reveal(Seq::filter);
    } else {
        lemma_filter_step(names, pred);
        assert(pred(names[names.len() - 1]));
        assert forall|i: int| 0 <= i < names.drop_last().len() implies pred(
            #[trigger] names.drop_last()[i],
        ) by {
            assert(pred(names[i]));
        }
        lemma_filter_all(names.drop_last(), pred);
        assert(names.drop_last().push(names.last()) =~= names);
    }
}

proof fn lemma_filter_none(names: Seq<Name>, pred: spec_fn(Name) -> bool)
    requires
        forall|i: int| 0 <= i < names.len() ==> !pred(#[trigger] names[i]),
    ensures
        names.filter(pred) == Seq::<Name>::empty(),
    decreases names.len(),
{
    if names.len() == 0 {
        reveal(Seq::filter);
    } else {
        lemma_filter_step(names, pred);
        assert(!pred(names[names.len() - 1]));
        assert forall|i: int| 0 <= i < names.drop_last().len() implies !pred(
            #[trigger] names.drop_last()[i],
        ) by {
            assert(!pred(names[i]));
        }
        lemma_filter_none(names.drop_last(), pred);
    }
}

proof fn lemma_most_aliases(loans: Map<Name, Loan>, names: Seq<Name>)
    ensures
        forall|i: int|
            0 <= i < names.len() ==> loans[#[trigger] names[i]].aliasing.len() <= most_aliases(
                loans,
                names,
            ),
    decreases names.len(),
{
    if names.len() > 0 {
        lemma_most_aliases(loans, names.drop_last());
        assert forall|i: int| 0 <= i < names.len() implies loans[#[trigger] names[i]].aliasing.len()
            <= most_aliases(loans, names) by {
            if i < names.len() - 1 {
                assert(names.drop_last()[i] == names[i]);
            }
        }
    }
}

/// The order in which loans end holds each borrower once. A borrower with more aliases comes
/// before one with fewer, and borrowers with the same number of aliases stay in their order.
pub proof fn lemma_cascade(loans: Map<Name, Loan>, names: Seq<Name>)
    ensures
        cascade(loans, names).to_multiset() == names.to_multiset(),
        forall|i: int, j: int|
            0 <= i < j < cascade(loans, names).len() ==> loans[#[trigger] cascade(
                loans,
                names,
            )[i]].aliasing.len() >= loans[#[trigger] cascade(loans, names)[j]].aliasing.len(),
        forall|count: nat| #[trigger]
            with_aliases(loans, cascade(loans, names), count) == with_aliases(loans, names, count),
{
    let most = most_aliases(loans, names);
    lemma_most_aliases(loans, names);
    lemma_cascade_from(loans, names, most);
    let le = |n: Name| loans[n].aliasing.len() <= most;
    assert forall|i: int| 0 <= i < names.len() implies le(#[trigger] names[i]) by {}
    lemma_filter_all(names, le);
    assert(up_to(loans, names, most) == names);
    let all = cascade(loans, names);
    assert forall|count: nat| #[trigger] with_aliases(loans, all, count) == with_aliases(
        loans,
        names,
        count,
    ) by {
        if count > most {
            let eq = |n: Name| loans[n].aliasing.len() == count;
            assert forall|i: int| 0 <= i < names.len() implies !eq(#[trigger] names[i]) by {}
            lemma_filter_none(names, eq);
            assert forall|i: int| 0 <= i < all.len() implies !eq(#[trigger] all[i]) by {
                assert(loans[cascade_from(loans, names, most)[i]].aliasing.len() <= most);
            }
            lemma_filter_none(all, eq);
        }
    }
}

/// Ending loans adds one event for each of them, under consecutive numbers, and changes nothing
/// else.
pub proof fn lemma_end_loans(
    s: State,
    names: Seq<Name>,
    lenders: Seq<Seq<Seq<Name>>>,
    borrowers: Map<Name, usize>,
)
    requires
        forall|i: int|
            0 <= i < names.len() ==> s.can_end_loan(#[trigger] names[i], lenders, borrowers),
    ensures
        ({
            let t = s.end_loans(names, lenders, borrowers);
            &&& t == (State { events: t.events, lines: t.lines, next_id: t.next_id, ..s })
            &&& t.lines.dom() == s.lines.dom()
            &&& t.next_id == s.next_id + names.len()
            &&& t.events == s.events + Seq::new(
                names.len(),
                |i: int|
                    (
                        s.loans[names[i]].lifetime,
                        death(
                            s.loans[names[i]],
                            s.raps[names[i]].rap,
                            is_ultimate(s.loans, lenders, names[i]),
                            borrowers,
                            (s.next_id + i) as usize,
                        ),
                    ),
            )
        }),
    decreases names.len(),
{
    let t = s.end_loans(names, lenders, borrowers);
    let new = Seq::new(
        names.len(),
        |i: int|
            (
                s.loans[names[i]].lifetime,
                death(
                    s.loans[names[i]],
                    s.raps[names[i]].rap,
                    is_ultimate(s.loans, lenders, names[i]),
                    borrowers,
                    (s.next_id + i) as usize,
                ),
            ),
    );
    if names.len() == 0 {
        assert(t.events =~= s.events + new);
    } else {
        let rest = names.drop_last();
        assert forall|i: int| 0 <= i < rest.len() implies s.can_end_loan(
            #[trigger] rest[i],
            lenders,
            borrowers,
        ) by {
            assert(rest[i] == names[i]);
        }
        lemma_end_loans(s, rest, lenders, borrowers);
        assert(s.can_end_loan(names[names.len() - 1], lenders, borrowers));
        assert(t.lines.dom() =~= s.lines.dom());
        assert(t.events =~= s.events + new);
    }
}

/// The names in the regions of each lender.
pub open spec fn regions_view(lenders: Seq<Vec<Vec<String>>>) -> Seq<Seq<Seq<Name>>> {
    Seq::new(
        lenders.len(),
        |l: int| Seq::new(lenders[l]@.len(), |j: int| names_view(lenders[l]@[j]@)),
    )
}

/// The line that the first outcome with a line gives.
pub fn first_line(outcomes: &Vec<Option<usize>>) -> (result: Option<usize>)
    ensures
        result == first_kill(outcomes@),
{
    let mut i: usize = 0;
    assert(outcomes@.skip(0) =~= outcomes@);
    while i < outcomes.len()
        invariant
            i <= outcomes@.len(),
            first_kill(outcomes@) == first_kill(outcomes@.skip(i as int)),
        decreases outcomes@.len() - i,
    {
        if outcomes[i].is_some() {
            return outcomes[i];
        }
        assert(outcomes@.skip(i as int).drop_first() =~= outcomes@.skip(i + 1));
        i += 1;
    }
    None
}

impl<'a> ExprVisitor<'a> {
    /// Takes over the lifetimes that the compiler's analysis gives. For each borrower, `kills`
    /// holds the outcomes of matching its loan against those of the analysis: the line on which
    /// the loan ends, where they match. The first match counts.
    pub fn refine_lifetimes(&mut self, kills: &NameMap<Vec<Option<usize>>>)
        ensures
            final(self)@ == old(self)@.refine_lifetimes(kills@),
            final(self).same_setting(old(self)),
    {
        let ghost before = self@;
        let ghost names = self@.borrowers;
        proof {
            use_type_invariant(&self.borrow_map);
            self.borrow_map.lemma_names();
        }
        let mut i: usize = 0;
        while i < self.borrow_map.len()
            invariant
                i <= names.len(),
                names == before.borrowers,
                names.no_duplicates(),
                forall|k: Name| before.loans.contains_key(k) <==> #[trigger] names.contains(k),
                self@ == (State { loans: self@.loans, ..before }),
                self@.loans.dom() == before.loans.dom(),
                forall|j: int|
                    0 <= j < i ==> self@.loans[#[trigger] names[j]] == refined(
                        before.loans,
                        kills@,
                    )[names[j]],
                forall|j: int|
                    i <= j < names.len() ==> self@.loans[#[trigger] names[j]]
                        == before.loans[names[j]],
                self.same_setting(old(self)),
            decreases names.len() - i,
        {
            assert(names.contains(names[i as int]));
            let name = self.borrow_map.name_at(i).clone();
            match kills.get(&name) {
                Some(outcomes) => match first_line(outcomes) {
                    Some(kill) => {
                        let mut data = self.borrow_map.value_at(i).clone();
                        data.lifetime = kill;
                        self.borrow_map.insert(name, data);
                        assert(self@.loans.dom() =~= before.loans.dom());
                    },
                    None => {},
                },
                None => {},
            }
            i += 1;
        }
        assert forall|k: Name| #[trigger] before.loans.contains_key(k) implies self@.loans[k]
            == refined(before.loans, kills@)[k] by {
            assert(names.contains(k));
            let j = names.index_of(k);
            assert(names[j] == k);
        }
        assert(self@.loans =~= refined(before.loans, kills@));
    }

    /// The references that give their resources back when their loans end.
    pub fn ultimate_refs(&self, lenders: &Vec<Vec<Vec<String>>>) -> (result: NameMap<()>)
        requires
            regions_known(self@.loans, regions_view(lenders@)),
        ensures
            forall|n: Name|
                result@.contains_key(n) <==> #[trigger] is_ultimate(
                    self@.loans,
                    regions_view(lenders@),
                    n,
                ),
    {
        let mut result: NameMap<()> = NameMap::new();
        let ghost loans = self@.loans;
        let ghost all = regions_view(lenders@);
        let mut l: usize = 0;
        while l < lenders.len()
            invariant
                l <= lenders@.len(),
                loans == self@.loans,
                all == regions_view(lenders@),
                regions_known(loans, all),
                forall|n: Name|
                    #![trigger result@.contains_key(n)]
                    result@.contains_key(n) <==> exists|m: int, j: int|
                        0 <= m < l && 0 <= j < all[m].len() && n == #[trigger] leader(
                            loans,
                            all[m],
                            j,
                        ),
            decreases lenders@.len() - l,
        {
            let regions = &lenders[l];
            let ghost seen = result@;
            let mut j: usize = 0;
            while j < regions.len()
                invariant
                    l < lenders@.len(),
                    *regions == lenders@[l as int],
                    j <= regions@.len(),
                    loans == self@.loans,
                    all == regions_view(lenders@),
                    regions_known(loans, all),
                    forall|n: Name|
                        #![trigger result@.contains_key(n)]
                        result@.contains_key(n) <==> seen.contains_key(n) || exists|i: int|
                            0 <= i < j && n == #[trigger] leader(loans, all[l as int], i),
                decreases regions@.len() - j,
            {
                let region = &regions[j];
                let ghost refs = all[l as int][j as int];
                let mut max_lifetime: usize = 0;
                let mut ultimate_ref = String::new();
                let mut k: usize = 0;
                assert(refs.take(0) =~= Seq::<Name>::empty());
                while k < region.len()
                    invariant
                        l < lenders@.len(),
                        j < lenders@[l as int]@.len(),
                        *region == lenders@[l as int]@[j as int],
                        k <= region@.len(),
                        loans == self@.loans,
                        all == regions_view(lenders@),
                        regions_known(loans, all),
                        refs == all[l as int][j as int],
                        (max_lifetime, ultimate_ref@) == longest(loans, refs.take(k as int)),
                    decreases region@.len() - k,
                {
                    assert(refs[k as int] == region@[k as int]@);
                    assert(loans.contains_key(all[l as int][j as int][k as int]));
                    let lifetime = self.borrow_map.get(&region[k]).unwrap().lifetime;
                    if lifetime > max_lifetime {
                        max_lifetime = lifetime;
                        ultimate_ref = region[k].clone();
                    }
                    proof {
                        assert(refs.take(k + 1).drop_last() =~= refs.take(k as int));
                        assert(refs.take(k + 1).last() == refs[k as int]);
                    }
                    k += 1;
                }
                proof {
                    assert(refs.take(k as int) =~= refs);
                    assert(ultimate_ref@ == leader(loans, all[l as int], j as int));
                }
                result.insert(ultimate_ref.clone(), ());
                j += 1;
            }
            l += 1;
        }
        let mut i: usize = 0;
        let ghost led = result@;
        let ghost names = self@.borrowers;
        proof {
            use_type_invariant(&self.borrow_map);
            self.borrow_map.lemma_names();
        }
        while i < self.borrow_map.len()
            invariant
                i <= names.len(),
                loans == self@.loans,
                names == self@.borrowers,
                forall|k: Name| loans.contains_key(k) <==> #[trigger] names.contains(k),
                forall|n: Name|
                    #![trigger result@.contains_key(n)]
                    result@.contains_key(n) <==> led.contains_key(n) || exists|j: int|
                        0 <= j < i && n == (#[trigger] names[j]) && loans[n].lender is Anonymous,
            decreases names.len() - i,
        {
            match &self.borrow_map.value_at(i).lender {
                ResourceTy::Anonymous => {
                    result.insert(self.borrow_map.name_at(i).clone(), ());
                },
                _ => {},
            }
            i += 1;
        }
        assert forall|n: Name| result@.contains_key(n) <==> #[trigger] is_ultimate(loans, all, n) by {
            assert(result@.contains_key(n) || !result@.contains_key(n));
            assert(led.contains_key(n) || !led.contains_key(n));
            if loans.contains_key(n) {
                assert(names.contains(n));
                let j = names.index_of(n);
                assert(names[j] == n);
            }
        }
        result
    }

    /// The largest number of aliases that a loan has.
    fn most_aliases(&self) -> (result: usize)
        ensures
            result == most_aliases(self@.loans, self@.borrowers),
    {
        let ghost names = self@.borrowers;
        let mut most: usize = 0;
        let mut i: usize = 0;
        assert(names.take(0) =~= Seq::<Name>::empty());
        while i < self.borrow_map.len()
            invariant
                i <= names.len(),
                names == self@.borrowers,
                most == most_aliases(self@.loans, names.take(i as int)),
            decreases names.len() - i,
        {
            let data = self.borrow_map.value_at(i);
            let count = data.aliasing.len();
            assert(data@.aliasing.len() == count);
            assert(names.take(i + 1).drop_last() =~= names.take(i as int));
            if count > most {
                most = count;
            }
            i += 1;
        }
        assert(names.take(i as int) =~= names);
        most
    }

    /// The borrowers in the order in which their loans end, so that the events cascade: those
    /// with the most aliases first.
    pub fn cascade_order(&self) -> (result: Vec<String>)
        ensures
            names_view(result@) == cascade(self@.loans, self@.borrowers),
    {
        let ghost names = self@.borrowers;
        let ghost loans = self@.loans;
        let mut result: Vec<String> = Vec::new();
        let most = self.most_aliases();
        let mut count = most;
        let mut done = false;
        assert(names_view(result@) =~= Seq::empty());
        while !done
            invariant
                names == self@.borrowers,
                loans == self@.loans,
                count <= most,
                !done ==> names_view(result@) + cascade_from(loans, names, count as nat)
                    == cascade_from(loans, names, most as nat),
                done ==> names_view(result@) == cascade_from(loans, names, most as nat),
            decreases count + if done { 0int } else { 1 },
        {
            let ghost before = names_view(result@);
            let ghost has = |n: Name| loans[n].aliasing.len() == count as nat;
            let mut i: usize = 0;
            proof {
                reveal(Seq::filter);
                assert(names.take(0) =~= Seq::<Name>::empty());
                assert(before =~= before + names.take(0).filter(has));
            }
            while i < self.borrow_map.len()
                invariant
                    i <= names.len(),
                    names == self@.borrowers,
                    loans == self@.loans,
                    has == (|n: Name| loans[n].aliasing.len() == count as nat),
                    names_view(result@) == before + names.take(i as int).filter(has),
                decreases names.len() - i,
            {
                let data = self.borrow_map.value_at(i);
                let ghost so_far = result@;
                proof {
                    reveal(Seq::filter);
                    assert(data@.aliasing.len() == data.aliasing.len());
                    assert(names.take(i + 1).drop_last() =~= names.take(i as int));
                    assert(names.take(i + 1).last() == names[i as int]);
                }
                if data.aliasing.len() == count {
                    result.push(self.borrow_map.name_at(i).clone());
                    assert(names_view(result@) =~= names_view(so_far).push(names[i as int]));
                }
                proof {
                    assert(names_view(result@) =~= before + names.take(i + 1).filter(has));
                }
                i += 1;
            }
            proof {
                assert(names.take(i as int) =~= names);
                assert(with_aliases(loans, names, count as nat) == names.filter(has));
            }
            if count == 0 {
                done = true;
                assert(names_view(result@) =~= before + cascade_from(loans, names, 0));
            } else {
                let ghost rest = cascade_from(loans, names, (count - 1) as nat);
                assert(names_view(result@) + rest =~= before + cascade_from(
                    loans,
                    names,
                    count as nat,
                ));
                count -= 1;
            }
        }
        result
    }

    /// Adds the events that end the loans. `lenders` holds the references to each lender that has
    /// a name, split into regions; `borrowers` says for each name how many borrowers share its
    /// resource.
    pub fn print_deaths(&mut self, lenders: &Vec<Vec<Vec<String>>>, borrowers: &NameMap<usize>)
        requires
            old(self)@.can_print_deaths(regions_view(lenders@), borrowers@),
        ensures
            final(self)@ == old(self)@.print_deaths(regions_view(lenders@), borrowers@),
            final(self).same_setting(old(self)),
    {
        let ghost before = self@;
        let ghost all = regions_view(lenders@);
        let ultimate_refs = self.ultimate_refs(lenders);
        let order = self.cascade_order();
        let ghost names = names_view(order@);
        proof {
            broadcast use group_to_multiset_ensures;

            use_type_invariant(&self.borrow_map);
            self.borrow_map.lemma_names();
            lemma_cascade(before.loans, before.borrowers);
            assert(names.len() == names.to_multiset().len());
            assert forall|i: int| 0 <= i < names.len() implies before.loans.contains_key(
                #[trigger] names[i],
            ) by {
                assert(names.contains(names[i]));
                assert(names.to_multiset().count(names[i]) > 0);
                assert(before.borrowers.contains(names[i]));
            }
            assert(names.take(0) =~= Seq::<Name>::empty());
        }
        let mut i: usize = 0;
        while i < order.len()
            invariant
                i <= order@.len(),
                names == names_view(order@),
                all == regions_view(lenders@),
                before.can_print_deaths(all, borrowers@),
                names.len() == before.borrowers.len(),
                forall|j: int|
                    0 <= j < names.len() ==> before.loans.contains_key(#[trigger] names[j]),
                forall|n: Name|
                    ultimate_refs@.contains_key(n) <==> #[trigger] is_ultimate(
                        before.loans,
                        all,
                        n,
                    ),
                self@ == before.end_loans(names.take(i as int), all, borrowers@),
                self.same_setting(old(self)),
            decreases order@.len() - i,
        {
            let ghost done = names.take(i as int);
            proof {
                assert forall|j: int| 0 <= j < done.len() implies before.can_end_loan(
                    #[trigger] done[j],
                    all,
                    borrowers@,
                ) by {
                    assert(before.loans.contains_key(names[j]));
                }
                lemma_end_loans(before, done, all, borrowers@);
                assert(names.take(i + 1).drop_last() =~= done);
                assert(names.take(i + 1).last() == names[i as int]);
                assert(before.can_end_loan(names[i as int], all, borrowers@));
                assert(is_ultimate(before.loans, all, names[i as int]) || !is_ultimate(
                    before.loans,
                    all,
                    names[i as int],
                ));
            }
            let k = &order[i];
            let data = self.borrow_map.get(k).unwrap();
            let lifetime = data.lifetime;
            let ref_mut = data.ref_mutability;
            let from_ro = self.raps.get(k).unwrap().rap.clone();
            let to_ro = match &data.lender {
                ResourceTy::Anonymous => ResourceTy::Deref(from_ro.clone()),
                lender => lender.clone(),
            };
            if !ultimate_refs.contains_key(k) {
                let num_curr_borrowers = *borrowers.get(from_ro.name()).unwrap() - 1;
                let id = self.unique_id;
                let event = ExternalEvent::RefDie {
                    from: ResourceTy::Value(from_ro),
                    to: to_ro,
                    num_curr_borrowers,
                    id,
                };
                self.add_external_event(lifetime, event);
                self.unique_id += 1;
            } else {
                let evt = if ref_mut {
                    Evt::MDie
                } else {
                    Evt::SDie
                };
                self.add_ev(lifetime, evt, to_ro, ResourceTy::Value(from_ro), false);
            }
            i += 1;
        }
        assert(names.take(i as int) =~= names);
    }

    /// Ends the loans that are still open. First their lifetimes are refined by those of the
    /// compiler's analysis; then `regions_of` splits the references to each lender into regions
    /// and `borrowers_of` counts borrowers, both on the refined loans.
    pub fn print_lifetimes<R, B>(
        &mut self,
        kills: &NameMap<Vec<Option<usize>>>,
        regions_of: R,
        borrowers_of: B,
    ) where
        R: Fn(&NameMap<RefData>) -> Vec<Vec<Vec<String>>>,
        B: Fn(&NameMap<RefData>) -> NameMap<usize>,

        requires
            forall|m: &NameMap<RefData>|
                m@ == refined(old(self)@.loans, kills@) ==> call_requires(regions_of, (m,))
                    && call_requires(borrowers_of, (m,)),
            forall|m: &NameMap<RefData>, r: Vec<Vec<Vec<String>>>, b: NameMap<usize>|
                m@ == refined(old(self)@.loans, kills@) && call_ensures(regions_of, (m,), r)
                    && call_ensures(borrowers_of, (m,), b) ==> old(self)@.refine_lifetimes(
                    kills@,
                ).can_print_deaths(regions_view(r@), b@),
        ensures
            exists|m: &NameMap<RefData>, r: Vec<Vec<Vec<String>>>, b: NameMap<usize>|
                m@ == refined(old(self)@.loans, kills@) && call_ensures(regions_of, (m,), r)
                    && call_ensures(borrowers_of, (m,), b) && final(self)@
                    == old(self)@.refine_lifetimes(kills@).print_deaths(regions_view(r@), b@),
            final(self).same_setting(old(self)),
    {
        self.refine_lifetimes(kills);
        let ghost loans = self.borrow_map;
        let lenders = regions_of(&self.borrow_map);
        let borrowers = borrowers_of(&self.borrow_map);
        assert(call_ensures(regions_of, (&loans,), lenders));
        assert(call_ensures(borrowers_of, (&loans,), borrowers));
        self.print_deaths(&lenders, &borrowers);
    }
}

} // verus!
