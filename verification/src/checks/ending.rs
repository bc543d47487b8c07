//! Whether scopes and loans can be ended.

use crate::data::{Name, ResourceTy};
use crate::expr_visitor::{ExprVisitor, RefData};
use crate::lifetimes::{is_ultimate, refined, regions_known, regions_view};
use crate::name_map::NameMap;
use crate::state::State;
use vstd::prelude::*;

verus! {

proof fn lemma_leave_room(s: State, names: Seq<Name>)
    ensures
        s.leave_scopes(names).next_id <= s.next_id + names.len(),
    decreases names.len(),
{
    if names.len() > 0 {
        lemma_leave_room(s, names.drop_last());
    }
}

impl<'a> ExprVisitor<'a> {
    /// Every reference in the regions has a loan.
    fn knows_regions(&self, lenders: &Vec<Vec<Vec<String>>>) -> (result: bool)
        ensures
            result == regions_known(self@.loans, regions_view(lenders@)),
    {
        let ghost all = regions_view(lenders@);
        let mut l: usize = 0;
        while l < lenders.len()
            invariant
                l <= lenders@.len(),
                all == regions_view(lenders@),
                forall|m: int, j: int, k: int|
                    0 <= m < l && 0 <= j < all[m].len() && 0 <= k < all[m][j].len()
                        ==> self@.loans.contains_key(#[trigger] all[m][j][k]),
            decreases lenders@.len() - l,
        {
            let mut j: usize = 0;
            while j < lenders[l].len()
                invariant
                    l < lenders@.len(),
                    j <= lenders@[l as int]@.len(),
                    all == regions_view(lenders@),
                    forall|i: int, k: int|
                        0 <= i < j && 0 <= k < all[l as int][i].len() ==> self@.loans.contains_key(
                            #[trigger] all[l as int][i][k],
                        ),
                decreases lenders@[l as int]@.len() - j,
            {
                let region = &lenders[l][j];
                let mut k: usize = 0;
                while k < region.len()
                    invariant
                        l < lenders@.len(),
                        j < lenders@[l as int]@.len(),
                        *region == lenders@[l as int]@[j as int],
                        k <= region@.len(),
                        all == regions_view(lenders@),
                        forall|i: int|
                            0 <= i < k ==> self@.loans.contains_key(
                                #[trigger] all[l as int][j as int][i],
                            ),
                    decreases region@.len() - k,
                {
                    assert(all[l as int][j as int][k as int] == region@[k as int]@);
                    if !self.borrow_map.contains_key(&region[k]) {
                        return false;
                    }
                    k += 1;
                }
                j += 1;
            }
            l += 1;
        }
        true
    }

    /// The loan at place `i` can be ended.
    fn can_end_loan_at(
        &self,
        i: usize,
        lenders: Ghost<Seq<Seq<Seq<Name>>>>,
        ultimate_refs: &NameMap<()>,
        borrowers: &NameMap<usize>,
    ) -> (result: bool)
        requires
            i < self@.borrowers.len(),
            forall|n: Name|
                ultimate_refs@.contains_key(n) <==> #[trigger] is_ultimate(
                    self@.loans,
                    lenders@,
                    n,
                ),
        ensures
            result == self@.can_end_loan(self@.borrowers[i as int], lenders@, borrowers@),
    {
        let name = self.borrow_map.name_at(i);
        let data = self.borrow_map.value_at(i);
        let rap = match self.raps.get(name) {
            Some(data) => data.rap.clone(),
            None => {
                return false;
            },
        };
        assert(is_ultimate(self@.loans, lenders@, name@) || !is_ultimate(
            self@.loans,
            lenders@,
            name@,
        ));
        let ghost event = self@.death_of(name@, lenders@, borrowers@);
        let counted = ultimate_refs.contains_key(name) || match borrowers.get(rap.name()) {
            Some(count) => *count >= 1,
            None => false,
        };
        let to = match &data.lender {
            ResourceTy::Anonymous => ResourceTy::Deref(rap.clone()),
            lender => lender.clone(),
        };
        let from = ResourceTy::Value(rap);
        assert(event.ends() == (from@, to@));
        counted && self.can_add_ev(data.lifetime, &to, &from)
    }

    /// The loans can be ended.
    pub fn can_print_deaths(
        &self,
        lenders: &Vec<Vec<Vec<String>>>,
        borrowers: &NameMap<usize>,
    ) -> (result: bool)
        ensures
            result == self@.can_print_deaths(regions_view(lenders@), borrowers@),
    {
        let ghost all = regions_view(lenders@);
        let ghost names = self@.borrowers;
        proof {
            use_type_invariant(&self.borrow_map);
            self.borrow_map.lemma_names();
        }
        if self.borrow_map.len() > usize::MAX - self.unique_id || !self.knows_regions(lenders) {
            return false;
        }
        let ultimate_refs = self.ultimate_refs(lenders);
        let mut i: usize = 0;
        while i < self.borrow_map.len()
            invariant
                i <= names.len(),
                names == self@.borrowers,
                all == regions_view(lenders@),
                forall|k: Name| self@.loans.contains_key(k) <==> #[trigger] names.contains(k),
                forall|n: Name|
                    ultimate_refs@.contains_key(n) <==> #[trigger] is_ultimate(self@.loans, all, n),
                forall|j: int|
                    0 <= j < i ==> self@.can_end_loan(#[trigger] names[j], all, borrowers@),
            decreases names.len() - i,
        {
            if !self.can_end_loan_at(i, Ghost(all), &ultimate_refs, borrowers) {
                assert(names.contains(names[i as int]));
                return false;
            }
            i += 1;
        }
        assert forall|k: Name| #[trigger] self@.loans.contains_key(k) implies self@.can_end_loan(
            k,
            all,
            borrowers@,
        ) by {
            assert(names.contains(k));
            let j = names.index_of(k);
            assert(names[j] == k);
        }
        true
    }

    /// There are numbers for the events of access points that go out of scope, even if all of them
    /// do.
    pub fn can_print_out_of_scope(&self) -> (result: bool)
        ensures
            result == (self@.next_id + self@.rap_names.len() <= usize::MAX),
            result ==> self@.leave_scopes(self@.rap_names).next_id <= usize::MAX,
    {
        proof {
            lemma_leave_room(self@, self@.rap_names);
        }
        self.raps.len() <= usize::MAX - self.unique_id
    }

    /// Does what `print_lifetimes` does if the loans can be ended with what `regions_of` and
    /// `borrowers_of` give, and says whether they can. If not, the lifetimes have been refined and
    /// nothing else has been done.
    pub fn try_print_lifetimes<R, B>(
        &mut self,
        kills: &NameMap<Vec<Option<usize>>>,
        regions_of: R,
        borrowers_of: B,
    ) -> (result: bool) where
        R: Fn(&NameMap<RefData>) -> Vec<Vec<Vec<String>>>,
        B: Fn(&NameMap<RefData>) -> NameMap<usize>,

        requires
            forall|m: &NameMap<RefData>|
                m@ == refined(old(self)@.loans, kills@) ==> call_requires(regions_of, (m,))
                    && call_requires(borrowers_of, (m,)),
        ensures
            exists|m: &NameMap<RefData>, r: Vec<Vec<Vec<String>>>, b: NameMap<usize>|
                m@ == refined(old(self)@.loans, kills@) && call_ensures(regions_of, (m,), r)
                    && call_ensures(borrowers_of, (m,), b) && result
                    == old(self)@.refine_lifetimes(kills@).can_print_deaths(regions_view(r@), b@)
                    && final(self)@ == if result {
                    old(self)@.refine_lifetimes(kills@).print_deaths(regions_view(r@), b@)
                } else {
                    old(self)@.refine_lifetimes(kills@)
                },
            final(self).same_setting(old(self)),
    {
        self.refine_lifetimes(kills);
        let ghost loans = self.borrow_map;
        let lenders = regions_of(&self.borrow_map);
        let borrowers = borrowers_of(&self.borrow_map);
        assert(call_ensures(regions_of, (&loans,), lenders));
        assert(call_ensures(borrowers_of, (&loans,), borrowers));
        if self.can_print_deaths(&lenders, &borrowers) {
            self.print_deaths(&lenders, &borrowers);
            true
        } else {
            false
        }
    }
}

} // verus!
