//! Whether a use or a single event can be recorded.

use crate::aliases::{aliases_end, aliases_within, lemma_within_more, Loan};
use crate::data::{ExternalEvent, Name, ResourceAccessPoint, ResourceTy};
use crate::expr_visitor::{names_view, Evt, ExprVisitor};
use vstd::prelude::*;

verus! {

/// The least depth within which the aliases of `name` end.
spec fn least(loans: Map<Name, Loan>, name: Name, depth: nat) -> bool {
    &&& aliases_within(loans, name, depth)
    &&& depth > 0 ==> !aliases_within(loans, name, (depth - 1) as nat)
}

/// Where aliases end within `depth` and no sooner, there are as many loans as there are depths up
/// to it: one for each of them.
proof fn lemma_chain(loans: Map<Name, Loan>, name: Name, depth: nat) -> (chain: Seq<Name>)
    requires
        least(loans, name, depth),
    ensures
        chain.len() == depth + 1,
        forall|i: int| 0 <= i < chain.len() ==> least(loans, #[trigger] chain[i], i as nat),
    decreases depth,
{
    if depth == 0 {
        seq![name]
    } else {
        let aliasing = loans[name].aliasing;
        let below = (depth - 1) as nat;
        assert(exists|i: int| 0 <= i < aliasing.len() && least(loans, #[trigger] aliasing[i], below))
            by {
            if forall|i: int|
                0 <= i < aliasing.len() ==> !least(loans, #[trigger] aliasing[i], below) {
                assert forall|i: int| 0 <= i < aliasing.len() implies below > 0 && aliases_within(
                    loans,
                    #[trigger] loans[name].aliasing[i],
                    (below - 1) as nat,
                ) by {
                    assert(aliases_within(loans, loans[name].aliasing[i], below));
                    assert(!least(loans, aliasing[i], below));
                }
                if aliasing.len() > 0 {
                    assert(aliasing[0] == loans[name].aliasing[0]);
                    assert(!least(loans, aliasing[0], below));
                    assert(aliases_within(loans, loans[name].aliasing[0], below));
                }
                assert(aliases_within(loans, name, below));
            }
        }
        let i = choose|i: int| 0 <= i < aliasing.len() && least(loans, #[trigger] aliasing[i], below);
        let rest = lemma_chain(loans, aliasing[i], below);
        rest.push(name)
    }
}

/// Aliases that end at all end within as many steps as there are loans.
proof fn lemma_depth(loans: Map<Name, Loan>, names: Seq<Name>, name: Name)
    requires
        forall|k: Name| loans.contains_key(k) <==> #[trigger] names.contains(k),
    ensures
        aliases_end(loans, name) <==> aliases_within(loans, name, names.len()),
{
    if aliases_end(loans, name) {
        let some = choose|depth: nat| aliases_within(loans, name, depth);
        let depth = lemma_least(loans, name, some);
        let chain = lemma_chain(loans, name, depth);
        assert forall|i: int, j: int| 0 <= i < j < chain.len() implies chain[i] != chain[j] by {
            if chain[i] == chain[j] {
                assert(least(loans, chain[i], i as nat));
                assert(least(loans, chain[j], j as nat));
                lemma_within_more(loans, chain[i], i as nat, (j - 1) as nat);
            }
        }
        assert(chain.no_duplicates());
        assert forall|k: Name| #[trigger] chain.contains(k) implies names.contains(k) by {
            let i = chain.index_of(k);
            assert(least(loans, chain[i], i as nat));
            assert(loans.contains_key(k));
        }
        chain.unique_seq_to_set();
        assert(chain.to_set().subset_of(names.to_set()));
        names.lemma_cardinality_of_set();
        vstd::set_lib::lemma_len_subset(chain.to_set(), names.to_set());
        lemma_within_more(loans, name, depth, names.len());
    }
}

proof fn lemma_least(loans: Map<Name, Loan>, name: Name, depth: nat) -> (result: nat)
    requires
        aliases_within(loans, name, depth),
    ensures
        result <= depth,
        least(loans, name, result),
    decreases depth,
{
    if depth > 0 && aliases_within(loans, name, (depth - 1) as nat) {
        lemma_least(loans, name, (depth - 1) as nat)
    } else {
        depth
    }
}

impl<'a> ExprVisitor<'a> {
    fn aliases_end_within(&self, name: &String, depth: usize) -> (result: bool)
        ensures
            result == aliases_within(self@.loans, name@, depth as nat),
        decreases depth,
    {
        match self.borrow_map.get(name) {
            None => false,
            Some(data) => {
                let ghost aliasing = self@.loans[name@].aliasing;
                assert(aliasing == names_view(data.aliasing@));
                if data.aliasing.len() == 0 {
                    return true;
                }
                if depth == 0 {
                    return false;
                }
                let mut i: usize = 0;
                while i < data.aliasing.len()
                    invariant
                        i <= data.aliasing@.len(),
                        depth > 0,
                        aliasing == names_view(data.aliasing@),
                        aliasing == self@.loans[name@].aliasing,
                        forall|j: int|
                            0 <= j < i ==> aliases_within(
                                self@.loans,
                                #[trigger] aliasing[j],
                                (depth - 1) as nat,
                            ),
                    decreases data.aliasing@.len() - i,
                {
                    if !self.aliases_end_within(&data.aliasing[i], depth - 1) {
                        assert(!aliases_within(
                            self@.loans,
                            self@.loans[name@].aliasing[i as int],
                            (depth - 1) as nat,
                        ));
                        return false;
                    }
                    i += 1;
                }
                true
            },
        }
    }

    /// A use of `r` can be recorded.
    pub fn can_update_rap(&self, r: &ResourceAccessPoint) -> (result: bool)
        ensures
            result == self@.can_update_rap(r@),
    {
        proof {
            use_type_invariant(&self.borrow_map);
            self.borrow_map.lemma_names();
            lemma_depth(self@.loans, self@.borrowers, r@.spec_name());
        }
        !r.is_ref() || self.aliases_end_within(r.name(), self.borrow_map.len())
    }

    /// An event from `rhs` to `lhs` can be added to the line.
    pub fn can_add_ev(&self, line: usize, lhs: &ResourceTy, rhs: &ResourceTy) -> (result: bool)
        ensures
            forall|evt: Evt, is_partial: bool|
                result == #[trigger] self@.can_add_ev(line, evt, lhs@, rhs@, is_partial),
            forall|event: ExternalEvent<Name>|
                event.ends() == (rhs@, lhs@) ==> result == #[trigger] self@.can_add_event(
                    line,
                    event,
                ),
    {
        let arrow = match (rhs, lhs) {
            (ResourceTy::Value(ResourceAccessPoint::Function(_)), _) => false,
            (_, ResourceTy::Value(ResourceAccessPoint::Function(_))) => false,
            _ => rhs.rap().is_some() && lhs.rap().is_some(),
        };
        !arrow || self.event_line_map.contains_key(&line)
    }
}

} // verus!
