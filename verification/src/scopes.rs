//! The events of access points that go out of scope.

use crate::data::{ExternalEvent, Name, ResourceAccessPoint};
use crate::expr_visitor::ExprVisitor;
use crate::state::State;
use vstd::prelude::*;

verus! {

/// There already is an event that says that `rap` goes out of scope.
pub open spec fn has_left(
    events: Seq<(usize, ExternalEvent<Name>)>,
    rap: ResourceAccessPoint<Name>,
) -> bool {
    exists|i: int| 0 <= i < events.len() && (#[trigger] events[i]).1.ends_scope_of(rap)
}

impl State {
    /// The access point called `name` still needs an event for the end of its scope: it is no
    /// function, belongs to no branch, and has no such event yet.
    pub open spec fn leaves(self, name: Name) -> bool {
        &&& !(self.raps[name].rap is Function)
        &&& self.raps[name].is_global
        &&& !has_left(self.events, self.raps[name].rap)
    }

    /// Adds the event for the end of the scope of `name`, if it needs one.
    pub open spec fn leave_scope(self, name: Name) -> State {
        if self.leaves(name) {
            State {
                next_id: self.next_id + 1,
                ..self.add_external_event(
                    self.raps[name].scope,
                    ExternalEvent::GoOutOfScope {
                        ro: self.raps[name].rap,
                        id: self.next_id as usize,
                    },
                )
            }
        } else {
            self
        }
    }

    pub open spec fn leave_scopes(self, names: Seq<Name>) -> State
        decreases names.len(),
    {
        if names.len() == 0 {
            self
        } else {
            self.leave_scopes(names.drop_last()).leave_scope(names.last())
        }
    }
}

pub proof fn lemma_leave_prefix(s: State, names: Seq<Name>, n: int)
    requires
        0 <= n <= names.len(),
    ensures
        s.leave_scopes(names.take(n)).next_id <= s.leave_scopes(names).next_id,
    decreases names.len(),
{
    if n == names.len() {
        assert(names.take(n) =~= names);
    } else {
        assert(names.drop_last().take(n) =~= names.take(n));
        lemma_leave_prefix(s, names.drop_last(), n);
    }
}

/// Leaving scopes adds events and nothing else.
pub proof fn lemma_leave_scopes(s: State, names: Seq<Name>)
    ensures
        ({
            let t = s.leave_scopes(names);
            &&& t == (State { events: t.events, next_id: t.next_id, ..s })
            &&& s.events.is_prefix_of(t.events)
            &&& t.next_id - s.next_id == t.events.len() - s.events.len()
        }),
    decreases names.len(),
{
    if names.len() == 0 {
        assert(s.events =~= s.events.subrange(0, s.events.len() as int));
    } else {
        lemma_leave_scopes(s, names.drop_last());
        let t = s.leave_scopes(names.drop_last());
        let u = s.leave_scopes(names);
        assert(s.events =~= u.events.subrange(0, s.events.len() as int));
    }
}

impl<'a> ExprVisitor<'a> {
    /// There already is an event that says that `rap` goes out of scope.
    fn has_gone_out_of_scope(&self, rap: &ResourceAccessPoint) -> (result: bool)
        ensures
            result == has_left(self@.events, rap@),
    {
        let mut i: usize = 0;
        while i < self.preprocessed_events.len()
            invariant
                i <= self.preprocessed_events@.len(),
                forall|j: int|
                    0 <= j < i ==> !(#[trigger] self@.events[j]).1.ends_scope_of(rap@),
            decreases self.preprocessed_events@.len() - i,
        {
            assert(self@.events[i as int].1 == self.preprocessed_events@[i as int].1@);
            match self.preprocessed_events[i].1.is_gos_ev() {
                Some(r) => {
                    if *r == *rap {
                        assert(self@.events[i as int].1.ends_scope_of(rap@));
                        return true;
                    }
                },
                None => {},
            }
            i += 1;
        }
        false
    }

    /// Adds the events of access points that go out of scope. One that belongs to a branch had
    /// its event added there, and none gets two.
    pub fn print_out_of_scope(&mut self)
        requires
            old(self)@.leave_scopes(old(self)@.rap_names).next_id <= usize::MAX,
        ensures
            final(self)@ == old(self)@.leave_scopes(old(self)@.rap_names),
            final(self).same_setting(old(self)),
    {
        let ghost before = self@;
        let ghost names = self@.rap_names;
        let mut i: usize = 0;
        proof {
            assert(names.take(0) =~= Seq::<Name>::empty());
        }
        while i < self.raps.len()
            invariant
                i <= names.len(),
                names == before.rap_names,
                before.leave_scopes(names).next_id <= usize::MAX,
                self@ == before.leave_scopes(names.take(i as int)),
                self@.rap_names == names,
                self.same_setting(old(self)),
            decreases names.len() - i,
        {
            proof {
                lemma_leave_prefix(before, names, i + 1);
                assert(names.take(i + 1).drop_last() =~= names.take(i as int));
            }
            let rap = self.raps.value_at(i).clone();
            if !rap.rap.is_fn() && rap.is_global && !self.has_gone_out_of_scope(&rap.rap) {
                let id = self.unique_id;
                self.add_external_event(rap.scope, ExternalEvent::GoOutOfScope { ro: rap.rap, id });
                self.unique_id += 1;
            }
            i += 1;
        }
        assert(names.take(i as int) =~= names);
    }
}

} // verus!
