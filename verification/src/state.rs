//! What the visitor has recorded, as contracts see it, and how each operation changes it.

use crate::aliases::{aliases_end, reaches, splice_all, with_lifetime, Loan};
use crate::data::{
    ExternalEvent, Function, MutRef, Name, Owner, ResourceAccessPoint, ResourceTy, StaticRef,
    Struct,
};
use crate::expr_visitor::{Evt, RapData};
use vstd::prelude::*;

verus! {

/// The record that the visitor keeps.
#[verifier::ext_equal]
pub ghost struct State {
    /// The active loans, by the borrower's name.
    pub loans: Map<Name, Loan>,
    /// The borrowers, in the order in which they first borrowed.
    pub borrowers: Seq<Name>,
    /// The access points, by name.
    pub raps: Map<Name, RapData<Name>>,
    /// The names of the access points, in the order in which they were added.
    pub rap_names: Seq<Name>,
    /// For each line of the program, the events on it that are drawn as arrows.
    pub lines: Map<usize, Seq<ExternalEvent<Name>>>,
    /// All events, each with its line, in the order in which they were added.
    pub events: Seq<(usize, ExternalEvent<Name>)>,
    /// How many access points have been given a number.
    pub hashes: nat,
    /// The number that the next event gets.
    pub next_id: nat,
}

/// The event that `evt` stands for, with what it happens to on the left and where the resource
/// comes from on the right.
pub open spec fn event_of<N>(
    evt: Evt,
    lhs: ResourceTy<N>,
    rhs: ResourceTy<N>,
    id: usize,
    is_partial: bool,
) -> ExternalEvent<N> {
    match evt {
        Evt::Bind => ExternalEvent::Bind { from: rhs, to: lhs, id },
        Evt::Copy => ExternalEvent::Copy { from: rhs, to: lhs, id, is_partial },
        Evt::Move => ExternalEvent::Move { from: rhs, to: lhs, id, is_partial },
        Evt::SBorrow => ExternalEvent::StaticBorrow { from: rhs, to: lhs, id, is_partial },
        Evt::MBorrow => ExternalEvent::MutableBorrow { from: rhs, to: lhs, id, is_partial },
        Evt::SDie => ExternalEvent::StaticDie { from: rhs, to: lhs, id },
        Evt::MDie => ExternalEvent::MutableDie { from: rhs, to: lhs, id },
        Evt::PassBySRef => ExternalEvent::PassByStaticReference { from: rhs, to: lhs, id },
        Evt::PassByMRef => ExternalEvent::PassByMutableReference { from: rhs, to: lhs, id },
    }
}

impl State {
    /// Adds an access point, unless its name is taken.
    pub open spec fn add_rap(
        self,
        r: ResourceAccessPoint<Name>,
        scope: usize,
        is_global: bool,
    ) -> State {
        if self.raps.contains_key(r.spec_name()) {
            self
        } else {
            State {
                raps: self.raps.insert(r.spec_name(), RapData { rap: r, scope, is_global }),
                rap_names: self.rap_names.push(r.spec_name()),
                hashes: self.hashes + 1,
                ..self
            }
        }
    }

    pub open spec fn add_owner(
        self,
        name: Name,
        is_mut: bool,
        scope: usize,
        is_global: bool,
    ) -> State {
        self.add_rap(
            ResourceAccessPoint::Owner(Owner { name, hash: self.hashes as u64, is_mut }),
            scope,
            is_global,
        )
    }

    pub open spec fn add_static_ref(
        self,
        name: Name,
        is_mut: bool,
        scope: usize,
        is_global: bool,
    ) -> State {
        self.add_rap(
            ResourceAccessPoint::StaticRef(StaticRef { name, hash: self.hashes as u64, is_mut }),
            scope,
            is_global,
        )
    }

    pub open spec fn add_mut_ref(
        self,
        name: Name,
        is_mut: bool,
        scope: usize,
        is_global: bool,
    ) -> State {
        self.add_rap(
            ResourceAccessPoint::MutRef(MutRef { name, hash: self.hashes as u64, is_mut }),
            scope,
            is_global,
        )
    }

    pub open spec fn add_fn(self, name: Name, scope: usize) -> State {
        self.add_rap(
            ResourceAccessPoint::Function(Function { name, hash: self.hashes as u64 }),
            scope,
            true,
        )
    }

    pub open spec fn add_struct(
        self,
        name: Name,
        owner: u64,
        is_member: bool,
        is_mut: bool,
        scope: usize,
        is_global: bool,
    ) -> State {
        self.add_rap(
            ResourceAccessPoint::Struct(
                Struct { name, hash: self.hashes as u64, owner, is_mut, is_member },
            ),
            scope,
            is_global,
        )
    }

    /// Records a loan to `name`, in place of one that it may already have.
    pub open spec fn add_loan(self, name: Name, loan: Loan) -> State {
        State {
            loans: self.loans.insert(name, loan),
            borrowers: if self.loans.contains_key(name) {
                self.borrowers
            } else {
                self.borrowers.push(name)
            },
            ..self
        }
    }

    /// Adds a reference and its loan, which so far lives on the line where it was taken.
    pub open spec fn add_ref(
        self,
        name: Name,
        ref_mutability: bool,
        is_mut: bool,
        line: usize,
        lender: ResourceTy<Name>,
        aliasing: Seq<Name>,
        scope: usize,
        is_global: bool,
    ) -> State {
        let added = if ref_mutability {
            self.add_mut_ref(name, is_mut, scope, is_global)
        } else {
            self.add_static_ref(name, is_mut, scope, is_global)
        };
        added.add_loan(
            name,
            Loan { lender, assigned_at: line, lifetime: line, ref_mutability, aliasing },
        )
    }

    /// The loan of `name`, and of everything that it aliases, now lives until `line`.
    pub open spec fn update_lifetime(self, name: Name, line: usize) -> State {
        State {
            loans: with_lifetime(self.loans, |k: Name| reaches(self.loans, name, k), line),
            ..self
        }
    }

    /// The names of `new` are put among the aliases of `name`.
    pub open spec fn update_aliasing(
        self,
        name: Name,
        new: Map<usize, String>,
        offset: usize,
    ) -> State {
        State {
            loans: self.loans.insert(
                name,
                Loan {
                    aliasing: splice_all(self.loans[name].aliasing, new, offset),
                    ..self.loans[name]
                },
            ),
            ..self
        }
    }

    pub open spec fn update_rap(self, r: ResourceAccessPoint<Name>, line: usize) -> State {
        if r.spec_is_ref() {
            self.update_lifetime(r.spec_name(), line)
        } else {
            self
        }
    }

    /// A use of `r` can be recorded: if it is a reference, its aliases lead somewhere.
    pub open spec fn can_update_rap(self, r: ResourceAccessPoint<Name>) -> bool {
        r.spec_is_ref() ==> aliases_end(self.loans, r.spec_name())
    }

    pub open spec fn add_external_event(self, line: usize, event: ExternalEvent<Name>) -> State {
        State {
            events: self.events.push((line, event)),
            lines: if event.draws_arrow() {
                self.lines.insert(line, self.lines[line].push(event))
            } else {
                self.lines
            },
            ..self
        }
    }

    /// An event that is drawn as an arrow needs its line to be one of the program's.
    pub open spec fn can_add_event(self, line: usize, event: ExternalEvent<Name>) -> bool {
        event.draws_arrow() ==> self.lines.contains_key(line)
    }

    pub open spec fn add_ev(
        self,
        line: usize,
        evt: Evt,
        lhs: ResourceTy<Name>,
        rhs: ResourceTy<Name>,
        is_partial: bool,
    ) -> State {
        State {
            next_id: self.next_id + 1,
            ..self.add_external_event(
                line,
                event_of(evt, lhs, rhs, self.next_id as usize, is_partial),
            )
        }
    }

    pub open spec fn can_add_ev(
        self,
        line: usize,
        evt: Evt,
        lhs: ResourceTy<Name>,
        rhs: ResourceTy<Name>,
        is_partial: bool,
    ) -> bool {
        self.can_add_event(line, event_of(evt, lhs, rhs, self.next_id as usize, is_partial))
    }
}

} // verus!
