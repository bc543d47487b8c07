//! The visitor that turns expressions into events between resource access points.

use crate::aliases::{
    aliases_end, aliases_within, can_splice, lemma_reaches, lemma_same_aliasing, lemma_splice_gap,
    lemma_with_lifetime, reaches, spliced, with_lifetime, Loan,
};
use crate::data::{
    ExternalEvent, Function, MutRef, Name, Owner, ResourceAccessPoint, ResourceTy, StaticRef,
    Struct,
};
use crate::hir::{field_name, Expr, ExprField, ExprKind, Mutability, TyKind, UnOp};
use crate::name_map::NameMap;
use crate::state::{event_of, State};
use crate::steps::{
    field_rap, field_steps, fields_known, lemma_can_take, lemma_fields_prefix, lemma_one_step,
    rhs_known, rhs_steps, transfer_evt, Step,
};
use std::collections::{BTreeMap, HashMap, VecDeque};
use vstd::prelude::*;
use vstd::std_specs::cmp::OrdSpec;
use vstd::std_specs::iter::IteratorSpec;

verus! {

/// What an expression does to the resources it names.
#[derive(Debug, Clone, Copy, PartialEq, Eq, Structural)]
pub enum Evt {
    /// An access point is bound to a resource without a name: `let a = 9;`
    Bind,
    /// `let x: i32 = y;`
    Copy,
    /// `let x: String = y;`
    Move,
    /// `let x: &i32 = &y;`
    SBorrow,
    /// `let x: &mut i32 = &mut y;`
    MBorrow,
    /// An access point returns a resource that it borrowed immutably.
    SDie,
    /// An access point returns a resource that it borrowed mutably.
    MDie,
    /// An access point is passed by shared reference.
    PassBySRef,
    /// An access point is passed by mutable reference: `s.push_str("text")`
    PassByMRef,
}

/// A loan between a borrower and its lender.
#[derive(Debug)]
pub struct RefData {
    /// Who the reference borrowed from.
    pub lender: ResourceTy,
    /// The line on which the loan begins.
    pub assigned_at: usize,
    /// The line on which the loan ends.
    pub lifetime: usize,
    /// The loan is a mutable one.
    pub ref_mutability: bool,
    /// The other references that this one aliases.
    pub aliasing: VecDeque<String>,
}

/// An access point, the line on which its scope ends, and whether it belongs to no branch.
#[derive(Debug)]
pub struct RapData<N = String> {
    pub rap: ResourceAccessPoint<N>,
    pub scope: usize,
    pub is_global: bool,
}

/// The names that a list holds.
pub open spec fn names_view(names: Seq<String>) -> Seq<Name> {
    Seq::new(names.len(), |i: int| names[i]@)
}

impl View for RefData {
    type V = Loan;

    open spec fn view(&self) -> Loan {
        Loan {
            lender: self.lender@,
            assigned_at: self.assigned_at,
            lifetime: self.lifetime,
            ref_mutability: self.ref_mutability,
            aliasing: names_view(self.aliasing@),
        }
    }
}

impl View for RapData {
    type V = RapData<Name>;

    open spec fn view(&self) -> RapData<Name> {
        RapData { rap: self.rap@, scope: self.scope, is_global: self.is_global }
    }
}

/// A copy of a list of names.
pub(crate) fn clone_names(names: &VecDeque<String>) -> (result: VecDeque<String>)
    ensures
        names_view(result@) == names_view(names@),
{
    let result = names.clone();
    assert(names_view(result@) =~= names_view(names@));
    result
}

impl Clone for RefData {
    fn clone(&self) -> (result: Self)
        ensures
            result@ == self@,
    {
        RefData {
            lender: self.lender.clone(),
            assigned_at: self.assigned_at,
            lifetime: self.lifetime,
            ref_mutability: self.ref_mutability,
            aliasing: clone_names(&self.aliasing),
        }
    }
}

impl Clone for RapData {
    fn clone(&self) -> (result: Self)
        ensures
            result == *self,
    {
        RapData { rap: self.rap.clone(), scope: self.scope, is_global: self.is_global }
    }
}

/// Visits the expressions of a function and records what they do.
pub struct ExprVisitor<'a> {
    /// The active loans, by the borrower's name.
    pub borrow_map: NameMap<RefData>,
    /// The access points, by name.
    pub raps: NameMap<RapData>,
    /// The line on which the scope that is being visited ends.
    pub current_scope: usize,
    pub analysis_result: HashMap<usize, Vec<String>>,
    /// For each line of the program, the events on it that are drawn as arrows.
    pub event_line_map: BTreeMap<usize, Vec<ExternalEvent>>,
    /// The events and the lines on which they occur.
    pub preprocessed_events: Vec<(usize, ExternalEvent)>,
    /// How many access points have been given a number.
    pub rap_hashes: usize,
    pub source_map: &'a BTreeMap<usize, String>,
    pub annotated_lines: BTreeMap<usize, Vec<String>>,
    pub id_map: NameMap<usize>,
    /// The number that the next event gets.
    pub unique_id: usize,
    /// The expression that is being visited lies in a branch.
    pub inside_branch: bool,
    pub fn_ret: bool,
}

/// Keys that come in increasing order are increasing numbers.
proof fn lemma_increasing(keys: Seq<usize>)
    requires
        vstd::std_specs::btree::increasing_seq(keys),
    ensures
        forall|i: int, j: int| 0 <= i < j < keys.len() ==> keys[i] < keys[j],
{
    assert forall|i: int, j: int| 0 <= i < j < keys.len() implies keys[i] < keys[j] by {
        assert(keys[i].cmp_spec(&keys[j]) is Less);
    }
}

/// The events that a list holds.
pub open spec fn events_view(events: Seq<ExternalEvent>) -> Seq<ExternalEvent<Name>> {
    Seq::new(events.len(), |i: int| events[i]@)
}

/// The events that a list holds, each with its line.
pub open spec fn placed_events_view(events: Seq<(usize, ExternalEvent)>) -> Seq<
    (usize, ExternalEvent<Name>),
> {
    Seq::new(events.len(), |i: int| (events[i].0, events[i].1@))
}

/// The events on each line.
pub open spec fn lines_view(lines: Map<usize, Vec<ExternalEvent>>) -> Map<
    usize,
    Seq<ExternalEvent<Name>>,
> {
    Map::new(|l: usize| lines.contains_key(l), |l: usize| events_view(lines[l]@))
}

impl<'a> View for ExprVisitor<'a> {
    type V = State;

    open spec fn view(&self) -> State {
        State {
            loans: self.borrow_map@,
            borrowers: self.borrow_map.names(),
            raps: self.raps@,
            rap_names: self.raps.names(),
            lines: lines_view(self.event_line_map@),
            events: placed_events_view(self.preprocessed_events@),
            hashes: self.rap_hashes as nat,
            next_id: self.unique_id as nat,
        }
    }
}

impl<'a> ExprVisitor<'a> {
    /// Nothing but the record differs between the two visitors.
    pub open spec fn same_setting(&self, other: &Self) -> bool {
        &&& self.current_scope == other.current_scope
        &&& self.analysis_result == other.analysis_result
        &&& self.source_map == other.source_map
        &&& self.annotated_lines == other.annotated_lines
        &&& self.id_map == other.id_map
        &&& self.inside_branch == other.inside_branch
        &&& self.fn_ret == other.fn_ret
    }

    /// Lets a loan, and those of everything that it aliases, live until `line`.
    pub fn update_lifetime(&mut self, name: &String, line: usize)
        requires
            aliases_end(old(self)@.loans, name@),
        ensures
            final(self)@ == old(self)@.update_lifetime(name@, line),
            final(self).same_setting(old(self)),
    {
        let ghost depth = choose|depth: nat| aliases_within(self@.loans, name@, depth);
        self.update_lifetime_within(name, line, Ghost(depth));
    }

    fn update_lifetime_within(&mut self, name: &String, line: usize, Ghost(depth): Ghost<nat>)
        requires
            aliases_within(old(self)@.loans, name@, depth),
        ensures
            final(self)@ == old(self)@.update_lifetime(name@, line),
            final(self).same_setting(old(self)),
        decreases depth,
    {
        let ghost before = self@;
        let mut data = self.borrow_map.get(name).unwrap().clone();
        data.lifetime = line;
        let aliasing = clone_names(&data.aliasing);
        self.borrow_map.insert(name.clone(), data);
        let ghost names = before.loans[name@].aliasing;
        let mut i: usize = 0;
        proof {
            assert(self@.loans =~= with_lifetime(
                before.loans,
                |k: Name| k == name@ || exists|j: int| 0 <= j < 0 && reaches(before.loans, #[trigger] names[j], k),
                line,
            ));
        }
        while i < aliasing.len()
            invariant
                i <= aliasing@.len(),
                names == names_view(aliasing@),
                before == old(self)@,
                names == before.loans[name@].aliasing,
                aliases_within(before.loans, name@, depth),
                self.same_setting(old(self)),
                self@ == (State { loans: self@.loans, ..before }),
                self@.loans == with_lifetime(
                    before.loans,
                    |k: Name|
                        k == name@ || exists|j: int|
                            0 <= j < i && reaches(before.loans, #[trigger] names[j], k),
                    line,
                ),
            decreases aliasing@.len() - i,
        {
            let ghost at = self@;
            proof {
                lemma_with_lifetime(
                    before.loans,
                    |k: Name|
                        k == name@ || exists|j: int|
                            0 <= j < i && reaches(before.loans, #[trigger] names[j], k),
                    line,
                );
                lemma_same_aliasing(before.loans, at.loans);
                assert(before.loans[name@].aliasing[i as int] == aliasing@[i as int]@);
            }
            self.update_lifetime_within(&aliasing[i], line, Ghost((depth - 1) as nat));
            i += 1;
            proof {
                assert(self@.loans =~= with_lifetime(
                    before.loans,
                    |k: Name|
                        k == name@ || exists|j: int|
                            0 <= j < i && reaches(before.loans, #[trigger] names[j], k),
                    line,
                ));
            }
        }
        proof {
            assert forall|k: Name| #[trigger] before.loans.contains_key(k) implies (reaches(
                before.loans,
                name@,
                k,
            ) <==> k == name@ || exists|j: int|
                0 <= j < i && reaches(before.loans, #[trigger] names[j], k)) by {
                lemma_reaches(before.loans, name@, k);
            }
            assert(self@.loans =~= before.update_lifetime(name@, line).loans);
        }
    }

    /// Adds an access point, unless its name is taken.
    pub fn add_rap(&mut self, r: ResourceAccessPoint, scope: usize, is_global: bool)
        requires
            old(self)@.add_rap(r@, scope, is_global).hashes <= usize::MAX,
        ensures
            final(self)@ == old(self)@.add_rap(r@, scope, is_global),
            final(self).same_setting(old(self)),
    {
        if !self.raps.contains_key(r.name()) {
            self.rap_hashes += 1;
            let name = r.name().clone();
            self.raps.insert(name, RapData { rap: r, scope, is_global });
        }
    }

    /// Adds an owner.
    pub fn add_owner(&mut self, name: String, mutability: bool, scope: usize, is_global: bool)
        requires
            old(self)@.add_owner(name@, mutability, scope, is_global).hashes <= usize::MAX,
        ensures
            final(self)@ == old(self)@.add_owner(name@, mutability, scope, is_global),
            final(self).same_setting(old(self)),
    {
        let hash = self.rap_hashes as u64;
        self.add_rap(
            ResourceAccessPoint::Owner(Owner { name, hash, is_mut: mutability }),
            scope,
            is_global,
        );
    }

    /// Adds a reference and records its loan.
    pub fn add_ref(
        &mut self,
        name: String,
        ref_mutability: bool,
        lhs_mut: bool,
        line_num: usize,
        lender: ResourceTy,
        alia: VecDeque<String>,
        scope: usize,
        is_global: bool,
    )
        requires
            old(self)@.add_ref(
                name@,
                ref_mutability,
                lhs_mut,
                line_num,
                lender@,
                names_view(alia@),
                scope,
                is_global,
            ).hashes <= usize::MAX,
        ensures
            final(self)@ == old(self)@.add_ref(
                name@,
                ref_mutability,
                lhs_mut,
                line_num,
                lender@,
                names_view(alia@),
                scope,
                is_global,
            ),
            final(self).same_setting(old(self)),
    {
        if ref_mutability {
            self.add_mut_ref(name.clone(), lhs_mut, scope, is_global);
        } else {
            self.add_static_ref(name.clone(), lhs_mut, scope, is_global);
        }
        self.borrow_map.insert(
            name,
            RefData {
                lender,
                assigned_at: line_num,
                lifetime: line_num,
                ref_mutability,
                aliasing: alia,
            },
        );
    }

    /// Adds a shared reference.
    pub fn add_static_ref(&mut self, name: String, mutability: bool, scope: usize, is_global: bool)
        requires
            old(self)@.add_static_ref(name@, mutability, scope, is_global).hashes <= usize::MAX,
        ensures
            final(self)@ == old(self)@.add_static_ref(name@, mutability, scope, is_global),
            final(self).same_setting(old(self)),
    {
        let hash = self.rap_hashes as u64;
        self.add_rap(
            ResourceAccessPoint::StaticRef(StaticRef { name, hash, is_mut: mutability }),
            scope,
            is_global,
        );
    }

    /// Adds a mutable reference.
    pub fn add_mut_ref(&mut self, name: String, mutability: bool, scope: usize, is_global: bool)
        requires
            old(self)@.add_mut_ref(name@, mutability, scope, is_global).hashes <= usize::MAX,
        ensures
            final(self)@ == old(self)@.add_mut_ref(name@, mutability, scope, is_global),
            final(self).same_setting(old(self)),
    {
        let hash = self.rap_hashes as u64;
        self.add_rap(
            ResourceAccessPoint::MutRef(MutRef { name, hash, is_mut: mutability }),
            scope,
            is_global,
        );
    }

    /// Adds a function. It belongs to no branch.
    pub fn add_fn(&mut self, name: String)
        requires
            old(self)@.add_fn(name@, old(self).current_scope).hashes <= usize::MAX,
        ensures
            final(self)@ == old(self)@.add_fn(name@, old(self).current_scope),
            final(self).same_setting(old(self)),
    {
        let hash = self.rap_hashes as u64;
        let scope = self.current_scope;
        self.add_rap(ResourceAccessPoint::Function(Function { name, hash }), scope, true);
    }

    /// Adds a struct or one of its fields.
    pub fn add_struct(
        &mut self,
        name: String,
        owner: u64,
        mem: bool,
        mutability: bool,
        scope: usize,
        is_global: bool,
    )
        requires
            old(self)@.add_struct(name@, owner, mem, mutability, scope, is_global).hashes
                <= usize::MAX,
        ensures
            final(self)@ == old(self)@.add_struct(name@, owner, mem, mutability, scope, is_global),
            final(self).same_setting(old(self)),
    {
        let hash = self.rap_hashes as u64;
        self.add_rap(
            ResourceAccessPoint::Struct(
                Struct { name, hash, owner, is_mut: mutability, is_member: mem },
            ),
            scope,
            is_global,
        );
    }

    /// Records a use of `r`: if it is a reference, its loan lives until `line_num`.
    pub fn update_rap(&mut self, r: &ResourceAccessPoint, line_num: usize)
        requires
            old(self)@.can_update_rap(r@),
        ensures
            final(self)@ == old(self)@.update_rap(r@, line_num),
            final(self).same_setting(old(self)),
    {
        if r.is_ref() {
            self.update_lifetime(r.name(), line_num);
        }
    }

    /// Adds an event to the list of all events and, if it is drawn as an arrow, to its line.
    pub fn add_external_event(&mut self, line_num: usize, event: ExternalEvent)
        requires
            old(self)@.can_add_event(line_num, event@),
        ensures
            final(self)@ == old(self)@.add_external_event(line_num, event@),
            final(self).same_setting(old(self)),
    {
        let ghost before = self@;
        self.preprocessed_events.push((line_num, event.clone()));
        assert(self@.events =~= before.events.push((line_num, event@)));
        let (from, to) = event.resource_access_point_extract();
        match (&from, &to) {
            (ResourceTy::Value(ResourceAccessPoint::Function(_)), _) => {},
            (_, ResourceTy::Value(ResourceAccessPoint::Function(_))) => {},
            (ResourceTy::Anonymous, ResourceTy::Anonymous) => {},
            (_, ResourceTy::Caller) => {},
            (ResourceTy::Value(_), ResourceTy::Value(_))
            | (ResourceTy::Deref(_), ResourceTy::Deref(_))
            | (ResourceTy::Value(_), ResourceTy::Deref(_))
            | (ResourceTy::Deref(_), ResourceTy::Value(_)) => {
                assert(event@.draws_arrow());
                let ghost lines = self.event_line_map@;
                let mut on_line = self.event_line_map.remove(&line_num).unwrap();
                let ghost line_before = on_line@;
                on_line.push(event);
                assert(events_view(on_line@) =~= events_view(line_before).push(event@));
                self.event_line_map.insert(line_num, on_line);
                assert(self@.lines =~= before.lines.insert(
                    line_num,
                    before.lines[line_num].push(event@),
                ));
            },
            _ => {},
        }
    }

    /// The event that `evt` stands for.
    pub fn ext_ev_of_evt(
        &self,
        evt: Evt,
        lhs: ResourceTy,
        rhs: ResourceTy,
        id: usize,
        is_partial: bool,
    ) -> (result: ExternalEvent)
        ensures
            result == event_of(evt, lhs, rhs, id, is_partial),
            result@ == event_of(evt, lhs@, rhs@, id, is_partial),
    {
        match evt {
            Evt::Bind => ExternalEvent::Bind { from: rhs, to: lhs, id },
            Evt::Copy => ExternalEvent::Copy { from: rhs, to: lhs, id, is_partial },
            Evt::Move => ExternalEvent::Move { from: rhs, to: lhs, id, is_partial },
            Evt::SBorrow => ExternalEvent::StaticBorrow { from: rhs, to: lhs, id, is_partial },
            Evt::MBorrow => ExternalEvent::MutableBorrow { from: rhs, to: lhs, id, is_partial },
            Evt::PassBySRef => ExternalEvent::PassByStaticReference { from: rhs, to: lhs, id },
            Evt::PassByMRef => ExternalEvent::PassByMutableReference { from: rhs, to: lhs, id },
            Evt::SDie => ExternalEvent::StaticDie { from: rhs, to: lhs, id },
            Evt::MDie => ExternalEvent::MutableDie { from: rhs, to: lhs, id },
        }
    }

    /// Adds the event that `evt` stands for, under the next number.
    pub fn add_ev(
        &mut self,
        line_num: usize,
        evt: Evt,
        lhs: ResourceTy,
        rhs: ResourceTy,
        is_partial: bool,
    )
        requires
            old(self)@.can_add_ev(line_num, evt, lhs@, rhs@, is_partial),
            old(self)@.next_id < usize::MAX,
        ensures
            final(self)@ == old(self)@.add_ev(line_num, evt, lhs@, rhs@, is_partial),
            final(self).same_setting(old(self)),
    {
        let id = self.unique_id;
        let event = self.ext_ev_of_evt(evt, lhs, rhs, id, is_partial);
        self.add_external_event(line_num, event);
        self.unique_id += 1;
    }

    /// Adds the events for a right-hand side whose resource is named: first the use of the access
    /// point it comes down to, if there is one, then the event itself.
    fn use_then_add(
        &mut self,
        used: Option<&ResourceAccessPoint>,
        line: usize,
        evt: Evt,
        lhs: ResourceTy,
        rhs: ResourceTy,
    )
        requires
            old(self)@.can_take(
                (match used {
                    Some(r) => seq![Step::Use { rap: r@, line }],
                    None => Seq::<Step>::empty(),
                }).push(Step::Add { line, evt, lhs: lhs@, rhs: rhs@ }),
            ),
        ensures
            final(self)@ == old(self)@.steps(
                (match used {
                    Some(r) => seq![Step::Use { rap: r@, line }],
                    None => Seq::<Step>::empty(),
                }).push(Step::Add { line, evt, lhs: lhs@, rhs: rhs@ }),
            ),
            final(self).same_setting(old(self)),
    {
        let ghost before = self@;
        let ghost uses = match used {
            Some(r) => seq![Step::Use { rap: r@, line }],
            None => Seq::<Step>::empty(),
        };
        let ghost add = Step::Add { line, evt, lhs: lhs@, rhs: rhs@ };
        proof {
            assert(uses.push(add) =~= uses + seq![add]);
            lemma_can_take(before, uses, seq![add]);
            lemma_one_step(before.steps(uses), add);
            assert(seq![add][0] == add);
        }
        match used {
            Some(r) => {
                proof {
                    assert(uses[0] == Step::Use { rap: r@, line });
                    lemma_one_step(before, uses[0]);
                }
                self.update_rap(r, line);
            },
            None => {
                assert(before.steps(uses) == before);
            },
        }
        self.add_ev(line, evt, lhs, rhs, false);
    }

    /// Adds the events of assigning `rhs` to `lhs`, as in a `let` statement. `evt` is what happens
    /// to a resource that the right-hand side names outright.
    pub fn match_rhs(&mut self, lhs: ResourceTy, rhs: &Expr, evt: Evt)
        requires
            rhs_known(old(self)@.raps, lhs@, *rhs),
            old(self)@.can_take(rhs_steps(old(self)@.raps, lhs@, *rhs, evt)),
        ensures
            final(self)@ == old(self)@.steps(rhs_steps(old(self)@.raps, lhs@, *rhs, evt)),
            final(self).same_setting(old(self)),
        decreases *rhs,
    {
        let ghost before = self@;
        let ghost steps = rhs_steps(before.raps, lhs@, *rhs, evt);
        match &rhs.kind {
            ExprKind::Path(p) => {
                let rhs_name = p.target_name();
                let rhs_rap = self.raps.get(&rhs_name).unwrap().rap.clone();
                proof {
                    assert(steps =~= seq![Step::Use { rap: rhs_rap@, line: p.line }].push(
                        Step::Add { line: p.line, evt, lhs: lhs@, rhs: ResourceTy::Value(rhs_rap@) },
                    ));
                }
                let resource = ResourceTy::Value(rhs_rap.clone());
                self.use_then_add(Some(&rhs_rap), p.line, evt, lhs, resource);
            },
            ExprKind::Call { line, fn_name } | ExprKind::MethodCall { line, fn_name } => {
                let rhs_rap = self.raps.get(fn_name).unwrap().rap.clone();
                proof {
                    assert(steps =~= Seq::empty().push(
                        Step::Add { line: *line, evt, lhs: lhs@, rhs: ResourceTy::Value(rhs_rap@) },
                    ));
                }
                self.use_then_add(None, *line, evt, lhs, ResourceTy::Value(rhs_rap));
            },
            ExprKind::Lit | ExprKind::Binary | ExprKind::Unary(UnOp::Not, _) | ExprKind::Unary(
                UnOp::Neg,
                _,
            ) => {
                proof {
                    assert(steps =~= Seq::empty().push(
                        Step::Add {
                            line: rhs.line,
                            evt: Evt::Bind,
                            lhs: lhs@,
                            rhs: ResourceTy::Anonymous,
                        },
                    ));
                }
                self.use_then_add(None, rhs.line, Evt::Bind, lhs, ResourceTy::Anonymous);
            },
            ExprKind::AddrOf(_, inner) => {
                let res = match &rhs.rap {
                    Some(r) => ResourceTy::Value(r.clone()),
                    None => ResourceTy::Anonymous,
                };
                let borrow = match rhs.fetch_mutability() {
                    Some(Mutability::Mut) => Evt::MBorrow,
                    _ => Evt::SBorrow,
                };
                self.use_then_add(inner.rap.as_ref(), inner.line, borrow, lhs, res);
            },
            ExprKind::Block(last) => {
                match last {
                    Some(res_expr) => self.match_rhs(lhs, res_expr, evt),
                    None => {},
                }
            },
            ExprKind::Unary(UnOp::Deref, inner) => {
                let res = match &inner.rap {
                    Some(r) => ResourceTy::Deref(r.clone()),
                    None => ResourceTy::Anonymous,
                };
                self.use_then_add(inner.rap.as_ref(), inner.line, evt, lhs, res);
            },
            ExprKind::Struct(fields) => {
                let ghost bind = Step::Add {
                    line: rhs.line,
                    evt: Evt::Bind,
                    lhs: lhs@,
                    rhs: ResourceTy::Anonymous,
                };
                proof {
                    lemma_can_take(before, seq![bind], field_steps(before.raps, lhs@, fields@));
                    lemma_one_step(before, bind);
                    assert(seq![bind][0] == bind);
                }
                self.add_ev(rhs.line, Evt::Bind, lhs.clone(), ResourceTy::Anonymous, false);
                let ghost bound = self@;
                let mut i: usize = 0;
                assert(fields@.take(0) =~= Seq::<ExprField>::empty());
                while i < fields.len()
                    invariant
                        i <= fields@.len(),
                        rhs.kind == ExprKind::Struct(*fields),
                        self.same_setting(old(self)),
                        bound.can_take(field_steps(bound.raps, lhs@, fields@)),
                        fields_known(bound.raps, lhs@, fields@),
                        self@ == bound.steps(
                            field_steps(bound.raps, lhs@, fields@.take(i as int)),
                        ),
                    decreases fields@.len() - i,
                {
                    let field = &fields[i];
                    let ghost done = field_steps(bound.raps, lhs@, fields@.take(i as int));
                    let ghost this = rhs_steps(
                        bound.raps,
                        ResourceTy::Value(field_rap(bound.raps, lhs@, *field)),
                        field.expr,
                        transfer_evt(field.expr.ty),
                    );
                    proof {
                        lemma_fields_prefix(bound.raps, lhs@, fields@, i + 1);
                        assert(fields@.take(i + 1).drop_last() =~= fields@.take(i as int));
                        assert(fields@.take(i + 1).last() == *field);
                        let all = field_steps(bound.raps, lhs@, fields@);
                        let n = (done + this).len() as int;
                        assert(all =~= (done + this) + all.skip(n));
                        lemma_can_take(bound, done + this, all.skip(n));
                        lemma_can_take(bound, done, this);
                    }
                    let new_lhs_name = field_name(lhs.name(), &field.name);
                    let field_rap = self.raps.get(&new_lhs_name).unwrap().rap.clone();
                    let e = match field.expr.ty.kind {
                        TyKind::Ref { mutability: Mutability::Not } => Evt::Copy,
                        TyKind::Ref { mutability: Mutability::Mut } => Evt::Move,
                        _ => if field.expr.ty.is_copy {
                            Evt::Copy
                        } else {
                            Evt::Move
                        },
                    };
                    assert(decreases_to!(*rhs => rhs.kind->Struct_0@[i as int].expr));
                    self.match_rhs(ResourceTy::Value(field_rap), &field.expr, e);
                    i += 1;
                }
                assert(fields@.take(i as int) =~= fields@);
            },
            ExprKind::Field(base, field) => {
                match &base.kind {
                    ExprKind::Path(p) => {
                        let total_name = field_name(&p.segments[0], field);
                        let rhs_rap = self.raps.get(&total_name).unwrap().rap.clone();
                        proof {
                            assert(steps =~= Seq::empty().push(
                                Step::Add {
                                    line: p.line,
                                    evt,
                                    lhs: lhs@,
                                    rhs: ResourceTy::Value(rhs_rap@),
                                },
                            ));
                        }
                        self.use_then_add(None, p.line, evt, lhs, ResourceTy::Value(rhs_rap));
                    },
                    _ => {},
                }
            },
            ExprKind::Ret(ret) => {
                match ret {
                    Some(ret_expr) => self.match_rhs(lhs, ret_expr, evt),
                    None => {},
                }
            },
            ExprKind::If(if_block, else_block) => {
                match else_block {
                    Some(e) => {
                        proof {
                            lemma_can_take(
                                before,
                                rhs_steps(before.raps, lhs@, **if_block, evt),
                                rhs_steps(before.raps, lhs@, **e, evt),
                            );
                        }
                        self.match_rhs(lhs.clone(), if_block, evt);
                        self.match_rhs(lhs, e, evt);
                    },
                    None => self.match_rhs(lhs, if_block, evt),
                }
            },
            ExprKind::DropTemps(exp) => {
                self.match_rhs(lhs, exp, evt);
            },
            ExprKind::Other => {},
        }
    }

    /// Puts the names of `new_data` among the aliases of `alias`, each at the place that its key
    /// and `offset` give.
    pub fn update_aliasing_data(
        &mut self,
        alias: &String,
        new_data: &BTreeMap<usize, String>,
        offset: usize,
    )
        requires
            old(self)@.loans.contains_key(alias@),
            can_splice(old(self)@.loans[alias@].aliasing, new_data@, offset),
        ensures
            final(self)@ == old(self)@.update_aliasing(alias@, new_data@, offset),
            final(self).same_setting(old(self)),
    {
        let mut data = self.borrow_map.get(alias).unwrap().clone();
        let ghost loan = data@;
        let ghost list = data@.aliasing;
        let ghost new = new_data@;
        let ghost mut bound: nat = 0;
        let entries = new_data.iter();
        proof {
            let keys = entries.remaining().map_values(|kv: (&usize, &String)| *kv.0);
            lemma_increasing(keys);
            assert forall|i: int, j: int| 0 <= i < j < entries.remaining().len() implies
                *entries.remaining()[i].0 < *entries.remaining()[j].0 by {
                assert(keys[i] < keys[j]);
            }
        }
        for entry in it: entries
            invariant
                new == new_data@,
                list == loan.aliasing,
                can_splice(list, new, offset),
                forall|i: int, j: int|
                    0 <= i < j < it.seq().len() ==> *it.seq()[i].0 < *it.seq()[j].0,
                forall|i: int|
                    0 <= i < it.seq().len() ==> new.contains_key(*(#[trigger] it.seq()[i]).0)
                        && new[*it.seq()[i].0] == *it.seq()[i].1,
                forall|key: usize| #[trigger]
                    new.contains_key(key) ==> exists|i: int|
                        0 <= i < it.seq().len() && *(#[trigger] it.seq()[i]).0 == key,
                bound == if it.index() == 0 {
                    0
                } else {
                    *it.seq()[it.index() - 1].0 + 1
                },
                data@ == (Loan { aliasing: spliced(list, new, offset, bound), ..loan }),
        {
            let key = *entry.0;
            proof {
                lemma_splice_gap(list, new, offset, bound, key as nat);
                assert(data@.aliasing.len() == data.aliasing.len());
            }
            let ghost before = data.aliasing@;
            data.aliasing.insert(key + offset, entry.1.clone());
            proof {
                assert(names_view(data.aliasing@) =~= names_view(before).insert(
                    key + offset,
                    entry.1@,
                ));
                bound = key as nat + 1;
            }
        }
        proof {
            lemma_splice_gap(list, new, offset, bound, (usize::MAX + 1) as nat);
        }
        self.borrow_map.insert(alias.clone(), data);
    }
}

} // verus!
