//! Whether an expression can be assigned, assigned to or passed to a function.

use crate::data::{Name, ResourceAccessPoint, ResourceTy};
use crate::declare::{argument_evt, lhs_known};
use crate::expr_visitor::{Evt, ExprVisitor, RapData};
use crate::hir::{dotted, field_name, Expr, ExprField, ExprKind, Mutability, TyKind, UnOp};
use crate::state::State;
use crate::steps::{
    field_rap, field_steps, fields_known, lemma_fields_prefix, rhs_known, rhs_steps, transfer_evt,
    Step,
};
use vstd::prelude::*;

verus! {

/// The number of events that the steps add.
pub open spec fn adds(steps: Seq<Step>) -> nat
    decreases steps.len(),
{
    if steps.len() == 0 {
        0
    } else {
        adds(steps.drop_last()) + if steps.last() is Add {
            1nat
        } else {
            0
        }
    }
}

impl State {
    /// Each of the steps can be taken.
    pub open spec fn can_each(self, steps: Seq<Step>) -> bool {
        forall|i: int| 0 <= i < steps.len() ==> self.can_step(#[trigger] steps[i])
    }
}

proof fn lemma_adds(s: State, steps: Seq<Step>)
    ensures
        s.steps(steps).next_id == s.next_id + adds(steps),
    decreases steps.len(),
{
    if steps.len() > 0 {
        lemma_adds(s, steps.drop_last());
    }
}

proof fn lemma_parts(s: State, a: Seq<Step>, b: Seq<Step>)
    ensures
        adds(a + b) == adds(a) + adds(b),
        s.can_each(a + b) <==> s.can_each(a) && s.can_each(b),
    decreases b.len(),
{
    if s.can_each(a + b) {
        assert forall|i: int| 0 <= i < a.len() implies s.can_step(#[trigger] a[i]) by {
            assert((a + b)[i] == a[i]);
        }
        assert forall|i: int| 0 <= i < b.len() implies s.can_step(#[trigger] b[i]) by {
            assert((a + b)[a.len() + i] == b[i]);
        }
    }
    if b.len() == 0 {
        assert(a + b =~= a);
    } else {
        assert((a + b).drop_last() =~= a + b.drop_last());
        lemma_parts(s, a, b.drop_last());
    }
}

/// The steps of a field of `lhs` that is assigned its initializer.
spec fn one_field_steps(
    raps: Map<Name, RapData<Name>>,
    lhs: ResourceTy<Name>,
    field: ExprField,
) -> Seq<Step> {
    rhs_steps(
        raps,
        ResourceTy::Value(field_rap(raps, lhs, field)),
        field.expr,
        transfer_evt(field.expr.ty),
    )
}

/// Every name that it looks up is there to be found.
spec fn field_known(
    raps: Map<Name, RapData<Name>>,
    lhs: ResourceTy<Name>,
    field: ExprField,
) -> bool {
    &&& lhs.spec_rap() is Some
    &&& raps.contains_key(dotted(lhs.spec_rap()->0.spec_name(), field.name@))
    &&& rhs_known(raps, ResourceTy::Value(field_rap(raps, lhs, field)), field.expr)
}

/// What one more field adds to the fields before it, and that all fields ask for at least that.
proof fn lemma_next_field(s: State, lhs: ResourceTy<Name>, fields: Seq<ExprField>, i: int)
    requires
        0 <= i < fields.len(),
    ensures
        ({
            let done = field_steps(s.raps, lhs, fields.take(i));
            let this = one_field_steps(s.raps, lhs, fields[i]);
            let upto = field_steps(s.raps, lhs, fields.take(i + 1));
            let all = field_steps(s.raps, lhs, fields);
            &&& fields_known(s.raps, lhs, fields.take(i + 1)) <==> fields_known(
                s.raps,
                lhs,
                fields.take(i),
            ) && field_known(s.raps, lhs, fields[i])
            &&& s.can_each(upto) <==> s.can_each(done) && s.can_each(this)
            &&& adds(upto) == adds(done) + adds(this)
            &&& fields_known(s.raps, lhs, fields) ==> {
                &&& fields_known(s.raps, lhs, fields.take(i + 1))
                &&& s.can_each(all) ==> s.can_each(upto)
                &&& adds(upto) <= adds(all)
            }
        }),
{
    let done = field_steps(s.raps, lhs, fields.take(i));
    let this = one_field_steps(s.raps, lhs, fields[i]);
    let upto = field_steps(s.raps, lhs, fields.take(i + 1));
    let all = field_steps(s.raps, lhs, fields);
    assert(fields.take(i + 1).drop_last() =~= fields.take(i));
    assert(fields.take(i + 1).last() == fields[i]);
    assert(upto == done + this);
    lemma_parts(s, done, this);
    if fields_known(s.raps, lhs, fields) {
        lemma_fields_prefix(s.raps, lhs, fields, i + 1);
        assert(all =~= upto + all.skip(upto.len() as int));
        lemma_parts(s, upto, all.skip(upto.len() as int));
    }
}

impl<'a> ExprVisitor<'a> {
    /// One, if the event can be added after the use.
    fn one_event(
        &self,
        used: Option<&ResourceAccessPoint>,
        line: usize,
        evt: Evt,
        lhs: &ResourceTy,
        rhs: &ResourceTy,
    ) -> (result: Option<usize>)
        ensures
            ({
                let steps = (match used {
                    Some(r) => seq![Step::Use { rap: r@, line }],
                    None => Seq::<Step>::empty(),
                }).push(Step::Add { line, evt, lhs: lhs@, rhs: rhs@ });
                &&& adds(steps) == 1
                &&& result == if self@.can_each(steps) {
                    Some(1usize)
                } else {
                    None
                }
            }),
    {
        let ghost uses = match used {
            Some(r) => seq![Step::Use { rap: r@, line }],
            None => Seq::<Step>::empty(),
        };
        let ghost add = Step::Add { line, evt, lhs: lhs@, rhs: rhs@ };
        proof {
            assert(uses.push(add) =~= uses + seq![add]);
            lemma_parts(self@, uses, seq![add]);
            assert(seq![add].drop_last() =~= Seq::empty());
            assert(seq![add][0] == add);
            reveal_with_fuel(adds, 2);
            if uses.len() > 0 {
                assert(uses.drop_last() =~= Seq::empty());
            }
        }
        let usable = match used {
            Some(r) => {
                assert(uses[0] == Step::Use { rap: r@, line });
                self.can_update_rap(r)
            },
            None => true,
        };
        if usable && self.can_add_ev(line, lhs, rhs) {
            Some(1)
        } else {
            None
        }
    }

    /// How many events assigning `rhs` to `lhs` adds, if it can be done and the number is no
    /// larger than numbers go.
    fn events_of(&self, lhs: &ResourceTy, rhs: &Expr, evt: Evt) -> (result: Option<usize>)
        ensures
            ({
                let steps = rhs_steps(self@.raps, lhs@, *rhs, evt);
                match result {
                    Some(n) => rhs_known(self@.raps, lhs@, *rhs) && self@.can_each(steps) && n
                        == adds(steps),
                    None => !(rhs_known(self@.raps, lhs@, *rhs) && self@.can_each(steps) && adds(
                        steps,
                    ) <= usize::MAX),
                }
            }),
        decreases *rhs,
    {
        let ghost raps = self@.raps;
        let ghost steps = rhs_steps(raps, lhs@, *rhs, evt);
        match &rhs.kind {
            ExprKind::Path(p) => {
                if !p.is_ctor && p.segments.len() == 0 {
                    return None;
                }
                match self.raps.get(&p.target_name()) {
                    Some(data) => {
                        assert(steps =~= seq![Step::Use { rap: data.rap@, line: p.line }].push(
                            Step::Add {
                                line: p.line,
                                evt,
                                lhs: lhs@,
                                rhs: ResourceTy::Value(data.rap@),
                            },
                        ));
                        self.one_event(
                            Some(&data.rap),
                            p.line,
                            evt,
                            lhs,
                            &ResourceTy::Value(data.rap.clone()),
                        )
                    },
                    None => None,
                }
            },
            ExprKind::Call { line, fn_name } | ExprKind::MethodCall { line, fn_name } => {
                match self.raps.get(fn_name) {
                    Some(data) => {
                        assert(steps =~= Seq::empty().push(
                            Step::Add {
                                line: *line,
                                evt,
                                lhs: lhs@,
                                rhs: ResourceTy::Value(data.rap@),
                            },
                        ));
                        self.one_event(None, *line, evt, lhs, &ResourceTy::Value(data.rap.clone()))
                    },
                    None => None,
                }
            },
            ExprKind::Lit | ExprKind::Binary | ExprKind::Unary(UnOp::Not, _) | ExprKind::Unary(
                UnOp::Neg,
                _,
            ) => {
                assert(steps =~= Seq::empty().push(
                    Step::Add {
                        line: rhs.line,
                        evt: Evt::Bind,
                        lhs: lhs@,
                        rhs: ResourceTy::Anonymous,
                    },
                ));
                self.one_event(None, rhs.line, Evt::Bind, lhs, &ResourceTy::Anonymous)
            },
            ExprKind::AddrOf(_, inner) => {
                let res = match &rhs.rap {
                    Some(r) => ResourceTy::Value(r.clone()),
                    None => ResourceTy::Anonymous,
                };
                let borrow = match rhs.fetch_mutability() {
                    Some(Mutability::Mut) => Evt::MBorrow,
                    _ => Evt::SBorrow,
                };
                self.one_event(inner.rap.as_ref(), inner.line, borrow, lhs, &res)
            },
            ExprKind::Block(last) => {
                match last {
                    Some(e) => self.events_of(lhs, e, evt),
                    None => Some(0),
                }
            },
            ExprKind::Unary(UnOp::Deref, inner) => {
                let res = match &inner.rap {
                    Some(r) => ResourceTy::Deref(r.clone()),
                    None => ResourceTy::Anonymous,
                };
                self.one_event(inner.rap.as_ref(), inner.line, evt, lhs, &res)
            },
            ExprKind::Struct(fields) => {
                let ghost bind = Step::Add {
                    line: rhs.line,
                    evt: Evt::Bind,
                    lhs: lhs@,
                    rhs: ResourceTy::Anonymous,
                };
                let ghost all = field_steps(raps, lhs@, fields@);
                proof {
                    lemma_parts(self@, seq![bind], all);
                    assert(seq![bind] =~= Seq::empty().push(bind));
                }
                match (
                    self.one_event(None, rhs.line, Evt::Bind, lhs, &ResourceTy::Anonymous),
                    self.events_of_fields(lhs, fields),
                ) {
                    (Some(a), Some(b)) => a.checked_add(b),
                    _ => None,
                }
            },
            ExprKind::Field(base, field) => {
                match &base.kind {
                    ExprKind::Path(p) => {
                        if p.segments.len() == 0 {
                            return None;
                        }
                        match self.raps.get(&field_name(&p.segments[0], field)) {
                            Some(data) => {
                                assert(steps =~= Seq::empty().push(
                                    Step::Add {
                                        line: p.line,
                                        evt,
                                        lhs: lhs@,
                                        rhs: ResourceTy::Value(data.rap@),
                                    },
                                ));
                                self.one_event(
                                    None,
                                    p.line,
                                    evt,
                                    lhs,
                                    &ResourceTy::Value(data.rap.clone()),
                                )
                            },
                            None => None,
                        }
                    },
                    _ => None,
                }
            },
            ExprKind::Ret(ret) => {
                match ret {
                    Some(e) => self.events_of(lhs, e, evt),
                    None => Some(0),
                }
            },
            ExprKind::If(if_block, else_block) => {
                match else_block {
                    Some(e) => {
                        proof {
                            lemma_parts(
                                self@,
                                rhs_steps(raps, lhs@, **if_block, evt),
                                rhs_steps(raps, lhs@, **e, evt),
                            );
                        }
                        match (self.events_of(lhs, if_block, evt), self.events_of(lhs, e, evt)) {
                            (Some(a), Some(b)) => a.checked_add(b),
                            _ => None,
                        }
                    },
                    None => self.events_of(lhs, if_block, evt),
                }
            },
            ExprKind::DropTemps(e) => self.events_of(lhs, e, evt),
            ExprKind::Other => Some(0),
        }
    }

    /// The same for one field of `lhs` that is assigned its initializer.
    fn events_of_field(&self, lhs: &ResourceTy, field: &ExprField) -> (result: Option<usize>)
        ensures
            ({
                let steps = one_field_steps(self@.raps, lhs@, *field);
                match result {
                    Some(n) => field_known(self@.raps, lhs@, *field) && self@.can_each(steps) && n
                        == adds(steps),
                    None => !(field_known(self@.raps, lhs@, *field) && self@.can_each(steps)
                        && adds(steps) <= usize::MAX),
                }
            }),
        decreases *field,
    {
        let owner = match lhs.rap() {
            Some(r) => r.name(),
            None => {
                return None;
            },
        };
        let field_rap = match self.raps.get(&field_name(owner, &field.name)) {
            Some(data) => data.rap.clone(),
            None => {
                return None;
            },
        };
        let e = match field.expr.ty.kind {
            TyKind::Ref { mutability: Mutability::Not } => Evt::Copy,
            TyKind::Ref { mutability: Mutability::Mut } => Evt::Move,
            _ => if field.expr.ty.is_copy {
                Evt::Copy
            } else {
                Evt::Move
            },
        };
        self.events_of(&ResourceTy::Value(field_rap), &field.expr, e)
    }

    /// The same for all fields of `lhs`.
    fn events_of_fields(&self, lhs: &ResourceTy, fields: &Vec<ExprField>) -> (result: Option<usize>)
        ensures
            ({
                let steps = field_steps(self@.raps, lhs@, fields@);
                match result {
                    Some(n) => fields_known(self@.raps, lhs@, fields@) && self@.can_each(steps) && n
                        == adds(steps),
                    None => !(fields_known(self@.raps, lhs@, fields@) && self@.can_each(steps)
                        && adds(steps) <= usize::MAX),
                }
            }),
        decreases fields@,
    {
        let mut n: usize = 0;
        let mut i: usize = 0;
        assert(fields@.take(0) =~= Seq::<ExprField>::empty());
        while i < fields.len()
            invariant
                i <= fields@.len(),
                fields_known(self@.raps, lhs@, fields@.take(i as int)),
                self@.can_each(field_steps(self@.raps, lhs@, fields@.take(i as int))),
                n == adds(field_steps(self@.raps, lhs@, fields@.take(i as int))),
            decreases fields@.len() - i,
        {
            proof {
                lemma_next_field(self@, lhs@, fields@, i as int);
                assert(decreases_to!(fields@ => fields@[i as int]));
            }
            n = match self.events_of_field(lhs, &fields[i]) {
                Some(more) => match n.checked_add(more) {
                    Some(sum) => sum,
                    None => {
                        return None;
                    },
                },
                None => {
                    return None;
                },
            };
            i += 1;
        }
        assert(fields@.take(i as int) =~= fields@);
        Some(n)
    }

    /// `rhs` can be assigned to `lhs`.
    pub fn can_match_rhs(&self, lhs: &ResourceTy, rhs: &Expr, evt: Evt) -> (result: bool)
        ensures
            result == (rhs_known(self@.raps, lhs@, *rhs) && self@.can_take(
                rhs_steps(self@.raps, lhs@, *rhs, evt),
            )),
    {
        proof {
            lemma_adds(self@, rhs_steps(self@.raps, lhs@, *rhs, evt));
        }
        match self.events_of(lhs, rhs, evt) {
            Some(n) => n <= usize::MAX - self.unique_id,
            None => false,
        }
    }

    /// `expr` can be assigned to.
    pub fn can_resource_of_lhs(&self, expr: &Expr) -> (result: bool)
        ensures
            result == (lhs_known(self@.raps, *expr) && (
            expr.kind matches ExprKind::Unary(_, _) ==> (
            expr.rap matches Some(r) ==> self@.can_update_rap(r@)))),
    {
        match &expr.kind {
            ExprKind::Path(p) => p.segments.len() > 0 && self.raps.contains_key(&p.segments[0]),
            ExprKind::Field(base, field) => match &base.kind {
                ExprKind::Path(p) => p.segments.len() > 0 && self.raps.contains_key(
                    &field_name(&p.segments[0], field),
                ),
                _ => false,
            },
            ExprKind::Unary(UnOp::Deref, _) => match &expr.rap {
                Some(r) => self.can_update_rap(r),
                None => true,
            },
            _ => false,
        }
    }

    /// `arg` can be passed to the function.
    pub fn can_match_arg(&self, arg: &Expr, fn_name: &String) -> (result: bool)
        ensures
            result == self@.can_match_arg(*arg, fn_name@, self.current_scope),
    {
        if self.unique_id == usize::MAX {
            return false;
        }
        let ghost added = self@.add_fn(fn_name@, self.current_scope);
        match self.raps.get(fn_name) {
            Some(data) => {
                let to = ResourceTy::Value(data.rap.clone());
                assert(self@.can_add_ev(
                    arg.line,
                    argument_evt(arg.ty),
                    to@,
                    arg.resource@,
                    false,
                ) == added.can_add_ev(
                    arg.line,
                    argument_evt(arg.ty),
                    to@,
                    arg.resource@,
                    false,
                ));
                self.can_add_ev(arg.line, &to, &arg.resource)
            },
            None => {
                assert(added.raps[fn_name@].rap is Function);
                self.rap_hashes < usize::MAX
            },
        }
    }
}

} // verus!
