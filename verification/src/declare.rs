//! What declaring variables does to the record: the left-hand side of a `let`, and patterns.

use crate::aliases::Loan;
use crate::data::{MutRef, Name, Owner, ResourceAccessPoint, ResourceTy, StaticRef, Struct};
use crate::expr_visitor::{clone_names, names_view, Evt, ExprVisitor, RapData, RefData};
use crate::hir::{
    bool_of_mut, dotted, field_name, spec_bool_of_mut, AdtKind, Binding, Expr, ExprKind,
    GenericArg, Mutability, Pat, Ty, TyKind, UnOp,
};
use crate::name_map::NameMap;
use crate::state::State;
use crate::steps::borrow_evt;
use std::collections::VecDeque;
use vstd::prelude::*;

verus! {

/// The aliases of the loan that a resource is held by, if there is one. That a resource without a
/// loan has none, and that a dereference has those of the reference it goes through, is an
/// assumption: it is what declarations of references need, and nothing else in this crate says it.
pub open spec fn aliasing_of(loans: Map<Name, Loan>, resource: ResourceTy<Name>) -> Seq<Name> {
    match resource.spec_rap() {
        Some(r) => if loans.contains_key(r.spec_name()) {
            loans[r.spec_name()].aliasing
        } else {
            Seq::empty()
        },
        None => Seq::empty(),
    }
}

/// Who a new reference with the value `expr` borrows from, and what it aliases. Taking the
/// address of a reference adds that reference to the aliases; copying a reference copies both
/// its lender and its lender's aliases.
pub open spec fn ref_data(loans: Map<Name, Loan>, expr: Expr) -> (ResourceTy<Name>, Seq<Name>) {
    if expr.spec_is_addr() {
        let lender = expr.resource@;
        let aliasing = aliasing_of(loans, lender);
        match lender.spec_rap() {
            Some(r) => if expr.ty.deref_is_ref == Some(true) {
                (lender, seq![r.spec_name()] + aliasing)
            } else {
                (lender, aliasing)
            },
            None => (lender, aliasing),
        }
    } else {
        (expr.lender@, aliasing_of(loans, expr.lender@))
    }
}

/// The resource that is assigned to.
pub open spec fn lhs_resource(raps: Map<Name, RapData<Name>>, expr: Expr) -> ResourceTy<Name> {
    match expr.kind {
        ExprKind::Path(p) => ResourceTy::Value(raps[p.segments@[0]@].rap),
        ExprKind::Field(base, field) => match base.kind {
            ExprKind::Path(p) => ResourceTy::Value(raps[dotted(p.segments@[0]@, field@)].rap),
            _ => ResourceTy::Anonymous,
        },
        _ => match expr.rap {
            Some(r) => ResourceTy::Deref(r@),
            None => ResourceTy::Anonymous,
        },
    }
}

/// The expression can be assigned to: a variable, a field of a variable or a dereference, and
/// the names in it are those of access points.
pub open spec fn lhs_known(raps: Map<Name, RapData<Name>>, expr: Expr) -> bool {
    match expr.kind {
        ExprKind::Path(p) => p.segments@.len() > 0 && raps.contains_key(p.segments@[0]@),
        ExprKind::Field(base, field) => match base.kind {
            ExprKind::Path(p) => p.segments@.len() > 0 && raps.contains_key(
                dotted(p.segments@[0]@, field@),
            ),
            _ => false,
        },
        ExprKind::Unary(op, _) => op == UnOp::Deref,
        _ => false,
    }
}

/// The function returns a reference.
pub open spec fn returns_ref(fn_expr: Expr) -> bool {
    fn_expr.ty.kind->output.spec_is_ref()
}

/// What the function returns is copied, and no part of it is a reference.
pub open spec fn returns_copyable(fn_expr: Expr) -> bool {
    !fn_expr.ty.kind->output.mentions_ref() && fn_expr.ty.kind->output.is_copy
}

/// What happens to an argument that is passed to a function.
pub open spec fn argument_evt(ty: Ty) -> Evt {
    match ty.kind {
        TyKind::Ref { mutability } => if mutability == Mutability::Not {
            Evt::PassBySRef
        } else {
            Evt::PassByMRef
        },
        _ => if ty.is_copy {
            Evt::Copy
        } else {
            Evt::Move
        },
    }
}

/// What happens to the matched value when a part of type `ty` is bound to a variable.
pub open spec fn binding_evt(parent_ty: Ty, ty: Ty) -> Evt {
    match parent_ty.kind {
        TyKind::Ref { mutability } => borrow_evt(mutability),
        _ => if ty.is_copy {
            Evt::Copy
        } else {
            Evt::Move
        },
    }
}

/// The variables that a pattern binds, from left to right. Alternatives bind the same variables,
/// so that the first one stands for them all.
pub open spec fn pat_bindings(pat: Pat) -> Seq<Binding>
    decreases pat,
{
    match pat {
        Pat::TupleStruct(pats) => pats_bindings(pats@),
        Pat::Struct(pats) => pats_bindings(pats@),
        Pat::Tuple(pats) => pats_bindings(pats@),
        Pat::Slice(pats) => pats_bindings(pats@),
        Pat::Ref(inner) => pat_bindings(*inner),
        Pat::Or(pats) => if pats@.len() == 0 {
            Seq::empty()
        } else {
            pat_bindings(pats@[0])
        },
        Pat::Binding(b) => match b.sub {
            Some(p) => seq![b] + pat_bindings(*p),
            None => seq![b],
        },
        Pat::Other => Seq::empty(),
    }
}

pub open spec fn pats_bindings(pats: Seq<Pat>) -> Seq<Binding>
    decreases pats,
{
    if pats.len() == 0 {
        Seq::empty()
    } else {
        pats_bindings(pats.drop_last()) + pat_bindings(pats.last())
    }
}

impl State {
    /// What assigning to `expr` records: a use of what a dereference goes through.
    pub open spec fn assign_to(self, expr: Expr) -> State {
        match (expr.kind, expr.rap) {
            (ExprKind::Unary(_, inner), Some(r)) => self.update_rap(r@, inner.line),
            _ => self,
        }
    }

    /// What passing an argument to a function records.
    pub open spec fn match_arg(self, arg: Expr, fn_name: Name, scope: usize) -> State {
        let added = self.add_fn(fn_name, scope);
        added.add_ev(
            arg.line,
            argument_evt(arg.ty),
            ResourceTy::Value(added.raps[fn_name].rap),
            arg.resource@,
            false,
        )
    }

    pub open spec fn can_match_arg(self, arg: Expr, fn_name: Name, scope: usize) -> bool {
        let added = self.add_fn(fn_name, scope);
        &&& added.hashes <= usize::MAX
        &&& self.next_id < usize::MAX
        &&& added.can_add_ev(
            arg.line,
            argument_evt(arg.ty),
            ResourceTy::Value(added.raps[fn_name].rap),
            arg.resource@,
            false,
        )
    }

    /// Adds the fields of the struct that is called `name` and has the number `owner`.
    pub open spec fn add_fields(
        self,
        name: Name,
        owner: u64,
        fields: Seq<String>,
        is_mut: bool,
        scope: usize,
        is_global: bool,
    ) -> State
        decreases fields.len(),
    {
        if fields.len() == 0 {
            self
        } else {
            self.add_fields(name, owner, fields.drop_last(), is_mut, scope, is_global).add_struct(
                dotted(name, fields.last()@),
                owner,
                true,
                is_mut,
                scope,
                is_global,
            )
        }
    }

    /// Adds a struct and its fields. Each field carries the number of the struct.
    pub open spec fn add_struct_and_fields(
        self,
        name: Name,
        fields: Seq<String>,
        is_mut: bool,
        scope: usize,
        is_global: bool,
    ) -> State {
        let owner = self.hashes as u64;
        self.add_struct(name, owner, false, is_mut, scope, is_global).add_fields(
            name,
            owner,
            fields,
            is_mut,
            scope,
            is_global,
        )
    }

    /// What declaring a variable of type `ty` with the value `expr` records. Unions and functions
    /// are not recorded.
    pub open spec fn define_lhs(
        self,
        name: Name,
        is_mut: bool,
        expr: Expr,
        ty: Ty,
        scope: usize,
        is_global: bool,
    ) -> State {
        match ty.kind {
            TyKind::Ref { mutability } => {
                let (lender, aliasing) = ref_data(self.loans, expr);
                self.add_ref(
                    name,
                    spec_bool_of_mut(mutability),
                    is_mut,
                    expr.line,
                    lender,
                    aliasing,
                    scope,
                    is_global,
                )
            },
            TyKind::Adt { kind, fields } => if ty.is_special_owner {
                self.add_owner(name, is_mut, scope, is_global)
            } else {
                match kind {
                    AdtKind::Struct => self.add_struct_and_fields(
                        name,
                        fields@,
                        is_mut,
                        scope,
                        is_global,
                    ),
                    AdtKind::Union => self,
                    AdtKind::Enum => self.add_owner(name, is_mut, scope, is_global),
                }
            },
            TyKind::Fn { .. } => self,
            TyKind::Other => self.add_owner(name, is_mut, scope, is_global),
        }
    }

    /// What binding one variable of a pattern records. It belongs to the branch of the pattern.
    pub open spec fn bind(self, b: Binding, parent: ResourceTy<Name>, scope: usize) -> State {
        let is_mut = spec_bool_of_mut(b.mutability);
        match b.ty.kind {
            TyKind::Ref { mutability } => self.add_ref(
                b.name@,
                spec_bool_of_mut(mutability),
                is_mut,
                b.line,
                parent,
                Seq::empty(),
                scope,
                false,
            ),
            TyKind::Adt { kind: AdtKind::Struct, fields } => self.add_struct_and_fields(
                b.name@,
                fields@,
                is_mut,
                scope,
                false,
            ),
            _ => self.add_owner(b.name@, is_mut, scope, false),
        }
    }

    pub open spec fn bind_all(
        self,
        bindings: Seq<Binding>,
        parent: ResourceTy<Name>,
        scope: usize,
    ) -> State
        decreases bindings.len(),
    {
        if bindings.len() == 0 {
            self
        } else {
            self.bind_all(bindings.drop_last(), parent, scope).bind(bindings.last(), parent, scope)
        }
    }

    /// For each variable that a pattern binds, its access point and what happens to the matched
    /// value of type `parent_ty`.
    pub open spec fn bound(
        self,
        bindings: Seq<Binding>,
        parent: ResourceTy<Name>,
        parent_ty: Ty,
        scope: usize,
    ) -> Seq<(ResourceAccessPoint<Name>, Evt, Ty)>
        decreases bindings.len(),
    {
        if bindings.len() == 0 {
            Seq::empty()
        } else {
            let b = bindings.last();
            self.bound(bindings.drop_last(), parent, parent_ty, scope).push(
                (
                    self.bind_all(bindings, parent, scope).raps[b.name@].rap,
                    binding_evt(parent_ty, b.ty),
                    parent_ty,
                ),
            )
        }
    }
}

/// No variable that is bound is a union.
pub open spec fn no_union(bindings: Seq<Binding>) -> bool {
    forall|i: int|
        0 <= i < bindings.len() ==> !(#[trigger] bindings[i].ty.kind matches TyKind::Adt { kind, .. } && kind
            == AdtKind::Union)
}

/// What a list of bound variables says.
pub open spec fn bound_view(bound: Seq<(ResourceAccessPoint, Evt, &Ty)>) -> Seq<
    (ResourceAccessPoint<Name>, Evt, Ty),
> {
    Seq::new(bound.len(), |i: int| (bound[i].0@, bound[i].1, *bound[i].2))
}

proof fn lemma_fields_prefix(
    s: State,
    name: Name,
    owner: u64,
    fields: Seq<String>,
    is_mut: bool,
    scope: usize,
    is_global: bool,
    n: int,
)
    requires
        0 <= n <= fields.len(),
    ensures
        s.add_fields(name, owner, fields.take(n), is_mut, scope, is_global).hashes <= s.add_fields(
            name,
            owner,
            fields,
            is_mut,
            scope,
            is_global,
        ).hashes,
    decreases fields.len(),
{
    if n == fields.len() {
        assert(fields.take(n) =~= fields);
    } else {
        assert(fields.drop_last().take(n) =~= fields.take(n));
        lemma_fields_prefix(s, name, owner, fields.drop_last(), is_mut, scope, is_global, n);
    }
}

/// Every access point of `a` is still in `b` as it was, and events were left alone.
pub open spec fn only_grows(a: State, b: State) -> bool {
    &&& a.hashes <= b.hashes
    &&& forall|k: Name| #[trigger]
        a.raps.contains_key(k) ==> b.raps.contains_key(k) && b.raps[k] == a.raps[k]
    &&& a.rap_names.is_prefix_of(b.rap_names)
    &&& a.lines == b.lines
    &&& a.events == b.events
    &&& a.next_id == b.next_id
}

pub proof fn lemma_add_rap_grows(
    s: State,
    r: ResourceAccessPoint<Name>,
    scope: usize,
    is_global: bool,
)
    ensures
        only_grows(s, s.add_rap(r, scope, is_global)),
{
    assert(s.rap_names =~= s.add_rap(r, scope, is_global).rap_names.subrange(
        0,
        s.rap_names.len() as int,
    ));
}

pub proof fn lemma_grows_trans(a: State, b: State, c: State)
    requires
        only_grows(a, b),
        only_grows(b, c),
    ensures
        only_grows(a, c),
{
    assert(a.rap_names =~= c.rap_names.subrange(0, a.rap_names.len() as int));
}

pub proof fn lemma_add_fields_grows(
    s: State,
    name: Name,
    owner: u64,
    fields: Seq<String>,
    is_mut: bool,
    scope: usize,
    is_global: bool,
)
    ensures
        only_grows(s, s.add_fields(name, owner, fields, is_mut, scope, is_global)),
    decreases fields.len(),
{
    if fields.len() == 0 {
        assert(s.rap_names =~= s.rap_names.subrange(0, s.rap_names.len() as int));
    } else {
        let t = s.add_fields(name, owner, fields.drop_last(), is_mut, scope, is_global);
        lemma_add_fields_grows(s, name, owner, fields.drop_last(), is_mut, scope, is_global);
        let member = ResourceAccessPoint::Struct(
            Struct {
                name: dotted(name, fields.last()@),
                hash: t.hashes as u64,
                owner,
                is_mut,
                is_member: true,
            },
        );
        lemma_add_rap_grows(t, member, scope, is_global);
        lemma_grows_trans(s, t, t.add_rap(member, scope, is_global));
    }
}

pub proof fn lemma_add_struct_and_fields_grows(
    s: State,
    name: Name,
    fields: Seq<String>,
    is_mut: bool,
    scope: usize,
    is_global: bool,
)
    ensures
        only_grows(s, s.add_struct_and_fields(name, fields, is_mut, scope, is_global)),
        s.add_struct_and_fields(name, fields, is_mut, scope, is_global).raps.contains_key(name),
{
    let owner = s.hashes as u64;
    let whole = ResourceAccessPoint::Struct(
        Struct { name, hash: owner, owner, is_mut, is_member: false },
    );
    let t = s.add_rap(whole, scope, is_global);
    assert(t.raps.contains_key(name));
    lemma_add_rap_grows(s, whole, scope, is_global);
    lemma_add_fields_grows(t, name, owner, fields, is_mut, scope, is_global);
    lemma_grows_trans(s, t, t.add_fields(name, owner, fields, is_mut, scope, is_global));
}

pub proof fn lemma_bind_grows(s: State, b: Binding, parent: ResourceTy<Name>, scope: usize)
    ensures
        only_grows(s, s.bind(b, parent, scope)),
        s.bind(b, parent, scope).raps.contains_key(b.name@),
{
    let is_mut = spec_bool_of_mut(b.mutability);
    let hash = s.hashes as u64;
    let name = b.name@;
    lemma_add_rap_grows(
        s,
        ResourceAccessPoint::MutRef(MutRef { name, hash, is_mut }),
        scope,
        false,
    );
    lemma_add_rap_grows(
        s,
        ResourceAccessPoint::StaticRef(StaticRef { name, hash, is_mut }),
        scope,
        false,
    );
    lemma_add_rap_grows(s, ResourceAccessPoint::Owner(Owner { name, hash, is_mut }), scope, false);
    if let TyKind::Adt { kind: AdtKind::Struct, fields } = b.ty.kind {
        lemma_add_struct_and_fields_grows(s, name, fields@, is_mut, scope, false);
    }
}

pub proof fn lemma_bind_all_grows(
    s: State,
    bindings: Seq<Binding>,
    parent: ResourceTy<Name>,
    scope: usize,
)
    ensures
        only_grows(s, s.bind_all(bindings, parent, scope)),
    decreases bindings.len(),
{
    if bindings.len() == 0 {
        assert(s.rap_names =~= s.rap_names.subrange(0, s.rap_names.len() as int));
    } else {
        let t = s.bind_all(bindings.drop_last(), parent, scope);
        lemma_bind_all_grows(s, bindings.drop_last(), parent, scope);
        lemma_bind_grows(t, bindings.last(), parent, scope);
        lemma_grows_trans(s, t, t.bind(bindings.last(), parent, scope));
    }
}

/// Binding two lists of variables one after the other binds them all.
pub proof fn lemma_bind_all_add(
    s: State,
    a: Seq<Binding>,
    b: Seq<Binding>,
    parent: ResourceTy<Name>,
    parent_ty: Ty,
    scope: usize,
)
    ensures
        s.bind_all(a + b, parent, scope) == s.bind_all(a, parent, scope).bind_all(b, parent, scope),
        s.bound(a + b, parent, parent_ty, scope) == s.bound(a, parent, parent_ty, scope)
            + s.bind_all(a, parent, scope).bound(b, parent, parent_ty, scope),
    decreases b.len(),
{
    if b.len() == 0 {
        assert(a + b =~= a);
        assert(s.bound(a, parent, parent_ty, scope) =~= s.bound(a, parent, parent_ty, scope)
            + Seq::empty());
    } else {
        assert((a + b).drop_last() =~= a + b.drop_last());
        assert((a + b).last() == b.last());
        lemma_bind_all_add(s, a, b.drop_last(), parent, parent_ty, scope);
        let t = s.bind_all(a, parent, scope);
        assert(s.bound(a + b, parent, parent_ty, scope) =~= s.bound(a, parent, parent_ty, scope)
            + t.bound(b, parent, parent_ty, scope));
    }
}

/// Variables that can be bound as a whole can be bound in two parts.
proof fn lemma_bind_parts(
    s: State,
    a: Seq<Binding>,
    b: Seq<Binding>,
    parent: ResourceTy<Name>,
    parent_ty: Ty,
    scope: usize,
)
    requires
        no_union(a + b),
        s.bind_all(a + b, parent, scope).hashes <= usize::MAX,
    ensures
        no_union(a),
        no_union(b),
        s.bind_all(a, parent, scope).hashes <= usize::MAX,
        s.bind_all(a, parent, scope).bind_all(b, parent, scope).hashes <= usize::MAX,
        s.bind_all(a + b, parent, scope) == s.bind_all(a, parent, scope).bind_all(b, parent, scope),
        s.bound(a + b, parent, parent_ty, scope) == s.bound(a, parent, parent_ty, scope)
            + s.bind_all(a, parent, scope).bound(b, parent, parent_ty, scope),
{
    lemma_bind_all_add(s, a, b, parent, parent_ty, scope);
    lemma_bind_all_grows(s.bind_all(a, parent, scope), b, parent, scope);
    assert forall|i: int| 0 <= i < a.len() implies !(
    #[trigger] a[i].ty.kind matches TyKind::Adt { kind, .. } && kind == AdtKind::Union) by {
        assert((a + b)[i] == a[i]);
    }
    assert forall|i: int| 0 <= i < b.len() implies !(
    #[trigger] b[i].ty.kind matches TyKind::Adt { kind, .. } && kind == AdtKind::Union) by {
        assert((a + b)[a.len() + i] == b[i]);
    }
}

/// The variables bound by the first patterns come first.
pub proof fn lemma_pats_prefix(pats: Seq<Pat>, n: int)
    requires
        0 <= n <= pats.len(),
    ensures
        pats_bindings(pats.take(n)).is_prefix_of(pats_bindings(pats)),
    decreases pats.len(),
{
    if n == pats.len() {
        assert(pats.take(n) =~= pats);
    } else {
        lemma_pats_prefix(pats.drop_last(), n);
        assert(pats.drop_last().take(n) =~= pats.take(n));
        let a = pats_bindings(pats.take(n));
        let b = pats_bindings(pats.drop_last());
        let c = pats_bindings(pats);
        assert(a =~= c.subrange(0, a.len() as int)) by {
            assert(a =~= b.subrange(0, a.len() as int));
            assert(b =~= c.subrange(0, b.len() as int));
        }
    }
}

/// The aliases of the loan that a resource is held by, if there is one, as [`aliasing_of`] assumes
/// them.
pub fn get_aliasing_data(lender: &ResourceTy, borrow_map: &NameMap<RefData>) -> (result: VecDeque<
    String,
>)
    ensures
        names_view(result@) == aliasing_of(borrow_map@, lender@),
{
    let none: VecDeque<String> = VecDeque::new();
    assert(names_view(none@) =~= Seq::empty());
    match lender.rap() {
        Some(r) => match borrow_map.get(r.name()) {
            Some(data) => clone_names(&data.aliasing),
            None => none,
        },
        None => none,
    }
}

impl<'a> ExprVisitor<'a> {
    /// The type that a function returns.
    pub fn return_type_of<'e>(&self, fn_expr: &'e Expr) -> (result: Option<&'e Ty>)
        requires
            fn_expr.ty.kind is Fn,
        ensures
            result is Some,
            *result->0 == *fn_expr.ty.kind->output,
    {
        match &fn_expr.ty.kind {
            TyKind::Fn { output } => Some(output),
            _ => None,
        }
    }

    /// The function returns a reference.
    pub fn is_return_type_ref(&self, fn_expr: &Expr) -> (result: bool)
        requires
            fn_expr.ty.kind is Fn,
        ensures
            result == returns_ref(*fn_expr),
    {
        match self.return_type_of(fn_expr) {
            Some(return_type) => return_type.is_ref(),
            None => false,
        }
    }

    /// What the function returns is copied, and no part of it is a reference.
    pub fn is_return_type_copyable(&self, fn_expr: &Expr) -> (result: bool)
        requires
            fn_expr.ty.kind is Fn,
            fn_expr.ty.kind->output.parts_are_types(),
        ensures
            result == returns_copyable(*fn_expr),
    {
        match self.return_type_of(fn_expr) {
            Some(return_type) => {
                if return_type.is_ref() {
                    return false;
                }
                let mut i: usize = 0;
                while i < return_type.parts.len()
                    invariant
                        i <= return_type.parts@.len(),
                        return_type == fn_expr.ty.kind->output,
                        forall|j: int|
                            0 <= j < i ==> return_type.parts@[j] != (GenericArg::Type {
                                is_ref: true,
                            }),
                    decreases return_type.parts@.len() - i,
                {
                    if let GenericArg::Type { is_ref: true } = return_type.parts[i] {
                        return false;
                    }
                    i += 1;
                }
                return_type.is_copy
            },
            None => false,
        }
    }

    /// The resource that is assigned to. A dereference counts as a use of what it goes through.
    pub fn resource_of_lhs(&mut self, expr: &Expr) -> (result: ResourceTy)
        requires
            lhs_known(old(self)@.raps, *expr),
            expr.kind matches ExprKind::Unary(_, _) ==> (expr.rap matches Some(r) ==> old(
                self,
            )@.can_update_rap(r@)),
        ensures
            result@ == lhs_resource(old(self)@.raps, *expr),
            final(self)@ == old(self)@.assign_to(*expr),
            final(self).same_setting(old(self)),
    {
        match &expr.kind {
            ExprKind::Path(p) => {
                ResourceTy::Value(self.raps.get(&p.segments[0]).unwrap().rap.clone())
            },
            ExprKind::Field(base, field) => {
                match &base.kind {
                    ExprKind::Path(p) => {
                        let total_name = field_name(&p.segments[0], field);
                        ResourceTy::Value(self.raps.get(&total_name).unwrap().rap.clone())
                    },
                    _ => ResourceTy::Anonymous,
                }
            },
            ExprKind::Unary(_, inner) => {
                match &expr.rap {
                    Some(x) => {
                        self.update_rap(x, inner.line);
                        ResourceTy::Deref(x.clone())
                    },
                    None => ResourceTy::Anonymous,
                }
            },
            _ => ResourceTy::Anonymous,
        }
    }

    /// Adds the event of passing `arg` to a function, and the function itself if it is new.
    pub fn match_arg(&mut self, arg: &Expr, fn_name: String)
        requires
            old(self)@.can_match_arg(*arg, fn_name@, old(self).current_scope),
        ensures
            final(self)@ == old(self)@.match_arg(*arg, fn_name@, old(self).current_scope),
            final(self).same_setting(old(self)),
    {
        self.add_fn(fn_name.clone());
        let to_ro = ResourceTy::Value(self.raps.get(&fn_name).unwrap().rap.clone());
        let from_ro = arg.resource.clone();
        match arg.ty.kind {
            TyKind::Ref { mutability: Mutability::Not } => self.add_ev(
                arg.line,
                Evt::PassBySRef,
                to_ro,
                from_ro,
                false,
            ),
            TyKind::Ref { mutability: Mutability::Mut } => self.add_ev(
                arg.line,
                Evt::PassByMRef,
                to_ro,
                from_ro,
                false,
            ),
            _ => if arg.ty.is_copy {
                self.add_ev(arg.line, Evt::Copy, to_ro, from_ro, false)
            } else {
                self.add_ev(arg.line, Evt::Move, to_ro, from_ro, false)
            },
        }
    }

    /// Who a new reference with the value `expr` borrows from, and what it aliases.
    pub fn get_ref_data(&self, expr: &Expr) -> (result: (ResourceTy, VecDeque<String>))
        requires
            expr.spec_is_addr() ==> expr.ty.deref_is_ref is Some,
        ensures
            (result.0@, names_view(result.1@)) == ref_data(self@.loans, *expr),
    {
        if expr.is_addr() {
            let lender = expr.resource.clone();
            let mut aliasing = get_aliasing_data(&lender, &self.borrow_map);
            if expr.ty.deref_is_ref.unwrap() {
                match lender.rap() {
                    Some(x) => {
                        let ghost before = aliasing@;
                        aliasing.push_front(x.name().clone());
                        assert(names_view(aliasing@) =~= seq![x@.spec_name()] + names_view(before));
                    },
                    None => {},
                }
            }
            (lender, aliasing)
        } else {
            let lender = expr.lender.clone();
            let aliasing = get_aliasing_data(&lender, &self.borrow_map);
            (lender, aliasing)
        }
    }

    /// Adds a struct and its fields.
    fn add_struct_and_fields(
        &mut self,
        name: String,
        fields: &Vec<String>,
        mutability: bool,
        scope: usize,
        is_global: bool,
    )
        requires
            old(self)@.add_struct_and_fields(
                name@,
                fields@,
                mutability,
                scope,
                is_global,
            ).hashes <= usize::MAX,
        ensures
            final(self)@ == old(self)@.add_struct_and_fields(
                name@,
                fields@,
                mutability,
                scope,
                is_global,
            ),
            final(self).same_setting(old(self)),
    {
        let owner_hash = self.rap_hashes as u64;
        let ghost added = self@.add_struct(name@, owner_hash, false, mutability, scope, is_global);
        proof {
            lemma_fields_prefix(
                added,
                name@,
                owner_hash,
                fields@,
                mutability,
                scope,
                is_global,
                0,
            );
            assert(fields@.take(0) =~= Seq::<String>::empty());
        }
        self.add_struct(name.clone(), owner_hash, false, mutability, scope, is_global);
        let mut i: usize = 0;
        while i < fields.len()
            invariant
                i <= fields@.len(),
                added.add_fields(name@, owner_hash, fields@, mutability, scope, is_global).hashes
                    <= usize::MAX,
                self@ == added.add_fields(
                    name@,
                    owner_hash,
                    fields@.take(i as int),
                    mutability,
                    scope,
                    is_global,
                ),
                self.same_setting(old(self)),
            decreases fields@.len() - i,
        {
            proof {
                lemma_fields_prefix(
                    added,
                    name@,
                    owner_hash,
                    fields@,
                    mutability,
                    scope,
                    is_global,
                    i + 1,
                );
                assert(fields@.take(i + 1).drop_last() =~= fields@.take(i as int));
            }
            let member = field_name(&name, &fields[i]);
            self.add_struct(member, owner_hash, true, mutability, scope, is_global);
            i += 1;
        }
        assert(fields@.take(i as int) =~= fields@);
    }

    /// Adds the access point, or access points, of a variable that is declared with the value
    /// `expr`.
    pub fn define_lhs(&mut self, name: String, mutability: bool, expr: &Expr, ty: &Ty)
        requires
            ty.spec_is_ref() && expr.spec_is_addr() ==> expr.ty.deref_is_ref is Some,
            old(self)@.define_lhs(
                name@,
                mutability,
                *expr,
                *ty,
                old(self).current_scope,
                !old(self).inside_branch,
            ).hashes <= usize::MAX,
        ensures
            final(self)@ == old(self)@.define_lhs(
                name@,
                mutability,
                *expr,
                *ty,
                old(self).current_scope,
                !old(self).inside_branch,
            ),
            final(self).same_setting(old(self)),
    {
        let scope = self.current_scope;
        let is_global = !self.inside_branch;
        match &ty.kind {
            TyKind::Ref { mutability: ref_mutability } => {
                let (lender, aliasing) = self.get_ref_data(expr);
                self.add_ref(
                    name,
                    bool_of_mut(*ref_mutability),
                    mutability,
                    expr.line,
                    lender,
                    aliasing,
                    scope,
                    is_global,
                );
            },
            TyKind::Adt { kind, fields } => {
                if ty.is_special_owner {
                    self.add_owner(name, mutability, scope, is_global);
                } else {
                    match kind {
                        AdtKind::Struct => self.add_struct_and_fields(
                            name,
                            fields,
                            mutability,
                            scope,
                            is_global,
                        ),
                        AdtKind::Union => {},
                        AdtKind::Enum => self.add_owner(name, mutability, scope, is_global),
                    }
                }
            },
            TyKind::Fn { .. } => {},
            TyKind::Other => self.add_owner(name, mutability, scope, is_global),
        }
    }

    /// Adds the access point, or access points, of a variable that is bound by itself, and lists
    /// the variable with what happens to the matched value.
    fn bind<'t>(
        &mut self,
        b: &Binding,
        parent: &ResourceTy,
        parent_ty: &'t Ty,
        scope: usize,
        res: &mut Vec<(ResourceAccessPoint, Evt, &'t Ty)>,
    )
        requires
            no_union(seq![*b]),
            old(self)@.bind_all(seq![*b], parent@, scope).hashes <= usize::MAX,
        ensures
            final(self)@ == old(self)@.bind_all(seq![*b], parent@, scope),
            bound_view(final(res)@) == bound_view(old(res)@) + old(self)@.bound(
                seq![*b],
                parent@,
                *parent_ty,
                scope,
            ),
            final(self).same_setting(old(self)),
    {
        let ghost before = self@;
        let muta = bool_of_mut(b.mutability);
        proof {
            assert(seq![*b].drop_last() =~= Seq::<Binding>::empty());
            assert(before.bind_all(Seq::empty(), parent@, scope) == before);
            assert(before.bound(Seq::empty(), parent@, *parent_ty, scope) == Seq::<
                (ResourceAccessPoint<Name>, Evt, Ty),
            >::empty());
            lemma_bind_grows(before, *b, parent@, scope);
            assert(!(seq![*b][0].ty.kind matches TyKind::Adt { kind, .. } && kind
                == AdtKind::Union));
        }
        match &b.ty.kind {
            TyKind::Ref { mutability } => {
                let none: VecDeque<String> = VecDeque::new();
                assert(names_view(none@) =~= Seq::empty());
                self.add_ref(
                    b.name.clone(),
                    bool_of_mut(*mutability),
                    muta,
                    b.line,
                    parent.clone(),
                    none,
                    scope,
                    false,
                );
            },
            TyKind::Adt { kind: AdtKind::Struct, fields } => {
                self.add_struct_and_fields(b.name.clone(), fields, muta, scope, false);
            },
            _ => {
                self.add_owner(b.name.clone(), muta, scope, false);
            },
        }
        let evt = match parent_ty.kind {
            TyKind::Ref { mutability: Mutability::Mut } => Evt::MBorrow,
            TyKind::Ref { mutability: Mutability::Not } => Evt::SBorrow,
            _ => if b.ty.is_copy {
                Evt::Copy
            } else {
                Evt::Move
            },
        };
        res.push((self.raps.get(&b.name).unwrap().rap.clone(), evt, parent_ty));
        proof {
            assert(bound_view(res@) =~= bound_view(old(res)@) + before.bound(
                seq![*b],
                parent@,
                *parent_ty,
                scope,
            ));
        }
    }

    /// Adds the access points of the variables that the patterns bind, one pattern after the
    /// other.
    fn get_decs_of_pats<'t>(
        &mut self,
        pats: &Vec<Pat>,
        parent: &ResourceTy,
        parent_ty: &'t Ty,
        scope: usize,
        res: &mut Vec<(ResourceAccessPoint, Evt, &'t Ty)>,
    )
        requires
            no_union(pats_bindings(pats@)),
            old(self)@.bind_all(pats_bindings(pats@), parent@, scope).hashes <= usize::MAX,
        ensures
            final(self)@ == old(self)@.bind_all(pats_bindings(pats@), parent@, scope),
            bound_view(final(res)@) == bound_view(old(res)@) + old(self)@.bound(
                pats_bindings(pats@),
                parent@,
                *parent_ty,
                scope,
            ),
            final(self).same_setting(old(self)),
        decreases pats@,
    {
        let ghost before = self@;
        let ghost all = pats_bindings(pats@);
        let mut i: usize = 0;
        proof {
            assert(pats@.take(0) =~= Seq::<Pat>::empty());
            assert(bound_view(res@) =~= bound_view(res@) + Seq::empty());
        }
        while i < pats.len()
            invariant
                i <= pats@.len(),
                all == pats_bindings(pats@),
                no_union(all),
                before.bind_all(all, parent@, scope).hashes <= usize::MAX,
                self.same_setting(old(self)),
                self@ == before.bind_all(pats_bindings(pats@.take(i as int)), parent@, scope),
                bound_view(res@) == bound_view(old(res)@) + before.bound(
                    pats_bindings(pats@.take(i as int)),
                    parent@,
                    *parent_ty,
                    scope,
                ),
            decreases pats@.len() - i,
        {
            let ghost done = pats_bindings(pats@.take(i as int));
            let ghost this = pat_bindings(pats@[i as int]);
            proof {
                lemma_pats_prefix(pats@, i + 1);
                assert(pats@.take(i + 1).drop_last() =~= pats@.take(i as int));
                assert(pats@.take(i + 1).last() == pats@[i as int]);
                let n = (done + this).len() as int;
                assert(all =~= (done + this) + all.skip(n));
                lemma_bind_parts(before, done + this, all.skip(n), parent@, *parent_ty, scope);
                lemma_bind_parts(before, done, this, parent@, *parent_ty, scope);
                assert(decreases_to!(pats@ => pats@[i as int]));
            }
            self.get_dec_of_pat2(&pats[i], parent, parent_ty, scope, res);
            proof {
                assert(bound_view(res@) =~= bound_view(old(res)@) + before.bound(
                    done + this,
                    parent@,
                    *parent_ty,
                    scope,
                ));
            }
            i += 1;
        }
        assert(pats@.take(i as int) =~= pats@);
    }

    /// Adds the access points of the variables that a pattern binds, and lists each of them with
    /// what happens to the matched value, whose type is `parent_ty`.
    pub fn get_dec_of_pat2<'t>(
        &mut self,
        pat: &Pat,
        parent: &ResourceTy,
        parent_ty: &'t Ty,
        scope: usize,
        res: &mut Vec<(ResourceAccessPoint, Evt, &'t Ty)>,
    )
        requires
            no_union(pat_bindings(*pat)),
            old(self)@.bind_all(pat_bindings(*pat), parent@, scope).hashes <= usize::MAX,
        ensures
            final(self)@ == old(self)@.bind_all(pat_bindings(*pat), parent@, scope),
            bound_view(final(res)@) == bound_view(old(res)@) + old(self)@.bound(
                pat_bindings(*pat),
                parent@,
                *parent_ty,
                scope,
            ),
            final(self).same_setting(old(self)),
        decreases *pat,
    {
        let ghost before = self@;
        match pat {
            Pat::TupleStruct(pats) => self.get_decs_of_pats(pats, parent, parent_ty, scope, res),
            Pat::Struct(pats) => self.get_decs_of_pats(pats, parent, parent_ty, scope, res),
            Pat::Tuple(pats) => self.get_decs_of_pats(pats, parent, parent_ty, scope, res),
            Pat::Slice(pats) => self.get_decs_of_pats(pats, parent, parent_ty, scope, res),
            Pat::Ref(inner) => self.get_dec_of_pat2(inner, parent, parent_ty, scope, res),
            Pat::Or(pats) => {
                if pats.len() > 0 {
                    assert(decreases_to!(*pat => pat->Or_0@[0]));
                    self.get_dec_of_pat2(&pats[0], parent, parent_ty, scope, res);
                } else {
                    assert(bound_view(res@) =~= bound_view(res@) + Seq::empty());
                }
            },
            Pat::Binding(b) => match &b.sub {
                Some(p) => {
                    proof {
                        lemma_bind_parts(
                            before,
                            seq![*b],
                            pat_bindings(**p),
                            parent@,
                            *parent_ty,
                            scope,
                        );
                    }
                    self.bind(b, parent, parent_ty, scope, res);
                    self.get_dec_of_pat2(p, parent, parent_ty, scope, res);
                    proof {
                        assert(bound_view(res@) =~= bound_view(old(res)@) + before.bound(
                            pat_bindings(*pat),
                            parent@,
                            *parent_ty,
                            scope,
                        ));
                    }
                },
                None => self.bind(b, parent, parent_ty, scope, res),
            },
            Pat::Other => {
                assert(bound_view(res@) =~= bound_view(res@) + Seq::empty());
            },
        }
    }
}

} // verus!
