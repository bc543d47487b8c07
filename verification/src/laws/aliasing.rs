//! How lifetimes spread along aliases, and why that comes to an end.

use crate::aliases::{
    alias_path, aliases, aliases_end, aliases_within, lemma_reaches, lemma_same_aliasing, lemma_with_lifetime,
    lemma_within_more, reaches, same_aliasing, splice_all, Loan,
};
use crate::data::{Name, ResourceTy};
use crate::declare::{aliasing_of, ref_data};
use crate::hir::{spec_bool_of_mut, AdtKind, Binding, Expr, Ty, TyKind};
use crate::lifetimes::{cascade, lemma_cascade};
use crate::state::State;
use crate::steps::{lemma_steps, Step};
use vstd::prelude::*;
use vstd::seq_lib::group_to_multiset_ensures;

verus! {

/// Following the aliases of any loan comes to an end.
pub open spec fn all_aliases_end(s: State) -> bool {
    forall|k: Name| #[trigger] s.loans.contains_key(k) ==> aliases_end(s.loans, k)
}

/// Everything that `name` reaches along aliases now lives until `line`, and no other loan is
/// touched.
pub proof fn law_aliases_share_lifetime(s: State, name: Name, line: usize, other: Name)
    requires
        s.loans.contains_key(other),
    ensures
        s.update_lifetime(name, line).loans.contains_key(other),
        s.update_lifetime(name, line).loans[other] == (if reaches(s.loans, name, other) {
            Loan { lifetime: line, ..s.loans[other] }
        } else {
            s.loans[other]
        }),
        name == other || aliases(s.loans, name, other) ==> s.update_lifetime(
            name,
            line,
        ).loans[other].lifetime == line,
{
    if name == other || aliases(s.loans, name, other) {
        lemma_reaches(s.loans, name, other);
        if name != other {
            let i = choose|i: int|
                0 <= i < s.loans[name].aliasing.len() && s.loans[name].aliasing[i] == other;
            lemma_reaches(s.loans, other, other);
            assert(reaches(s.loans, s.loans[name].aliasing[i], other));
        }
    }
}

/// However long a chain of aliases is, what stands at its end lives as long as what stands at its
/// beginning was last used.
pub proof fn law_lifetime_follows_chains(s: State, line: usize, chain: Seq<Name>)
    requires
        chain.len() > 0,
        forall|i: int| #![trigger chain[i]]
            0 <= i < chain.len() - 1 ==> s.loans.contains_key(chain[i])
                && s.loans[chain[i]].aliasing.contains(chain[i + 1]),
        s.loans.contains_key(chain.last()),
    ensures
        s.update_lifetime(chain[0], line).loans[chain.last()].lifetime == line,
{
    assert forall|i: int| 0 <= i < chain.len() - 1 implies #[trigger] aliases(
        s.loans,
        chain[i],
        chain[i + 1],
    ) by {
        assert(s.loans.contains_key(chain[i]));
    }
    assert(alias_path(s.loans, chain));
    assert(reaches(s.loans, chain[0], chain.last()));
}

/// Nothing else lives longer: in any group of names that holds `name` and whatever its members
/// alias, a loan outside the group is left alone. No loan changes in anything but its lifetime, and
/// the rest of the record does not change.
pub proof fn law_lifetime_stays_among_aliases(
    s: State,
    name: Name,
    line: usize,
    group: spec_fn(Name) -> bool,
    other: Name,
)
    requires
        group(name),
        forall|a: Name, b: Name|
            #![trigger group(a), group(b)]
            group(a) && s.loans.contains_key(a) && s.loans[a].aliasing.contains(b) ==> group(b),
        s.loans.contains_key(other),
    ensures
        ({
            let t = s.update_lifetime(name, line);
            &&& t == (State { loans: t.loans, ..s })
            &&& t.loans.dom() == s.loans.dom()
            &&& t.loans[other] == (Loan { lifetime: t.loans[other].lifetime, ..s.loans[other] })
            &&& t.loans[other].lifetime == line || t.loans[other] == s.loans[other]
            &&& !group(other) ==> t.loans[other] == s.loans[other]
        }),
{
    let t = s.update_lifetime(name, line);
    assert(t.loans.dom() =~= s.loans.dom());
    if reaches(s.loans, name, other) {
        let path = choose|path: Seq<Name>|
            path.len() > 0 && path[0] == name && path.last() == other && #[trigger] alias_path(
                s.loans,
                path,
            );
        lemma_group_holds_path(s, group, path, path.len() - 1);
    }
}

proof fn lemma_group_holds_path(s: State, group: spec_fn(Name) -> bool, path: Seq<Name>, i: int)
    requires
        alias_path(s.loans, path),
        0 <= i < path.len(),
        group(path[0]),
        forall|a: Name, b: Name|
            #![trigger group(a), group(b)]
            group(a) && s.loans.contains_key(a) && s.loans[a].aliasing.contains(b) ==> group(b),
    ensures
        group(path[i]),
    decreases i,
{
    if i > 0 {
        lemma_group_holds_path(s, group, path, i - 1);
        assert(aliases(s.loans, path[i - 1], path[i - 1 + 1]));
        assert(group(path[i - 1]));
        assert(group(path[i]) || !group(path[i]));
    }
}

/// A lifetime can be updated exactly if there is a loan and the lifetimes of everything that it
/// aliases can be updated. It always can where the loan has no aliases.
pub proof fn law_lifetime_can_be_updated(loans: Map<Name, Loan>, name: Name)
    ensures
        !loans.contains_key(name) ==> !aliases_end(loans, name),
        loans.contains_key(name) && loans[name].aliasing.len() == 0 ==> aliases_end(loans, name),
        loans.contains_key(name) ==> (aliases_end(loans, name) <==> forall|i: int|
            0 <= i < loans[name].aliasing.len() ==> aliases_end(
                loans,
                #[trigger] loans[name].aliasing[i],
            )),
{
    if loans.contains_key(name) {
        let aliasing = loans[name].aliasing;
        if aliasing.len() == 0 {
            assert(aliases_within(loans, name, 0));
        }
        if aliases_end(loans, name) {
            let d = choose|d: nat| aliases_within(loans, name, d);
            assert forall|i: int| 0 <= i < aliasing.len() implies aliases_end(
                loans,
                #[trigger] loans[name].aliasing[i],
            ) by {
                assert(aliases_within(loans, loans[name].aliasing[i], (d - 1) as nat));
            }
        }
        if forall|i: int|
            0 <= i < aliasing.len() ==> aliases_end(loans, #[trigger] loans[name].aliasing[i]) {
            let d = lemma_common_depth(loans, aliasing);
            assert(aliases_within(loans, name, (d + 1) as nat));
        }
    }
}

/// New aliases change the aliases of their loan, and nothing else.
pub proof fn law_new_aliases_change_one_loan(
    s: State,
    name: Name,
    new: Map<usize, String>,
    offset: usize,
)
    requires
        s.loans.contains_key(name),
    ensures
        ({
            let t = s.update_aliasing(name, new, offset);
            &&& t == (State { loans: t.loans, ..s })
            &&& t.loans == s.loans.insert(
                name,
                Loan {
                    aliasing: splice_all(s.loans[name].aliasing, new, offset),
                    ..s.loans[name]
                },
            )
        }),
{
}

/// Of two updates of a lifetime, the last one counts.
pub proof fn law_last_update_counts(s: State, name: Name, line: usize, later: usize)
    ensures
        s.update_lifetime(name, line).update_lifetime(name, later) == s.update_lifetime(
            name,
            later,
        ),
{
    let t = s.update_lifetime(name, line);
    lemma_with_lifetime(s.loans, |k: Name| reaches(s.loans, name, k), line);
    lemma_same_aliasing(s.loans, t.loans);
    assert(t.update_lifetime(name, later).loans =~= s.update_lifetime(name, later).loans);
}

/// Moving a lifetime breaks no chain of aliases.
pub proof fn law_update_keeps_aliases_ending(s: State, name: Name, line: usize)
    requires
        all_aliases_end(s),
    ensures
        all_aliases_end(s.update_lifetime(name, line)),
{
    let t = s.update_lifetime(name, line);
    lemma_with_lifetime(s.loans, |k: Name| reaches(s.loans, name, k), line);
    lemma_keeps_ending(s, t);
}

proof fn lemma_within_insert(
    loans: Map<Name, Loan>,
    fresh: Name,
    loan: Loan,
    name: Name,
    depth: nat,
)
    requires
        !loans.contains_key(fresh),
        aliases_within(loans, name, depth),
    ensures
        aliases_within(loans.insert(fresh, loan), name, depth),
    decreases depth,
{
    if depth > 0 {
        assert forall|i: int| 0 <= i < loans[name].aliasing.len() implies aliases_within(
            loans.insert(fresh, loan),
            #[trigger] loans[name].aliasing[i],
            (depth - 1) as nat,
        ) by {
            lemma_within_insert(
                loans,
                fresh,
                loan,
                loans[name].aliasing[i],
                (depth - 1) as nat,
            );
        }
    }
}

/// A depth within which all of the names come to an end.
proof fn lemma_common_depth(loans: Map<Name, Loan>, names: Seq<Name>) -> (depth: nat)
    requires
        forall|i: int| 0 <= i < names.len() ==> aliases_end(loans, #[trigger] names[i]),
    ensures
        forall|i: int|
            0 <= i < names.len() ==> aliases_within(loans, #[trigger] names[i], depth),
    decreases names.len(),
{
    if names.len() == 0 {
        0
    } else {
        assert forall|i: int| 0 <= i < names.drop_last().len() implies aliases_end(
            loans,
            #[trigger] names.drop_last()[i],
        ) by {
            assert(aliases_end(loans, names[i]));
        }
        let a = lemma_common_depth(loans, names.drop_last());
        assert(aliases_end(loans, names[names.len() - 1]));
        let b = choose|depth: nat| aliases_within(loans, names.last(), depth);
        let depth = a + b;
        assert forall|i: int| 0 <= i < names.len() implies aliases_within(
            loans,
            #[trigger] names[i],
            depth,
        ) by {
            if i < names.len() - 1 {
                assert(names.drop_last()[i] == names[i]);
                lemma_within_more(loans, names[i], a, depth);
            } else {
                lemma_within_more(loans, names[i], b, depth);
            }
        }
        depth
    }
}

/// A new loan whose aliases all have loans keeps every chain of aliases finite, so that the
/// lifetimes of all loans can still be updated.
pub proof fn law_new_loan_keeps_aliases_ending(s: State, name: Name, loan: Loan)
    requires
        all_aliases_end(s),
        !s.loans.contains_key(name),
        forall|i: int|
            0 <= i < loan.aliasing.len() ==> s.loans.contains_key(#[trigger] loan.aliasing[i]),
    ensures
        all_aliases_end(s.add_loan(name, loan)),
{
    let t = s.add_loan(name, loan);
    let depth = lemma_common_depth(s.loans, loan.aliasing);
    assert forall|k: Name| #[trigger] t.loans.contains_key(k) implies aliases_end(t.loans, k) by {
        if k == name {
            assert forall|i: int| 0 <= i < loan.aliasing.len() implies aliases_within(
                t.loans,
                #[trigger] loan.aliasing[i],
                depth,
            ) by {
                lemma_within_insert(s.loans, name, loan, loan.aliasing[i], depth);
            }
            assert(aliases_within(t.loans, k, (depth + 1) as nat));
        } else {
            assert(s.loans.contains_key(k));
            let d = choose|d: nat| aliases_within(s.loans, k, d);
            lemma_within_insert(s.loans, name, loan, k, d);
        }
    }
}

/// What a loan aliases has loans itself, as long as every chain of aliases ends.
proof fn lemma_aliases_have_loans(s: State, name: Name)
    requires
        all_aliases_end(s),
        s.loans.contains_key(name),
    ensures
        forall|i: int|
            0 <= i < s.loans[name].aliasing.len() ==> s.loans.contains_key(
                #[trigger] s.loans[name].aliasing[i],
            ),
{
    let d = choose|d: nat| aliases_within(s.loans, name, d);
    assert forall|i: int| 0 <= i < s.loans[name].aliasing.len() implies s.loans.contains_key(
        #[trigger] s.loans[name].aliasing[i],
    ) by {
        assert(aliases_within(s.loans, s.loans[name].aliasing[i], (d - 1) as nat));
    }
}

/// A reference that is declared under a new name can be used afterwards: the chains of aliases
/// stay finite, provided that a reference whose address is taken has a loan.
pub proof fn law_define_ref_keeps_aliases_ending(
    s: State,
    name: Name,
    is_mut: bool,
    expr: Expr,
    ty: Ty,
    scope: usize,
    is_global: bool,
)
    requires
        all_aliases_end(s),
        !s.loans.contains_key(name),
        expr.spec_is_addr() && expr.ty.deref_is_ref == Some(true) ==> (
        expr.resource@.spec_rap() matches Some(r) ==> s.loans.contains_key(r.spec_name())),
    ensures
        all_aliases_end(s.define_lhs(name, is_mut, expr, ty, scope, is_global)),
{
    let t = s.define_lhs(name, is_mut, expr, ty, scope, is_global);
    match ty.kind {
        TyKind::Ref { mutability } => {
            let (lender, aliasing) = ref_data(s.loans, expr);
            let source = if expr.spec_is_addr() {
                expr.resource@
            } else {
                expr.lender@
            };
            match source.spec_rap() {
                Some(r) => {
                    if s.loans.contains_key(r.spec_name()) {
                        lemma_aliases_have_loans(s, r.spec_name());
                    }
                },
                None => {},
            }
            assert forall|i: int| 0 <= i < aliasing.len() implies s.loans.contains_key(
                #[trigger] aliasing[i],
            ) by {
                let copied = aliasing_of(s.loans, source);
                if expr.spec_is_addr() && expr.ty.deref_is_ref == Some(true)
                    && source.spec_rap() is Some {
                    if i > 0 {
                        assert(aliasing[i] == copied[i - 1]);
                    }
                } else {
                    assert(aliasing[i] == copied[i]);
                }
            }
            let loan = Loan {
                lender,
                assigned_at: expr.line,
                lifetime: expr.line,
                ref_mutability: spec_bool_of_mut(mutability),
                aliasing,
            };
            law_new_loan_keeps_aliases_ending(s, name, loan);
            assert(t.loans == s.add_loan(name, loan).loans);
            assert forall|k: Name| #[trigger] t.loans.contains_key(k) implies aliases_end(
                t.loans,
                k,
            ) by {
                assert(s.add_loan(name, loan).loans.contains_key(k));
            }
        },
        TyKind::Adt { kind, fields } => {
            if !ty.is_special_owner && kind == AdtKind::Struct {
                lemma_struct_loans(s, name, fields@, is_mut, scope, is_global);
            }
        },
        _ => {},
    }
}

/// Assigning an expression breaks no chain of aliases.
pub proof fn law_assigning_keeps_aliases_ending(s: State, steps: Seq<Step>)
    requires
        all_aliases_end(s),
        s.can_take(steps),
    ensures
        all_aliases_end(s.steps(steps)),
{
    lemma_steps(s, steps);
    lemma_keeps_ending(s, s.steps(steps));
}

/// Neither does taking over the lifetimes of the compiler's analysis.
pub proof fn law_refining_keeps_aliases_ending(s: State, kills: Map<Name, Seq<Option<usize>>>)
    requires
        all_aliases_end(s),
    ensures
        all_aliases_end(s.refine_lifetimes(kills)),
{
    assert(s.loans.dom() =~= s.refine_lifetimes(kills).loans.dom());
    lemma_keeps_ending(s, s.refine_lifetimes(kills));
}

proof fn lemma_keeps_ending(s: State, t: State)
    requires
        all_aliases_end(s),
        same_aliasing(s.loans, t.loans),
    ensures
        all_aliases_end(t),
{
    lemma_same_aliasing(s.loans, t.loans);
    assert forall|k: Name| #[trigger] t.loans.contains_key(k) implies aliases_end(t.loans, k) by {
        assert(s.loans.contains_key(k));
    }
}

proof fn lemma_within_replace(
    loans: Map<Name, Loan>,
    replaced: Name,
    loan: Loan,
    name: Name,
    depth: nat,
)
    requires
        loan.aliasing.len() == 0,
        aliases_within(loans, name, depth),
    ensures
        aliases_within(loans.insert(replaced, loan), name, depth),
    decreases depth,
{
    if depth > 0 && name != replaced {
        assert forall|i: int| 0 <= i < loans[name].aliasing.len() implies aliases_within(
            loans.insert(replaced, loan),
            #[trigger] loans[name].aliasing[i],
            (depth - 1) as nat,
        ) by {
            lemma_within_replace(loans, replaced, loan, loans[name].aliasing[i], (depth - 1) as nat);
        }
    }
}

/// A loan without aliases breaks no chain, even where it takes the place of another one.
proof fn lemma_bare_loan_keeps_ending(s: State, name: Name, loan: Loan)
    requires
        all_aliases_end(s),
        loan.aliasing.len() == 0,
    ensures
        all_aliases_end(s.add_loan(name, loan)),
{
    let t = s.add_loan(name, loan);
    assert forall|k: Name| #[trigger] t.loans.contains_key(k) implies aliases_end(t.loans, k) by {
        if k == name {
            assert(aliases_within(t.loans, k, 0));
        } else {
            assert(s.loans.contains_key(k));
            let d = choose|d: nat| aliases_within(s.loans, k, d);
            lemma_within_replace(s.loans, name, loan, k, d);
        }
    }
}

/// Binding the variables of a pattern breaks no chain of aliases, even where a variable takes the
/// name of another.
pub proof fn law_binding_keeps_aliases_ending(
    s: State,
    bindings: Seq<Binding>,
    parent: ResourceTy<Name>,
    scope: usize,
)
    requires
        all_aliases_end(s),
    ensures
        all_aliases_end(s.bind_all(bindings, parent, scope)),
    decreases bindings.len(),
{
    if bindings.len() > 0 {
        let b = bindings.last();
        let t = s.bind_all(bindings.drop_last(), parent, scope);
        let u = s.bind_all(bindings, parent, scope);
        law_binding_keeps_aliases_ending(s, bindings.drop_last(), parent, scope);
        match b.ty.kind {
            TyKind::Ref { mutability } => {
                let loan = Loan {
                    lender: parent,
                    assigned_at: b.line,
                    lifetime: b.line,
                    ref_mutability: spec_bool_of_mut(mutability),
                    aliasing: Seq::empty(),
                };
                lemma_bare_loan_keeps_ending(t, b.name@, loan);
                assert(u.loans == t.add_loan(b.name@, loan).loans);
                lemma_keeps_ending(t.add_loan(b.name@, loan), u);
            },
            TyKind::Adt { kind: AdtKind::Struct, fields } => {
                lemma_struct_loans(
                    t,
                    b.name@,
                    fields@,
                    spec_bool_of_mut(b.mutability),
                    scope,
                    false,
                );
            },
            _ => {},
        }
    }
}

proof fn lemma_field_loans(
    s: State,
    name: Name,
    owner: u64,
    fields: Seq<String>,
    is_mut: bool,
    scope: usize,
    is_global: bool,
)
    ensures
        s.add_fields(name, owner, fields, is_mut, scope, is_global).loans == s.loans,
    decreases fields.len(),
{
    if fields.len() > 0 {
        lemma_field_loans(s, name, owner, fields.drop_last(), is_mut, scope, is_global);
    }
}

proof fn lemma_struct_loans(
    s: State,
    name: Name,
    fields: Seq<String>,
    is_mut: bool,
    scope: usize,
    is_global: bool,
)
    ensures
        s.add_struct_and_fields(name, fields, is_mut, scope, is_global).loans == s.loans,
{
    let owner = s.hashes as u64;
    lemma_field_loans(
        s.add_struct(name, owner, false, is_mut, scope, is_global),
        name,
        owner,
        fields,
        is_mut,
        scope,
        is_global,
    );
}

/// A loan has more aliases than each loan that it aliases.
pub open spec fn aliases_are_shorter(s: State) -> bool {
    forall|k: Name, i: int| #![trigger s.loans[k].aliasing[i]]
        s.loans.contains_key(k) && 0 <= i < s.loans[k].aliasing.len() ==> {
            let a = s.loans[k].aliasing[i];
            &&& s.loans.contains_key(a)
            &&& s.loans[a].aliasing.len() < s.loans[k].aliasing.len()
        }
}

/// Where there are no loans yet, that holds of all of them.
pub proof fn law_no_loans_have_shorter_aliases(s: State)
    requires
        forall|k: Name| !s.loans.contains_key(k),
    ensures
        aliases_are_shorter(s),
{
}

proof fn lemma_shorter_within(s: State, name: Name)
    requires
        aliases_are_shorter(s),
        s.loans.contains_key(name),
    ensures
        aliases_within(s.loans, name, s.loans[name].aliasing.len()),
    decreases s.loans[name].aliasing.len(),
{
    let depth = s.loans[name].aliasing.len();
    assert forall|i: int| 0 <= i < depth implies aliases_within(
        s.loans,
        #[trigger] s.loans[name].aliasing[i],
        (depth - 1) as nat,
    ) by {
        let a = s.loans[name].aliasing[i];
        lemma_shorter_within(s, a);
        lemma_within_more(s.loans, a, s.loans[a].aliasing.len(), (depth - 1) as nat);
    }
}

/// Where loans have more aliases than what they alias, every chain of aliases ends.
pub proof fn law_shorter_aliases_end(s: State)
    requires
        aliases_are_shorter(s),
    ensures
        all_aliases_end(s),
{
    assert forall|k: Name| #[trigger] s.loans.contains_key(k) implies aliases_end(s.loans, k) by {
        lemma_shorter_within(s, k);
    }
}

/// A reference that is declared under a new name has more aliases than what it aliases, if that
/// held of the references before it and a reference whose address is taken has a loan.
pub proof fn law_define_ref_keeps_aliases_shorter(
    s: State,
    name: Name,
    is_mut: bool,
    expr: Expr,
    ty: Ty,
    scope: usize,
    is_global: bool,
)
    requires
        aliases_are_shorter(s),
        !s.loans.contains_key(name),
        expr.spec_is_addr() && expr.ty.deref_is_ref == Some(true) ==> (
        expr.resource@.spec_rap() matches Some(r) ==> s.loans.contains_key(r.spec_name())),
    ensures
        aliases_are_shorter(s.define_lhs(name, is_mut, expr, ty, scope, is_global)),
{
    let t = s.define_lhs(name, is_mut, expr, ty, scope, is_global);
    match ty.kind {
        TyKind::Ref { mutability } => {
            let (lender, aliasing) = ref_data(s.loans, expr);
            let source = if expr.spec_is_addr() {
                expr.resource@
            } else {
                expr.lender@
            };
            let copied = aliasing_of(s.loans, source);
            let longer = expr.spec_is_addr() && expr.ty.deref_is_ref == Some(true)
                && source.spec_rap() is Some;
            assert forall|k: Name, i: int| #![trigger t.loans[k].aliasing[i]]
                t.loans.contains_key(k) && 0 <= i < t.loans[k].aliasing.len() implies {
                let a = t.loans[k].aliasing[i];
                &&& t.loans.contains_key(a)
                &&& t.loans[a].aliasing.len() < t.loans[k].aliasing.len()
            } by {
                if k == name {
                    assert(t.loans[k].aliasing == aliasing);
                    let from = source.spec_rap()->0.spec_name();
                    if longer && i > 0 {
                        assert(aliasing[i] == copied[i - 1]);
                        assert(s.loans[from].aliasing[i - 1] == copied[i - 1]);
                    } else if !longer {
                        assert(s.loans[from].aliasing[i] == copied[i]);
                    }
                } else {
                    assert(t.loans[k] == s.loans[k]);
                    let a = s.loans[k].aliasing[i];
                    assert(s.loans.contains_key(a));
                }
            }
        },
        TyKind::Adt { kind, fields } => {
            if !ty.is_special_owner && kind == AdtKind::Struct {
                lemma_struct_loans(s, name, fields@, is_mut, scope, is_global);
            }
        },
        _ => {},
    }
}

/// Assigning an expression leaves loans with more aliases than what they alias.
pub proof fn law_assigning_keeps_aliases_shorter(s: State, steps: Seq<Step>)
    requires
        aliases_are_shorter(s),
        s.can_take(steps),
    ensures
        aliases_are_shorter(s.steps(steps)),
{
    lemma_steps(s, steps);
    lemma_keeps_shorter(s, s.steps(steps));
}

/// So does taking over the lifetimes of the compiler's analysis.
pub proof fn law_refining_keeps_aliases_shorter(s: State, kills: Map<Name, Seq<Option<usize>>>)
    requires
        aliases_are_shorter(s),
    ensures
        aliases_are_shorter(s.refine_lifetimes(kills)),
{
    assert(s.loans.dom() =~= s.refine_lifetimes(kills).loans.dom());
    lemma_keeps_shorter(s, s.refine_lifetimes(kills));
}

proof fn lemma_keeps_shorter(s: State, t: State)
    requires
        aliases_are_shorter(s),
        same_aliasing(s.loans, t.loans),
    ensures
        aliases_are_shorter(t),
{
    assert forall|k: Name, i: int| #![trigger t.loans[k].aliasing[i]]
        t.loans.contains_key(k) && 0 <= i < t.loans[k].aliasing.len() implies {
        let a = t.loans[k].aliasing[i];
        &&& t.loans.contains_key(a)
        &&& t.loans[a].aliasing.len() < t.loans[k].aliasing.len()
    } by {
        assert(s.loans.contains_key(k));
        let a = s.loans[k].aliasing[i];
        assert(s.loans.contains_key(a));
    }
}

/// So does binding the variables of a pattern, even where a variable takes the name of another.
pub proof fn law_binding_keeps_aliases_shorter(
    s: State,
    bindings: Seq<Binding>,
    parent: ResourceTy<Name>,
    scope: usize,
)
    requires
        aliases_are_shorter(s),
    ensures
        aliases_are_shorter(s.bind_all(bindings, parent, scope)),
    decreases bindings.len(),
{
    if bindings.len() > 0 {
        let b = bindings.last();
        let t = s.bind_all(bindings.drop_last(), parent, scope);
        let u = s.bind_all(bindings, parent, scope);
        law_binding_keeps_aliases_shorter(s, bindings.drop_last(), parent, scope);
        match b.ty.kind {
            TyKind::Ref { mutability } => {
                assert forall|k: Name, i: int| #![trigger u.loans[k].aliasing[i]]
                    u.loans.contains_key(k) && 0 <= i < u.loans[k].aliasing.len() implies {
                    let a = u.loans[k].aliasing[i];
                    &&& u.loans.contains_key(a)
                    &&& u.loans[a].aliasing.len() < u.loans[k].aliasing.len()
                } by {
                    assert(u.loans[k] == t.loans[k]);
                    let a = t.loans[k].aliasing[i];
                    assert(t.loans.contains_key(a));
                }
            },
            TyKind::Adt { kind: AdtKind::Struct, fields } => {
                lemma_struct_loans(
                    t,
                    b.name@,
                    fields@,
                    spec_bool_of_mut(b.mutability),
                    scope,
                    false,
                );
            },
            _ => {},
        }
    }
}

/// The loan of a reference ends before the loans of what it aliases.
pub proof fn law_loans_end_before_what_they_alias(s: State, name: Name, alias: Name)
    requires
        aliases_are_shorter(s),
        forall|k: Name| s.loans.contains_key(k) <==> #[trigger] s.borrowers.contains(k),
        s.loans.contains_key(name),
        aliases(s.loans, name, alias),
    ensures
        cascade(s.loans, s.borrowers).contains(name),
        cascade(s.loans, s.borrowers).contains(alias),
        forall|i: int, j: int|
            0 <= i < cascade(s.loans, s.borrowers).len() && 0 <= j < cascade(
                s.loans,
                s.borrowers,
            ).len() && #[trigger] cascade(s.loans, s.borrowers)[i] == name && #[trigger] cascade(
                s.loans,
                s.borrowers,
            )[j] == alias ==> i < j,
{
    broadcast use group_to_multiset_ensures;

    let order = cascade(s.loans, s.borrowers);
    lemma_cascade(s.loans, s.borrowers);
    let i = s.loans[name].aliasing.index_of(alias);
    assert(s.loans[name].aliasing[i] == alias);
    assert(s.borrowers.contains(name) && s.borrowers.contains(alias));
    assert(order.to_multiset().count(name) > 0);
    assert(order.to_multiset().count(alias) > 0);
    assert forall|i: int, j: int|
        0 <= i < order.len() && 0 <= j < order.len() && #[trigger] order[i] == name
            && #[trigger] order[j] == alias implies i < j by {
        if j < i {
            assert(s.loans[order[j]].aliasing.len() >= s.loans[order[i]].aliasing.len());
        }
    }
}

} // verus!
