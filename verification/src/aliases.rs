//! Loans, and the aliases that tie their lifetimes together.

use crate::data::{Name, ResourceTy};
use vstd::prelude::*;

verus! {

/// A loan between a borrower and its lender, as contracts see it.
pub ghost struct Loan {
    pub lender: ResourceTy<Name>,
    pub assigned_at: usize,
    pub lifetime: usize,
    pub ref_mutability: bool,
    pub aliasing: Seq<Name>,
}

/// The borrower `a` aliases `b` directly.
pub open spec fn aliases(loans: Map<Name, Loan>, a: Name, b: Name) -> bool {
    loans.contains_key(a) && loans[a].aliasing.contains(b)
}

/// Each name of `path` aliases the next one.
pub open spec fn alias_path(loans: Map<Name, Loan>, path: Seq<Name>) -> bool {
    forall|i: int| 0 <= i < path.len() - 1 ==> #[trigger] aliases(loans, path[i], path[i + 1])
}

/// `b` is `a`, or is reached from it along aliases.
pub open spec fn reaches(loans: Map<Name, Loan>, a: Name, b: Name) -> bool {
    exists|path: Seq<Name>|
        path.len() > 0 && path[0] == a && path.last() == b && #[trigger] alias_path(loans, path)
}

/// Everything that `name` reaches along aliases has a loan, and is at most `depth` aliases away.
pub open spec fn aliases_within(loans: Map<Name, Loan>, name: Name, depth: nat) -> bool
    decreases depth,
{
    &&& loans.contains_key(name)
    &&& loans[name].aliasing.len() > 0 ==> depth > 0
    &&& depth > 0 ==> forall|i: int|
        0 <= i < loans[name].aliasing.len() ==> aliases_within(
            loans,
            #[trigger] loans[name].aliasing[i],
            (depth - 1) as nat,
        )
}

/// Following aliases from `name` meets only names that have a loan, and comes to an end.
pub open spec fn aliases_end(loans: Map<Name, Loan>, name: Name) -> bool {
    exists|depth: nat| aliases_within(loans, name, depth)
}

/// The loans with the lifetime of each borrower in `names` set to `line`.
pub open spec fn with_lifetime(
    loans: Map<Name, Loan>,
    names: spec_fn(Name) -> bool,
    line: usize,
) -> Map<Name, Loan> {
    Map::new(
        |k: Name| loans.contains_key(k),
        |k: Name|
            if names(k) {
                Loan { lifetime: line, ..loans[k] }
            } else {
                loans[k]
            },
    )
}

/// Both maps have the same borrowers, with the same aliases.
pub open spec fn same_aliasing(a: Map<Name, Loan>, b: Map<Name, Loan>) -> bool {
    &&& a.dom() == b.dom()
    &&& forall|k: Name| #[trigger] a.contains_key(k) ==> a[k].aliasing == b[k].aliasing
}

pub proof fn lemma_with_lifetime(
    loans: Map<Name, Loan>,
    names: spec_fn(Name) -> bool,
    line: usize,
)
    ensures
        same_aliasing(loans, with_lifetime(loans, names, line)),
{
    assert(loans.dom() =~= with_lifetime(loans, names, line).dom());
}

pub proof fn lemma_same_aliasing(a: Map<Name, Loan>, b: Map<Name, Loan>)
    requires
        same_aliasing(a, b),
    ensures
        forall|x: Name, y: Name| reaches(a, x, y) <==> #[trigger] reaches(b, x, y),
        forall|x: Name, d: nat| aliases_within(a, x, d) <==> #[trigger] aliases_within(b, x, d),
        forall|x: Name| aliases_end(a, x) <==> #[trigger] aliases_end(b, x),
{
    assert forall|x: Name, y: Name| #[trigger] aliases(a, x, y) <==> aliases(b, x, y) by {
        assert(a.contains_key(x) <==> b.contains_key(x));
    }
    assert forall|p: Seq<Name>| #[trigger] alias_path(a, p) <==> alias_path(b, p) by {
        if alias_path(a, p) {
            assert forall|i: int| 0 <= i < p.len() - 1 implies #[trigger] aliases(b, p[i], p[i + 1]) by {
                assert(aliases(a, p[i], p[i + 1]));
            }
        }
        if alias_path(b, p) {
            assert forall|i: int| 0 <= i < p.len() - 1 implies #[trigger] aliases(a, p[i], p[i + 1]) by {
                assert(aliases(b, p[i], p[i + 1]));
            }
        }
    }
    assert forall|x: Name, y: Name| reaches(a, x, y) <==> #[trigger] reaches(b, x, y) by {
        if reaches(a, x, y) {
            let p = choose|p: Seq<Name>|
                p.len() > 0 && p[0] == x && p.last() == y && #[trigger] alias_path(a, p);
            assert(alias_path(b, p));
        }
        if reaches(b, x, y) {
            let p = choose|p: Seq<Name>|
                p.len() > 0 && p[0] == x && p.last() == y && #[trigger] alias_path(b, p);
            assert(alias_path(a, p));
        }
    }
    assert forall|x: Name, d: nat| aliases_within(a, x, d) <==> #[trigger] aliases_within(b, x, d) by {
        lemma_same_within(a, b, x, d);
    }
    assert forall|x: Name| aliases_end(a, x) <==> #[trigger] aliases_end(b, x) by {
        if aliases_end(a, x) {
            let d = choose|d: nat| aliases_within(a, x, d);
            assert(aliases_within(b, x, d));
        }
        if aliases_end(b, x) {
            let d = choose|d: nat| aliases_within(b, x, d);
            assert(aliases_within(a, x, d));
        }
    }
}

proof fn lemma_same_within(a: Map<Name, Loan>, b: Map<Name, Loan>, x: Name, d: nat)
    requires
        same_aliasing(a, b),
    ensures
        aliases_within(a, x, d) <==> aliases_within(b, x, d),
    decreases d,
{
    assert(a.contains_key(x) <==> b.contains_key(x));
    if a.contains_key(x) && d > 0 {
        assert forall|i: int| 0 <= i < a[x].aliasing.len() implies (aliases_within(
            a,
            #[trigger] a[x].aliasing[i],
            (d - 1) as nat,
        ) <==> aliases_within(b, a[x].aliasing[i], (d - 1) as nat)) by {
            lemma_same_within(a, b, a[x].aliasing[i], (d - 1) as nat);
        }
        assert(a[x].aliasing == b[x].aliasing);
    }
}

/// What ends within a depth ends within a greater one.
pub proof fn lemma_within_more(loans: Map<Name, Loan>, name: Name, depth: nat, more: nat)
    requires
        aliases_within(loans, name, depth),
        depth <= more,
    ensures
        aliases_within(loans, name, more),
    decreases depth,
{
    if depth > 0 {
        assert forall|i: int| 0 <= i < loans[name].aliasing.len() implies aliases_within(
            loans,
            #[trigger] loans[name].aliasing[i],
            (more - 1) as nat,
        ) by {
            lemma_within_more(
                loans,
                loans[name].aliasing[i],
                (depth - 1) as nat,
                (more - 1) as nat,
            );
        }
    }
}

/// What a name reaches is the name itself and what its direct aliases reach.
pub proof fn lemma_reaches(loans: Map<Name, Loan>, a: Name, b: Name)
    requires
        loans.contains_key(a),
    ensures
        reaches(loans, a, b) <==> a == b || exists|i: int|
            0 <= i < loans[a].aliasing.len() && #[trigger] reaches(
                loans,
                loans[a].aliasing[i],
                b,
            ),
{
    if a == b {
        let p = seq![a];
        assert(alias_path(loans, p));
        assert(p.len() > 0 && p[0] == a && p.last() == b);
    }
    if reaches(loans, a, b) && a != b {
        let p = choose|p: Seq<Name>|
            p.len() > 0 && p[0] == a && p.last() == b && #[trigger] alias_path(loans, p);
        let q = p.drop_first();
        assert(p.len() > 1);
        assert(aliases(loans, p[0], p[0int + 1]));
        let i = choose|i: int| 0 <= i < loans[a].aliasing.len() && loans[a].aliasing[i] == p[1];
        assert forall|j: int| 0 <= j < q.len() - 1 implies #[trigger] aliases(loans, q[j], q[j + 1]) by {
            assert(aliases(loans, p[j + 1], p[j + 1 + 1]));
        }
        assert(alias_path(loans, q));
        assert(q[0] == loans[a].aliasing[i] && q.last() == b);
        assert(reaches(loans, loans[a].aliasing[i], b));
    }
    if exists|i: int|
        0 <= i < loans[a].aliasing.len() && #[trigger] reaches(loans, loans[a].aliasing[i], b) {
        let i = choose|i: int|
            0 <= i < loans[a].aliasing.len() && #[trigger] reaches(loans, loans[a].aliasing[i], b);
        let c = loans[a].aliasing[i];
        let q = choose|q: Seq<Name>|
            q.len() > 0 && q[0] == c && q.last() == b && #[trigger] alias_path(loans, q);
        let p = seq![a] + q;
        assert forall|j: int| 0 <= j < p.len() - 1 implies #[trigger] aliases(loans, p[j], p[j + 1]) by {
            if j == 0 {
                assert(p[1] == c);
                assert(loans[a].aliasing.contains(c));
            } else {
                assert(aliases(loans, q[j - 1], q[j - 1 + 1]));
            }
        }
        assert(alias_path(loans, p));
        assert(p[0] == a && p.last() == b);
    }
}

/// The list after the names of `new` with a key below `bound` were put into it, in the order of
/// their keys, each at the place that its key and `offset` give.
pub open spec fn spliced(
    list: Seq<Name>,
    new: Map<usize, String>,
    offset: usize,
    bound: nat,
) -> Seq<Name>
    decreases bound,
{
    if bound == 0 {
        list
    } else {
        let before = spliced(list, new, offset, (bound - 1) as nat);
        let key = (bound - 1) as usize;
        if new.contains_key(key) {
            before.insert(key + offset, new[key]@)
        } else {
            before
        }
    }
}

/// Each name of `new` has a place in the list when its turn comes.
pub open spec fn can_splice(list: Seq<Name>, new: Map<usize, String>, offset: usize) -> bool {
    forall|key: usize| #[trigger]
        new.contains_key(key) ==> key + offset <= spliced(list, new, offset, key as nat).len()
}

/// The list after all names of `new` were put into it.
pub open spec fn splice_all(list: Seq<Name>, new: Map<usize, String>, offset: usize) -> Seq<Name> {
    spliced(list, new, offset, (usize::MAX + 1) as nat)
}

/// Where there are no keys, nothing is put in.
pub proof fn lemma_splice_gap(
    list: Seq<Name>,
    new: Map<usize, String>,
    offset: usize,
    low: nat,
    high: nat,
)
    requires
        low <= high <= usize::MAX + 1,
        forall|key: usize| #[trigger] new.contains_key(key) ==> key < low || high <= key,
    ensures
        spliced(list, new, offset, high) == spliced(list, new, offset, low),
    decreases high,
{
    if low < high {
        assert(!new.contains_key((high - 1) as usize));
        lemma_splice_gap(list, new, offset, low, (high - 1) as nat);
    }
}

} // verus!
