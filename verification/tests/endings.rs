use rv_plugin::data::{ExternalEvent, ResourceAccessPoint, ResourceTy};
use rv_plugin::expr_visitor::{ExprVisitor, RefData};
use rv_plugin::lifetimes::first_line;
use rv_plugin::name_map::NameMap;
use std::collections::{BTreeMap, HashMap, VecDeque};

fn visitor(source: &BTreeMap<usize, String>) -> ExprVisitor<'_> {
    let mut lines = BTreeMap::new();
    for line in 1..=20 {
        lines.insert(line, Vec::new());
    }
    ExprVisitor {
        borrow_map: NameMap::new(),
        raps: NameMap::new(),
        current_scope: 20,
        analysis_result: HashMap::new(),
        event_line_map: lines,
        preprocessed_events: Vec::new(),
        rap_hashes: 0,
        source_map: source,
        annotated_lines: BTreeMap::new(),
        id_map: NameMap::new(),
        unique_id: 0,
        inside_branch: false,
        fn_ret: false,
    }
}

fn name(text: &str) -> String {
    text.to_string()
}

fn rap(v: &ExprVisitor<'_>, text: &str) -> ResourceAccessPoint {
    v.raps.get(&name(text)).unwrap().rap.clone()
}

fn value(v: &ExprVisitor<'_>, text: &str) -> ResourceTy {
    ResourceTy::Value(rap(v, text))
}

fn names(list: &[&str]) -> Vec<String> {
    list.iter().map(|n| name(n)).collect()
}

fn reference(v: &mut ExprVisitor<'_>, text: &str, is_mut: bool, lender: ResourceTy, line: usize, aliases: &[&str]) {
    let aliasing: VecDeque<String> = names(aliases).into();
    v.add_ref(name(text), is_mut, false, line, lender, aliasing, 20, true);
}

fn counts(list: &[(&str, usize)]) -> NameMap<usize> {
    let mut map = NameMap::new();
    for (n, count) in list {
        map.insert(name(n), *count);
    }
    map
}

fn ids(v: &ExprVisitor<'_>) -> Vec<String> {
    v.preprocessed_events.iter().map(|e| format!("{:?}", e)).collect()
}

#[test]
fn scopes_end_once() {
    let source = BTreeMap::new();
    let mut v = visitor(&source);
    v.add_owner(name("x"), false, 11, true);
    v.add_fn(name("f"));
    v.add_owner(name("inner"), false, 7, false);
    v.add_owner(name("y"), false, 12, true);
    v.print_out_of_scope();
    assert_eq!(v.preprocessed_events.len(), 2);
    assert_eq!(v.preprocessed_events[0].0, 11);
    assert_eq!(v.preprocessed_events[1].0, 12);
    match &v.preprocessed_events[1].1 {
        ExternalEvent::GoOutOfScope { ro, id } => {
            assert_eq!(*ro, rap(&v, "y"));
            assert_eq!(*id, 1);
        }
        _ => panic!("not the end of a scope"),
    }
    assert_eq!(v.unique_id, 2);
    assert!(v.event_line_map[&11].is_empty());
    let once = ids(&v);
    v.print_out_of_scope();
    assert_eq!(ids(&v), once);
    assert_eq!(v.unique_id, 2);
}

#[test]
fn scope_that_has_ended_is_skipped() {
    let source = BTreeMap::new();
    let mut v = visitor(&source);
    v.add_owner(name("x"), false, 11, true);
    let x = rap(&v, "x");
    v.add_external_event(5, ExternalEvent::GoOutOfScope { ro: x, id: 9 });
    v.print_out_of_scope();
    assert_eq!(v.preprocessed_events.len(), 1);
}

#[test]
fn first_match_gives_the_line() {
    assert_eq!(first_line(&vec![None, Some(4), Some(9)]), Some(4));
    assert_eq!(first_line(&vec![None, None]), None);
    assert_eq!(first_line(&Vec::new()), None);
}

#[test]
fn lifetimes_are_refined() {
    let source = BTreeMap::new();
    let mut v = visitor(&source);
    for n in ["a", "b", "c"] {
        reference(&mut v, n, false, ResourceTy::Anonymous, 3, &[]);
    }
    let mut kills = NameMap::new();
    kills.insert(name("a"), vec![None, Some(8), Some(9)]);
    kills.insert(name("b"), vec![None]);
    kills.insert(name("other"), vec![Some(17)]);
    v.refine_lifetimes(&kills);
    let lifetime = |n: &str| v.borrow_map.get(&name(n)).unwrap().lifetime;
    assert_eq!((lifetime("a"), lifetime("b"), lifetime("c")), (8, 3, 3));
    assert_eq!(v.borrow_map.len(), 3);
}

#[test]
fn longest_lived_leads_its_region() {
    let source = BTreeMap::new();
    let mut v = visitor(&source);
    v.add_owner(name("x"), false, 20, true);
    let x = value(&v, "x");
    for (n, line) in [("a", 3), ("b", 6), ("c", 6), ("d", 9), ("e", 8)] {
        reference(&mut v, n, false, x.clone(), line, &[]);
    }
    reference(&mut v, "free", true, ResourceTy::Anonymous, 1, &[]);
    let lenders = vec![vec![names(&["a", "b", "c"]), names(&["d", "e"])]];
    let ultimate = v.ultimate_refs(&lenders);
    let found: Vec<&String> = (0..ultimate.len()).map(|i| ultimate.name_at(i)).collect();
    assert_eq!(found, vec!["b", "d", "free"]);
}

#[test]
fn each_region_has_its_own_leader() {
    let source = BTreeMap::new();
    let mut v = visitor(&source);
    v.add_owner(name("x"), false, 20, true);
    let x = value(&v, "x");
    for (n, line) in [("a", 9), ("b", 5), ("c", 4)] {
        reference(&mut v, n, false, x.clone(), line, &[]);
    }
    let lenders = vec![vec![names(&["a"]), names(&["c", "b"])]];
    let ultimate = v.ultimate_refs(&lenders);
    let found: Vec<&String> = (0..ultimate.len()).map(|i| ultimate.name_at(i)).collect();
    assert_eq!(found, vec!["a", "b"]);
    let borrowers = counts(&[("c", 2)]);
    assert!(v.can_print_deaths(&lenders, &borrowers));
    v.print_deaths(&lenders, &borrowers);
    assert!(matches!(&v.preprocessed_events[0], (9, ExternalEvent::StaticDie { .. })));
    assert!(matches!(&v.preprocessed_events[1], (5, ExternalEvent::StaticDie { .. })));
    assert!(matches!(&v.preprocessed_events[2], (4, ExternalEvent::RefDie { .. })));
}

#[test]
fn region_that_never_lives_has_no_leader() {
    let source = BTreeMap::new();
    let mut v = visitor(&source);
    reference(&mut v, "a", false, ResourceTy::Caller, 0, &[]);
    let ultimate = v.ultimate_refs(&vec![vec![names(&["a"])]]);
    assert!(!ultimate.contains_key(&name("a")));
}

#[test]
fn loans_that_cannot_be_ended_are_only_refined() {
    let source = BTreeMap::new();
    let mut v = visitor(&source);
    reference(&mut v, "a", false, ResourceTy::Caller, 4, &[]);
    let mut kills = NameMap::new();
    kills.insert(name("a"), vec![Some(12)]);
    let regions = |_: &NameMap<RefData>| Vec::new();
    assert!(!v.try_print_lifetimes(&kills, regions, |_: &NameMap<RefData>| counts(&[])));
    assert_eq!(v.borrow_map.get(&name("a")).unwrap().lifetime, 12);
    assert!(v.preprocessed_events.is_empty());
    assert!(v.try_print_lifetimes(&kills, regions, |_: &NameMap<RefData>| counts(&[("a", 1)])));
    assert!(matches!(
        &v.preprocessed_events[0],
        (12, ExternalEvent::RefDie { num_curr_borrowers: 0, .. })
    ));
}

#[test]
fn room_for_scope_events_is_tested() {
    let source = BTreeMap::new();
    let mut v = visitor(&source);
    v.add_owner(name("x"), false, 11, true);
    assert!(v.can_print_out_of_scope());
    v.unique_id = usize::MAX;
    assert!(!v.can_print_out_of_scope());
}

#[test]
fn most_aliases_end_first() {
    let source = BTreeMap::new();
    let mut v = visitor(&source);
    reference(&mut v, "a", false, ResourceTy::Anonymous, 1, &[]);
    reference(&mut v, "b", false, ResourceTy::Anonymous, 2, &["a"]);
    reference(&mut v, "c", false, ResourceTy::Anonymous, 3, &[]);
    reference(&mut v, "d", false, ResourceTy::Anonymous, 4, &["b", "a"]);
    reference(&mut v, "e", false, ResourceTy::Anonymous, 5, &["c"]);
    assert_eq!(v.cascade_order(), names(&["d", "b", "e", "a", "c"]));
}

#[test]
fn every_loan_ends_once() {
    let source = BTreeMap::new();
    let mut v = visitor(&source);
    v.add_owner(name("x"), false, 20, true);
    let x = value(&v, "x");
    reference(&mut v, "a", false, x.clone(), 4, &[]);
    reference(&mut v, "b", true, x.clone(), 7, &[]);
    reference(&mut v, "c", false, ResourceTy::Anonymous, 9, &["a"]);
    let lenders = vec![vec![names(&["a", "b"])]];
    let borrowers = counts(&[("a", 3)]);
    assert!(v.can_print_deaths(&lenders, &borrowers));
    v.print_deaths(&lenders, &borrowers);
    assert_eq!(v.preprocessed_events.len(), 3);
    assert_eq!(v.unique_id, 3);
    match &v.preprocessed_events[0] {
        (9, ExternalEvent::StaticDie { from, to, id: 0 }) => {
            assert_eq!(*from, value(&v, "c"));
            assert_eq!(*to, ResourceTy::Deref(rap(&v, "c")));
        }
        other => panic!("{:?}", other),
    }
    match &v.preprocessed_events[1] {
        (4, ExternalEvent::RefDie { from, to, num_curr_borrowers, id: 1 }) => {
            assert_eq!(*from, value(&v, "a"));
            assert_eq!(*to, x);
            assert_eq!(*num_curr_borrowers, 2);
        }
        other => panic!("{:?}", other),
    }
    assert!(matches!(&v.preprocessed_events[2], (7, ExternalEvent::MutableDie { id: 2, .. })));
    assert_eq!(v.event_line_map[&7].len(), 1);
    assert_eq!(v.event_line_map[&9].len(), 1);
}

#[test]
fn loans_end_where_the_analysis_lets_them() {
    let source = BTreeMap::new();
    let mut v = visitor(&source);
    v.add_owner(name("x"), false, 20, true);
    let x = value(&v, "x");
    reference(&mut v, "a", false, x.clone(), 4, &[]);
    reference(&mut v, "b", false, x, 7, &[]);
    let mut kills = NameMap::new();
    kills.insert(name("a"), vec![Some(12)]);
    let regions = |loans: &NameMap<RefData>| {
        assert_eq!(loans.get(&name("a")).unwrap().lifetime, 12);
        vec![vec![names(&["a", "b"])]]
    };
    v.print_lifetimes(&kills, regions, |_: &NameMap<RefData>| counts(&[("a", 2), ("b", 2)]));
    assert!(matches!(&v.preprocessed_events[0], (12, ExternalEvent::StaticDie { .. })));
    assert!(matches!(
        &v.preprocessed_events[1],
        (7, ExternalEvent::RefDie { num_curr_borrowers: 1, .. })
    ));
}

#[test]
fn what_cannot_be_ended_is_noticed() {
    let source = BTreeMap::new();
    let mut v = visitor(&source);
    v.add_owner(name("x"), false, 20, true);
    let x = value(&v, "x");
    reference(&mut v, "a", false, x, 4, &[]);
    let none: Vec<Vec<Vec<String>>> = Vec::new();
    assert!(!v.can_print_deaths(&none, &counts(&[])));
    assert!(!v.can_print_deaths(&none, &counts(&[("a", 0)])));
    assert!(v.can_print_deaths(&none, &counts(&[("a", 1)])));
    assert!(v.can_print_deaths(&vec![vec![names(&["a"])]], &counts(&[])));
    assert!(!v.can_print_deaths(&vec![vec![names(&["nobody"])]], &counts(&[("a", 1)])));
    v.unique_id = usize::MAX;
    assert!(!v.can_print_deaths(&none, &counts(&[("a", 1)])));
    v.unique_id = 0;
    v.update_lifetime(&name("a"), 99);
    assert!(!v.can_print_deaths(&none, &counts(&[("a", 1)])));
}

#[test]
fn access_points_compare_by_all_they_hold() {
    let source = BTreeMap::new();
    let mut v = visitor(&source);
    v.add_owner(name("x"), false, 20, true);
    v.add_static_ref(name("s"), false, 20, true);
    let x: ResourceAccessPoint = rap(&v, "x");
    assert!(x == x.clone());
    assert!(x != rap(&v, "s"));
    assert!(ResourceTy::Value(x.clone()) != ResourceTy::Deref(x));
    assert_eq!(value(&v, "s").name(), "s");
}
