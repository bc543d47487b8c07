use rv_plugin::data::{ExternalEvent, Function, Owner, ResourceAccessPoint, ResourceTy, Struct};
use rv_plugin::expr_visitor::{Evt, ExprVisitor};
use rv_plugin::name_map::NameMap;
use std::collections::{BTreeMap, HashMap, VecDeque};

fn visitor(source: &BTreeMap<usize, String>) -> ExprVisitor<'_> {
    let mut lines = BTreeMap::new();
    for line in 1..=20 {
        lines.insert(line, Vec::new());
    }
    ExprVisitor {
        borrow_map: NameMap::new(),
        raps: NameMap::new(),
        current_scope: 20,
        analysis_result: HashMap::new(),
        event_line_map: lines,
        preprocessed_events: Vec::new(),
        rap_hashes: 0,
        source_map: source,
        annotated_lines: BTreeMap::new(),
        id_map: NameMap::new(),
        unique_id: 0,
        inside_branch: false,
        fn_ret: false,
    }
}

fn name(text: &str) -> String {
    text.to_string()
}

fn rap(v: &ExprVisitor<'_>, text: &str) -> ResourceAccessPoint {
    v.raps.get(&name(text)).unwrap().rap.clone()
}

fn value(v: &ExprVisitor<'_>, text: &str) -> ResourceTy {
    ResourceTy::Value(rap(v, text))
}

fn lifetime(v: &ExprVisitor<'_>, text: &str) -> usize {
    v.borrow_map.get(&name(text)).unwrap().lifetime
}

fn reference(v: &mut ExprVisitor<'_>, text: &str, line: usize, aliases: &[&str]) {
    let aliasing: VecDeque<String> = aliases.iter().map(|a| name(a)).collect();
    v.add_ref(name(text), false, false, line, ResourceTy::Anonymous, aliasing, 20, true);
}

#[test]
fn owner_gets_next_number() {
    let source = BTreeMap::new();
    let mut v = visitor(&source);
    v.add_owner(name("a"), true, 7, true);
    v.add_owner(name("b"), false, 8, false);
    assert_eq!(v.rap_hashes, 2);
    assert_eq!(
        rap(&v, "b"),
        ResourceAccessPoint::Owner(Owner { name: name("b"), hash: 1, is_mut: false })
    );
    let data = v.raps.get(&name("b")).unwrap();
    assert_eq!(data.scope, 8);
    assert!(!data.is_global);
    assert_eq!(v.raps.get(&name("a")).unwrap().scope, 7);
}

#[test]
fn first_access_point_keeps_its_name() {
    let source = BTreeMap::new();
    let mut v = visitor(&source);
    v.add_owner(name("a"), true, 7, true);
    v.add_struct(name("a"), 5, true, false, 9, false);
    assert_eq!(v.rap_hashes, 1);
    assert_eq!(
        rap(&v, "a"),
        ResourceAccessPoint::Owner(Owner { name: name("a"), hash: 0, is_mut: true })
    );
    assert_eq!(v.raps.get(&name("a")).unwrap().scope, 7);
}

#[test]
fn function_belongs_to_no_branch() {
    let source = BTreeMap::new();
    let mut v = visitor(&source);
    v.inside_branch = true;
    v.current_scope = 12;
    v.add_fn(name("f"));
    let data = v.raps.get(&name("f")).unwrap();
    assert_eq!(data.rap, ResourceAccessPoint::Function(Function { name: name("f"), hash: 0 }));
    assert_eq!(data.scope, 12);
    assert!(data.is_global);
}

#[test]
fn struct_member_carries_owner() {
    let source = BTreeMap::new();
    let mut v = visitor(&source);
    v.add_struct(name("p.x"), 41, true, true, 3, true);
    assert_eq!(
        rap(&v, "p.x"),
        ResourceAccessPoint::Struct(Struct {
            name: name("p.x"),
            hash: 0,
            owner: 41,
            is_mut: true,
            is_member: true
        })
    );
}

#[test]
fn references_are_told_apart() {
    let source = BTreeMap::new();
    let mut v = visitor(&source);
    v.add_ref(name("m"), true, false, 4, ResourceTy::Caller, VecDeque::new(), 20, true);
    v.add_ref(name("s"), false, true, 5, ResourceTy::Anonymous, VecDeque::new(), 20, true);
    assert!(matches!(rap(&v, "m"), ResourceAccessPoint::MutRef(_)));
    assert!(matches!(rap(&v, "s"), ResourceAccessPoint::StaticRef(_)));
    let m = v.borrow_map.get(&name("m")).unwrap();
    assert_eq!(m.lender, ResourceTy::Caller);
    assert_eq!((m.assigned_at, m.lifetime, m.ref_mutability), (4, 4, true));
    assert!(m.aliasing.is_empty());
    assert!(!v.borrow_map.get(&name("s")).unwrap().ref_mutability);
}

#[test]
fn plain_reference_records_no_loan() {
    let source = BTreeMap::new();
    let mut v = visitor(&source);
    v.add_static_ref(name("s"), false, 20, true);
    v.add_mut_ref(name("m"), true, 20, true);
    assert_eq!(v.borrow_map.len(), 0);
    assert_eq!(v.raps.len(), 2);
}

#[test]
fn second_loan_replaces_first() {
    let source = BTreeMap::new();
    let mut v = visitor(&source);
    reference(&mut v, "a", 2, &[]);
    v.add_ref(name("a"), true, false, 9, ResourceTy::Caller, VecDeque::new(), 20, true);
    assert_eq!(v.borrow_map.len(), 1);
    assert_eq!(lifetime(&v, "a"), 9);
    assert!(matches!(rap(&v, "a"), ResourceAccessPoint::StaticRef(_)));
}

#[test]
fn lifetime_spreads_to_aliases() {
    let source = BTreeMap::new();
    let mut v = visitor(&source);
    reference(&mut v, "a", 1, &[]);
    reference(&mut v, "b", 2, &["a"]);
    reference(&mut v, "c", 3, &["b", "a"]);
    reference(&mut v, "d", 4, &[]);
    v.update_lifetime(&name("c"), 15);
    assert_eq!(lifetime(&v, "a"), 15);
    assert_eq!(lifetime(&v, "b"), 15);
    assert_eq!(lifetime(&v, "c"), 15);
    assert_eq!(lifetime(&v, "d"), 4);
    v.update_lifetime(&name("b"), 6);
    assert_eq!(lifetime(&v, "a"), 6);
    assert_eq!(lifetime(&v, "b"), 6);
    assert_eq!(lifetime(&v, "c"), 15);
}

#[test]
fn last_lifetime_counts() {
    let source = BTreeMap::new();
    let mut v = visitor(&source);
    reference(&mut v, "a", 1, &[]);
    v.update_lifetime(&name("a"), 9);
    v.update_lifetime(&name("a"), 5);
    assert_eq!(lifetime(&v, "a"), 5);
}

#[test]
fn only_uses_of_references_move_lifetimes() {
    let source = BTreeMap::new();
    let mut v = visitor(&source);
    reference(&mut v, "a", 1, &[]);
    v.add_owner(name("x"), false, 20, true);
    let (a, x) = (rap(&v, "a"), rap(&v, "x"));
    v.update_rap(&x, 8);
    assert_eq!(lifetime(&v, "a"), 1);
    v.update_rap(&a, 8);
    assert_eq!(lifetime(&v, "a"), 8);
}

#[test]
fn arrow_is_put_on_its_line() {
    let source = BTreeMap::new();
    let mut v = visitor(&source);
    v.add_owner(name("x"), false, 20, true);
    v.add_owner(name("y"), false, 20, true);
    let (x, y) = (value(&v, "x"), value(&v, "y"));
    v.add_ev(6, Evt::Move, x, y, false);
    assert_eq!(v.preprocessed_events.len(), 1);
    assert_eq!(v.preprocessed_events[0].0, 6);
    assert_eq!(v.event_line_map[&6].len(), 1);
    assert_eq!(
        format!("{:?}", v.event_line_map[&6][0]),
        format!("{:?}", v.preprocessed_events[0].1)
    );
    assert_eq!(v.unique_id, 1);
}

#[test]
fn dereferences_draw_arrows() {
    let source = BTreeMap::new();
    let mut v = visitor(&source);
    v.add_owner(name("x"), false, 20, true);
    let x = rap(&v, "x");
    v.add_ev(1, Evt::Copy, ResourceTy::Deref(x.clone()), ResourceTy::Value(x.clone()), false);
    v.add_ev(2, Evt::Copy, ResourceTy::Value(x.clone()), ResourceTy::Deref(x.clone()), false);
    v.add_ev(3, Evt::Copy, ResourceTy::Deref(x.clone()), ResourceTy::Deref(x), false);
    for line in 1..=3 {
        assert_eq!(v.event_line_map[&line].len(), 1);
    }
}

#[test]
fn no_arrow_without_two_variables() {
    let source = BTreeMap::new();
    let mut v = visitor(&source);
    v.add_owner(name("x"), false, 20, true);
    v.add_fn(name("f"));
    let (x, f) = (value(&v, "x"), value(&v, "f"));
    v.add_ev(3, Evt::Move, f.clone(), x.clone(), false);
    v.add_ev(3, Evt::Move, x.clone(), f.clone(), false);
    v.add_ev(3, Evt::PassBySRef, f.clone(), f, false);
    v.add_ev(3, Evt::Bind, x.clone(), ResourceTy::Anonymous, false);
    v.add_ev(3, Evt::Move, ResourceTy::Caller, x.clone(), false);
    v.add_ev(3, Evt::Move, ResourceTy::Anonymous, x.clone(), false);
    v.add_ev(3, Evt::Bind, ResourceTy::Anonymous, ResourceTy::Anonymous, false);
    assert_eq!(v.preprocessed_events.len(), 7);
    assert!(v.event_line_map[&3].is_empty());
    assert_eq!(v.unique_id, 7);
}

#[test]
fn line_of_no_program_is_fine_without_arrow() {
    let source = BTreeMap::new();
    let mut v = visitor(&source);
    v.add_owner(name("x"), false, 20, true);
    let x = rap(&v, "x");
    v.add_external_event(99, ExternalEvent::GoOutOfScope { ro: x, id: 4 });
    assert_eq!(v.preprocessed_events[0].0, 99);
    assert!(!v.event_line_map.contains_key(&99));
    assert_eq!(v.unique_id, 0);
}

#[test]
fn each_kind_has_its_event() {
    let source = BTreeMap::new();
    let mut v = visitor(&source);
    v.add_owner(name("x"), false, 20, true);
    let (to, from) = (value(&v, "x"), ResourceTy::Caller);
    let event = |evt: Evt| v.ext_ev_of_evt(evt, to.clone(), from.clone(), 3, true);
    assert!(matches!(event(Evt::Bind), ExternalEvent::Bind { id: 3, .. }));
    assert!(matches!(event(Evt::Copy), ExternalEvent::Copy { id: 3, is_partial: true, .. }));
    assert!(matches!(event(Evt::Move), ExternalEvent::Move { id: 3, is_partial: true, .. }));
    assert!(matches!(event(Evt::SBorrow), ExternalEvent::StaticBorrow { is_partial: true, .. }));
    assert!(matches!(event(Evt::MBorrow), ExternalEvent::MutableBorrow { is_partial: true, .. }));
    assert!(matches!(event(Evt::SDie), ExternalEvent::StaticDie { .. }));
    assert!(matches!(event(Evt::MDie), ExternalEvent::MutableDie { .. }));
    assert!(matches!(event(Evt::PassBySRef), ExternalEvent::PassByStaticReference { .. }));
    assert!(matches!(event(Evt::PassByMRef), ExternalEvent::PassByMutableReference { .. }));
    assert_eq!(event(Evt::Move).resource_access_point_extract(), (from.clone(), to.clone()));
}

#[test]
fn new_aliases_go_to_their_places() {
    let source = BTreeMap::new();
    let mut v = visitor(&source);
    reference(&mut v, "r", 1, &["a", "b"]);
    let mut new = BTreeMap::new();
    new.insert(2, name("z"));
    new.insert(0, name("y"));
    v.update_aliasing_data(&name("r"), &new, 1);
    let aliasing: Vec<String> =
        v.borrow_map.get(&name("r")).unwrap().aliasing.iter().cloned().collect();
    assert_eq!(aliasing, vec![name("a"), name("y"), name("b"), name("z")]);
    v.update_aliasing_data(&name("r"), &BTreeMap::new(), 9);
    assert_eq!(v.borrow_map.get(&name("r")).unwrap().aliasing.len(), 4);
}
