use rv_plugin::data::{ExternalEvent, ResourceAccessPoint, ResourceTy};
use rv_plugin::expr_visitor::{Evt, ExprVisitor};
use rv_plugin::hir::{
    AdtKind, Expr, ExprField, ExprKind, Mutability, Path, Ty, TyKind, UnOp,
};
use rv_plugin::name_map::NameMap;
use std::collections::{BTreeMap, HashMap, VecDeque};

fn visitor(source: &BTreeMap<usize, String>) -> ExprVisitor<'_> {
    let mut lines = BTreeMap::new();
    for line in 1..=20 {
        lines.insert(line, Vec::new());
    }
    ExprVisitor {
        borrow_map: NameMap::new(),
        raps: NameMap::new(),
        current_scope: 20,
        analysis_result: HashMap::new(),
        event_line_map: lines,
        preprocessed_events: Vec::new(),
        rap_hashes: 0,
        source_map: source,
        annotated_lines: BTreeMap::new(),
        id_map: NameMap::new(),
        unique_id: 0,
        inside_branch: false,
        fn_ret: false,
    }
}

fn name(text: &str) -> String {
    text.to_string()
}

fn ty(kind: TyKind, is_copy: bool) -> Ty {
    Ty { kind, is_copy, is_special_owner: false, deref_is_ref: None, parts: Vec::new() }
}

fn number_ty() -> Ty {
    ty(TyKind::Other, true)
}

fn shared() -> Ty {
    ty(TyKind::Ref { mutability: Mutability::Not }, true)
}

fn exclusive() -> Ty {
    ty(TyKind::Ref { mutability: Mutability::Mut }, false)
}

fn expr(line: usize, ty: Ty, kind: ExprKind) -> Expr {
    Expr {
        line,
        ty,
        rap: None,
        resource: ResourceTy::Anonymous,
        lender: ResourceTy::Anonymous,
        kind,
    }
}

fn rap(v: &ExprVisitor<'_>, text: &str) -> ResourceAccessPoint {
    v.raps.get(&name(text)).unwrap().rap.clone()
}

fn value(v: &ExprVisitor<'_>, text: &str) -> ResourceTy {
    ResourceTy::Value(rap(v, text))
}

fn path(line: usize, segments: &[&str], is_ctor: bool) -> Path {
    Path { line, segments: segments.iter().map(|s| name(s)).collect(), is_ctor }
}

fn variable(line: usize, text: &str, ty: Ty) -> Expr {
    expr(line, ty, ExprKind::Path(path(line, &[text], false)))
}

fn setup(source: &BTreeMap<usize, String>) -> ExprVisitor<'_> {
    let mut v = visitor(source);
    v.add_owner(name("x"), true, 20, true);
    v.add_owner(name("y"), true, 20, true);
    v.add_fn(name("f"));
    let y = value(&v, "y");
    v.add_ref(name("r"), false, false, 1, y, VecDeque::new(), 20, true);
    v
}

fn lifetime(v: &ExprVisitor<'_>, text: &str) -> usize {
    v.borrow_map.get(&name(text)).unwrap().lifetime
}

/// The one event that assigning `rhs` to `x` adds, with its line.
fn assign(v: &mut ExprVisitor<'_>, rhs: Expr, evt: Evt) -> (usize, ExternalEvent) {
    let x = value(v, "x");
    let before = v.preprocessed_events.len();
    assert!(v.can_match_rhs(&x, &rhs, evt));
    v.match_rhs(x, &rhs, evt);
    assert_eq!(v.preprocessed_events.len(), before + 1);
    v.preprocessed_events[before].clone()
}

#[test]
fn variable_is_moved() {
    let source = BTreeMap::new();
    let mut v = setup(&source);
    let (line, event) = assign(&mut v, variable(4, "y", number_ty()), Evt::Move);
    assert_eq!(line, 4);
    assert!(matches!(event, ExternalEvent::Move { id: 0, is_partial: false, .. }));
    assert_eq!(event.resource_access_point_extract(), (value(&v, "y"), value(&v, "x")));
    assert_eq!(v.event_line_map[&4].len(), 1);
}

#[test]
fn copied_reference_lives_on() {
    let source = BTreeMap::new();
    let mut v = setup(&source);
    assign(&mut v, variable(7, "r", shared()), Evt::Copy);
    assert_eq!(lifetime(&v, "r"), 7);
}

#[test]
fn constructor_goes_by_its_whole_path() {
    let source = BTreeMap::new();
    let mut v = setup(&source);
    v.add_fn(name("Option::None"));
    let p = path(5, &["Option", "None"], true);
    assert_eq!(p.target_name(), "Option::None");
    let (_, event) = assign(&mut v, expr(5, number_ty(), ExprKind::Path(p)), Evt::Move);
    assert_eq!(event.resource_access_point_extract().0, value(&v, "Option::None"));
    assert_eq!(path(5, &["a", "b"], false).target_name(), "a");
    assert_eq!(path(5, &["a", "b", "c"], true).target_name(), "a::b::c");
    assert_eq!(path(5, &[], true).target_name(), "");
}

#[test]
fn call_gives_what_function_returns() {
    let source = BTreeMap::new();
    let mut v = setup(&source);
    let call = ExprKind::Call { line: 9, fn_name: name("f") };
    let (line, event) = assign(&mut v, expr(8, number_ty(), call), Evt::Move);
    assert_eq!(line, 9);
    assert_eq!(event.resource_access_point_extract(), (value(&v, "f"), value(&v, "x")));
    assert!(v.event_line_map[&9].is_empty());
    let method = ExprKind::MethodCall { line: 3, fn_name: name("f") };
    let (line, event) = assign(&mut v, expr(8, number_ty(), method), Evt::Copy);
    assert_eq!(line, 3);
    assert!(matches!(event, ExternalEvent::Copy { id: 1, .. }));
}

#[test]
fn literals_and_operators_bind() {
    let source = BTreeMap::new();
    let mut v = setup(&source);
    let inner = || Box::new(variable(2, "y", number_ty()));
    let kinds = vec![
        ExprKind::Lit,
        ExprKind::Binary,
        ExprKind::Unary(UnOp::Neg, inner()),
        ExprKind::Unary(UnOp::Not, inner()),
    ];
    for kind in kinds {
        let (line, event) = assign(&mut v, expr(6, number_ty(), kind), Evt::Move);
        assert_eq!(line, 6);
        assert!(matches!(event, ExternalEvent::Bind { from: ResourceTy::Anonymous, .. }));
    }
}

#[test]
fn address_is_borrowed() {
    let source = BTreeMap::new();
    let mut v = setup(&source);
    let y = rap(&v, "y");
    let mut inner = variable(10, "y", number_ty());
    inner.rap = Some(y.clone());
    let mut addr = expr(9, shared(), ExprKind::AddrOf(Mutability::Not, Box::new(inner)));
    addr.rap = Some(y);
    let (line, event) = assign(&mut v, addr, Evt::Copy);
    assert_eq!(line, 10);
    assert!(matches!(event, ExternalEvent::StaticBorrow { .. }));
    assert_eq!(event.resource_access_point_extract().0, value(&v, "y"));
}

#[test]
fn last_reference_of_chain_decides() {
    let source = BTreeMap::new();
    let mut v = setup(&source);
    let last = expr(5, exclusive(), ExprKind::AddrOf(Mutability::Mut, Box::new(variable(5, "y", number_ty()))));
    let chain = expr(5, shared(), ExprKind::AddrOf(Mutability::Not, Box::new(last)));
    assert_eq!(chain.fetch_mutability(), Some(Mutability::Mut));
    let (_, event) = assign(&mut v, chain, Evt::Copy);
    assert!(matches!(
        event,
        ExternalEvent::MutableBorrow { from: ResourceTy::Anonymous, .. }
    ));
    assert_eq!(variable(1, "y", number_ty()).fetch_mutability(), None);
}

#[test]
fn address_of_reference_is_a_use() {
    let source = BTreeMap::new();
    let mut v = setup(&source);
    let mut inner = variable(12, "r", shared());
    inner.rap = Some(rap(&v, "r"));
    let addr = expr(12, shared(), ExprKind::AddrOf(Mutability::Not, Box::new(inner)));
    assign(&mut v, addr, Evt::Copy);
    assert_eq!(lifetime(&v, "r"), 12);
}

#[test]
fn dereference_reads_through_reference() {
    let source = BTreeMap::new();
    let mut v = setup(&source);
    let r = rap(&v, "r");
    let mut inner = variable(11, "r", shared());
    inner.rap = Some(r.clone());
    let deref = expr(10, number_ty(), ExprKind::Unary(UnOp::Deref, Box::new(inner)));
    let (line, event) = assign(&mut v, deref, Evt::Copy);
    assert_eq!(line, 11);
    assert_eq!(event.resource_access_point_extract().0, ResourceTy::Deref(r));
    assert_eq!(lifetime(&v, "r"), 11);
}

#[test]
fn block_gives_its_last_expression() {
    let source = BTreeMap::new();
    let mut v = setup(&source);
    let block = ExprKind::Block(Some(Box::new(variable(6, "y", number_ty()))));
    let (line, event) = assign(&mut v, expr(5, number_ty(), block), Evt::Move);
    assert_eq!(line, 6);
    assert!(matches!(event, ExternalEvent::Move { .. }));
    assert_eq!(v.current_scope, 20);
}

#[test]
fn nothing_comes_of_unit() {
    let source = BTreeMap::new();
    let mut v = setup(&source);
    let x = value(&v, "x");
    for kind in vec![ExprKind::Block(None), ExprKind::Ret(None), ExprKind::Other] {
        v.match_rhs(x.clone(), &expr(5, number_ty(), kind), Evt::Move);
    }
    assert!(v.preprocessed_events.is_empty());
    assert_eq!(v.unique_id, 0);
}

#[test]
fn both_branches_are_assigned() {
    let source = BTreeMap::new();
    let mut v = setup(&source);
    let x = value(&v, "x");
    let branch = |e: Expr| expr(5, number_ty(), ExprKind::Block(Some(Box::new(e))));
    let both = ExprKind::If(
        Box::new(branch(variable(6, "y", number_ty()))),
        Some(Box::new(branch(expr(8, number_ty(), ExprKind::Lit)))),
    );
    v.match_rhs(x.clone(), &expr(5, number_ty(), both), Evt::Move);
    assert_eq!(v.preprocessed_events.len(), 2);
    assert_eq!(v.preprocessed_events[0].0, 6);
    assert!(matches!(v.preprocessed_events[0].1, ExternalEvent::Move { id: 0, .. }));
    assert_eq!(v.preprocessed_events[1].0, 8);
    assert!(matches!(v.preprocessed_events[1].1, ExternalEvent::Bind { id: 1, .. }));
    let one = ExprKind::If(Box::new(variable(9, "y", number_ty())), None);
    v.match_rhs(x, &expr(9, number_ty(), one), Evt::Copy);
    assert_eq!(v.preprocessed_events.len(), 3);
}

#[test]
fn return_and_temporaries_are_seen_through() {
    let source = BTreeMap::new();
    let mut v = setup(&source);
    let ret = ExprKind::Ret(Some(Box::new(variable(3, "y", number_ty()))));
    let (line, _) = assign(&mut v, expr(3, number_ty(), ExprKind::DropTemps(Box::new(expr(3, number_ty(), ret)))), Evt::Move);
    assert_eq!(line, 3);
}

#[test]
fn field_is_named_with_its_struct() {
    let source = BTreeMap::new();
    let mut v = setup(&source);
    v.add_struct(name("p.a"), 0, true, false, 20, true);
    let field = ExprKind::Field(Box::new(variable(14, "p", number_ty())), name("a"));
    let (line, event) = assign(&mut v, expr(13, number_ty(), field), Evt::Copy);
    assert_eq!(line, 14);
    assert_eq!(event.resource_access_point_extract().0, value(&v, "p.a"));
}

#[test]
fn struct_literal_binds_then_fills_fields() {
    let source = BTreeMap::new();
    let mut v = setup(&source);
    let point = ty(
        TyKind::Adt { kind: AdtKind::Struct, fields: vec![name("a"), name("b"), name("c"), name("d")] },
        false,
    );
    let init = expr(4, number_ty(), ExprKind::Lit);
    v.define_lhs(name("p"), false, &init, &point);
    let field = |text: &str, expr: Expr| ExprField { name: name(text), expr };
    v.add_owner(name("s"), false, 20, true);
    let x = value(&v, "x");
    v.add_ref(name("m"), true, false, 2, x, VecDeque::new(), 20, true);
    let literal = ExprKind::Struct(vec![
        field("a", variable(5, "y", number_ty())),
        field("b", variable(6, "s", ty(TyKind::Other, false))),
        field("c", variable(7, "r", shared())),
        field("d", variable(8, "m", exclusive())),
    ]);
    let p = value(&v, "p");
    let rhs = expr(4, number_ty(), literal);
    assert!(v.can_match_rhs(&p, &rhs, Evt::Move));
    v.match_rhs(p, &rhs, Evt::Move);
    let events: Vec<(usize, ExternalEvent)> = v.preprocessed_events.clone();
    assert_eq!(events.len(), 5);
    assert_eq!(events[0].0, 4);
    assert!(matches!(events[0].1, ExternalEvent::Bind { id: 0, .. }));
    assert!(matches!(events[1].1, ExternalEvent::Copy { id: 1, .. }));
    assert!(matches!(events[2].1, ExternalEvent::Move { id: 2, .. }));
    assert!(matches!(events[3].1, ExternalEvent::Copy { id: 3, .. }));
    assert!(matches!(events[4].1, ExternalEvent::Move { id: 4, .. }));
    for (i, text) in ["p.a", "p.b", "p.c", "p.d"].iter().enumerate() {
        assert_eq!(events[i + 1].1.resource_access_point_extract().1, value(&v, text));
    }
    assert_eq!(lifetime(&v, "r"), 7);
    assert_eq!(lifetime(&v, "m"), 8);
}

#[test]
fn assigning_leaves_access_points_alone() {
    let source = BTreeMap::new();
    let mut v = setup(&source);
    let before = format!("{:?}", (0..v.raps.len()).map(|i| v.raps.value_at(i)).collect::<Vec<_>>());
    assign(&mut v, variable(7, "r", shared()), Evt::Copy);
    let after = format!("{:?}", (0..v.raps.len()).map(|i| v.raps.value_at(i)).collect::<Vec<_>>());
    assert_eq!(before, after);
    assert_eq!(v.rap_hashes, 4);
}

#[test]
fn record_stays_consistent() {
    let source = BTreeMap::new();
    let mut v = setup(&source);
    assign(&mut v, variable(4, "y", number_ty()), Evt::Move);
    assign(&mut v, expr(4, number_ty(), ExprKind::Lit), Evt::Move);
    assign(&mut v, variable(4, "r", shared()), Evt::Copy);
    assign(&mut v, variable(6, "y", number_ty()), Evt::Copy);
    v.print_out_of_scope();
    let borrowers: NameMap<usize> = NameMap::new();
    v.print_deaths(&vec![vec![vec![name("r")]]], &borrowers);
    let ids: Vec<usize> = v
        .preprocessed_events
        .iter()
        .map(|(_, e)| match e {
            ExternalEvent::Bind { id, .. }
            | ExternalEvent::Copy { id, .. }
            | ExternalEvent::Move { id, .. }
            | ExternalEvent::StaticDie { id, .. }
            | ExternalEvent::GoOutOfScope { id, .. } => *id,
            other => panic!("{:?}", other),
        })
        .collect();
    assert_eq!(ids, (0..v.unique_id).collect::<Vec<usize>>());
    assert_eq!(v.unique_id, 8);
    let kinds: Vec<String> = v.event_line_map[&4].iter().map(|e| format!("{:?}", e)).collect();
    let expected: Vec<String> =
        [0, 2, 7].iter().map(|i| format!("{:?}", v.preprocessed_events[*i].1)).collect();
    assert_eq!(kinds, expected);
    assert_eq!(v.event_line_map[&6].len(), 1);
    assert!(v.event_line_map[&20].is_empty());
}

#[test]
fn unknown_names_are_refused() {
    let source = BTreeMap::new();
    let v = setup(&source);
    let x = value(&v, "x");
    assert!(!v.can_match_rhs(&x, &variable(4, "nobody", number_ty()), Evt::Move));
    let call = ExprKind::Call { line: 4, fn_name: name("g") };
    assert!(!v.can_match_rhs(&x, &expr(4, number_ty(), call), Evt::Move));
    let field = ExprKind::Field(Box::new(expr(4, number_ty(), ExprKind::Lit)), name("a"));
    assert!(!v.can_match_rhs(&x, &expr(4, number_ty(), field), Evt::Move));
    assert!(!v.can_match_rhs(&x, &variable(99, "y", number_ty()), Evt::Move));
    let literal = ExprKind::Struct(vec![ExprField {
        name: name("a"),
        expr: expr(4, number_ty(), ExprKind::Lit),
    }]);
    assert!(!v.can_match_rhs(&ResourceTy::Anonymous, &expr(4, number_ty(), literal), Evt::Move));
}

#[test]
fn numbers_that_run_out_are_noticed() {
    let source = BTreeMap::new();
    let mut v = setup(&source);
    let x = value(&v, "x");
    v.unique_id = usize::MAX;
    assert!(!v.can_match_rhs(&x, &variable(4, "y", number_ty()), Evt::Move));
    v.unique_id = usize::MAX - 1;
    assert!(v.can_match_rhs(&x, &variable(4, "y", number_ty()), Evt::Move));
}

#[test]
fn circular_aliases_are_noticed() {
    let source = BTreeMap::new();
    let mut v = setup(&source);
    let aliasing: VecDeque<String> = vec![name("q")].into();
    v.add_ref(name("p"), false, false, 2, ResourceTy::Anonymous, aliasing, 20, true);
    let p = rap(&v, "p");
    assert!(!v.can_update_rap(&p));
    let aliasing: VecDeque<String> = vec![name("p")].into();
    v.add_ref(name("q"), false, false, 3, ResourceTy::Anonymous, aliasing, 20, true);
    assert!(!v.can_update_rap(&p));
    v.add_ref(name("q"), false, false, 3, ResourceTy::Anonymous, VecDeque::new(), 20, true);
    assert!(v.can_update_rap(&p));
    assert!(v.can_update_rap(&rap(&v, "x")));
}

#[test]
fn left_hand_sides_are_resolved() {
    let source = BTreeMap::new();
    let mut v = setup(&source);
    v.add_struct(name("p.a"), 0, true, false, 20, true);
    let x = variable(3, "x", number_ty());
    assert!(v.can_resource_of_lhs(&x));
    assert_eq!(v.resource_of_lhs(&x), value(&v, "x"));
    let field = expr(3, number_ty(), ExprKind::Field(Box::new(variable(3, "p", number_ty())), name("a")));
    assert!(v.can_resource_of_lhs(&field));
    assert_eq!(v.resource_of_lhs(&field), value(&v, "p.a"));
    let r: ResourceAccessPoint = rap(&v, "r");
    let mut deref = expr(9, number_ty(), ExprKind::Unary(UnOp::Deref, Box::new(variable(10, "r", shared()))));
    assert_eq!(v.resource_of_lhs(&deref), ResourceTy::Anonymous);
    assert_eq!(lifetime(&v, "r"), 1);
    deref.rap = Some(r.clone());
    assert!(v.can_resource_of_lhs(&deref));
    assert_eq!(v.resource_of_lhs(&deref), ResourceTy::Deref(r));
    assert_eq!(lifetime(&v, "r"), 10);
    assert!(!v.can_resource_of_lhs(&expr(3, number_ty(), ExprKind::Lit)));
    assert!(!v.can_resource_of_lhs(&variable(3, "nobody", number_ty())));
}

#[test]
fn arguments_that_cannot_be_passed_are_noticed() {
    let source = BTreeMap::new();
    let mut v = setup(&source);
    let arg = variable(99, "y", number_ty());
    assert!(v.can_match_arg(&arg, &name("f")));
    let mut arrow = variable(99, "y", number_ty());
    arrow.resource = value(&v, "y");
    assert!(v.can_match_arg(&arrow, &name("new")));
    assert!(!v.can_match_arg(&arrow, &name("x")));
    v.rap_hashes = usize::MAX;
    assert!(!v.can_match_arg(&arg, &name("new")));
    assert!(v.can_match_arg(&arg, &name("f")));
    v.unique_id = usize::MAX;
    assert!(!v.can_match_arg(&arg, &name("f")));
}

#[test]
fn arguments_are_passed() {
    let source = BTreeMap::new();
    let mut v = setup(&source);
    let arg = |v: &mut ExprVisitor<'_>, ty: Ty| {
        let mut e = variable(5, "y", ty);
        e.resource = value(v, "y");
        v.match_arg(&e, name("g"));
        v.preprocessed_events[v.preprocessed_events.len() - 1].clone()
    };
    let (line, event) = arg(&mut v, shared());
    assert_eq!(line, 5);
    assert!(matches!(event, ExternalEvent::PassByStaticReference { id: 0, .. }));
    assert_eq!(event.resource_access_point_extract(), (value(&v, "y"), value(&v, "g")));
    assert!(matches!(arg(&mut v, exclusive()).1, ExternalEvent::PassByMutableReference { .. }));
    assert!(matches!(arg(&mut v, number_ty()).1, ExternalEvent::Copy { .. }));
    assert!(matches!(arg(&mut v, ty(TyKind::Other, false)).1, ExternalEvent::Move { id: 3, .. }));
    assert_eq!(v.rap_hashes, 5);
    assert!(v.event_line_map[&5].is_empty());
}
