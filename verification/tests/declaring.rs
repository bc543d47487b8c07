use rv_plugin::data::{ResourceAccessPoint, ResourceTy};
use rv_plugin::declare::get_aliasing_data;
use rv_plugin::expr_visitor::{Evt, ExprVisitor};
use rv_plugin::hir::{
    AdtKind, Binding, Expr, ExprKind, GenericArg, Mutability, Pat, Ty, TyKind,
};
use rv_plugin::name_map::NameMap;
use std::collections::{BTreeMap, HashMap, VecDeque};

fn visitor(source: &BTreeMap<usize, String>) -> ExprVisitor<'_> {
    let mut lines = BTreeMap::new();
    for line in 1..=20 {
        lines.insert(line, Vec::new());
    }
    ExprVisitor {
        borrow_map: NameMap::new(),
        raps: NameMap::new(),
        current_scope: 20,
        analysis_result: HashMap::new(),
        event_line_map: lines,
        preprocessed_events: Vec::new(),
        rap_hashes: 0,
        source_map: source,
        annotated_lines: BTreeMap::new(),
        id_map: NameMap::new(),
        unique_id: 0,
        inside_branch: false,
        fn_ret: false,
    }
}

fn name(text: &str) -> String {
    text.to_string()
}

fn ty(kind: TyKind, is_copy: bool) -> Ty {
    Ty { kind, is_copy, is_special_owner: false, deref_is_ref: None, parts: Vec::new() }
}

fn number_ty() -> Ty {
    ty(TyKind::Other, true)
}

fn shared() -> Ty {
    ty(TyKind::Ref { mutability: Mutability::Not }, true)
}

fn exclusive() -> Ty {
    ty(TyKind::Ref { mutability: Mutability::Mut }, false)
}

fn expr(line: usize, ty: Ty, kind: ExprKind) -> Expr {
    Expr {
        line,
        ty,
        rap: None,
        resource: ResourceTy::Anonymous,
        lender: ResourceTy::Anonymous,
        kind,
    }
}

fn rap(v: &ExprVisitor<'_>, text: &str) -> ResourceAccessPoint {
    v.raps.get(&name(text)).unwrap().rap.clone()
}

fn value(v: &ExprVisitor<'_>, text: &str) -> ResourceTy {
    ResourceTy::Value(rap(v, text))
}

fn adt(kind: AdtKind, fields: &[&str]) -> Ty {
    ty(TyKind::Adt { kind, fields: fields.iter().map(|f| name(f)).collect() }, false)
}

fn lit() -> Expr {
    expr(2, number_ty(), ExprKind::Lit)
}

/// The address of a resource, whose type is a reference to a reference if `nested`.
fn address(line: usize, resource: ResourceTy, nested: bool) -> Expr {
    let mut e = expr(line, shared(), ExprKind::AddrOf(Mutability::Not, Box::new(lit())));
    e.ty.deref_is_ref = Some(nested);
    e.resource = resource;
    e
}

fn aliases(list: &VecDeque<String>) -> Vec<String> {
    list.iter().cloned().collect()
}

fn binding(text: &str, line: usize, ty: Ty) -> Pat {
    Pat::Binding(Binding { mutability: Mutability::Mut, line, name: name(text), ty, sub: None })
}

#[test]
fn plain_variable_is_an_owner() {
    let source = BTreeMap::new();
    let mut v = visitor(&source);
    v.define_lhs(name("x"), true, &lit(), &number_ty());
    match rap(&v, "x") {
        ResourceAccessPoint::Owner(o) => assert_eq!((o.hash, o.is_mut), (0, true)),
        _ => panic!("not an owner"),
    }
    let data = v.raps.get(&name("x")).unwrap();
    assert_eq!((data.scope, data.is_global), (20, true));
}

#[test]
fn variable_in_branch_belongs_to_it() {
    let source = BTreeMap::new();
    let mut v = visitor(&source);
    v.inside_branch = true;
    v.current_scope = 6;
    v.define_lhs(name("x"), false, &lit(), &number_ty());
    let data = v.raps.get(&name("x")).unwrap();
    assert_eq!((data.scope, data.is_global), (6, false));
}

#[test]
fn struct_brings_its_fields() {
    let source = BTreeMap::new();
    let mut v = visitor(&source);
    v.define_lhs(name("before"), false, &lit(), &number_ty());
    v.define_lhs(name("p"), false, &lit(), &adt(AdtKind::Struct, &["a", "b"]));
    assert_eq!(v.rap_hashes, 4);
    let members: Vec<(u64, u64, bool)> = ["p", "p.a", "p.b"]
        .iter()
        .map(|n| match rap(&v, n) {
            ResourceAccessPoint::Struct(s) => (s.hash, s.owner, s.is_member),
            _ => panic!("not a struct"),
        })
        .collect();
    assert_eq!(members, vec![(1, 1, false), (2, 1, true), (3, 1, true)]);
}

#[test]
fn enums_and_special_types_are_owners() {
    let source = BTreeMap::new();
    let mut v = visitor(&source);
    v.define_lhs(name("e"), false, &lit(), &adt(AdtKind::Enum, &["a"]));
    let mut string = adt(AdtKind::Struct, &["vec"]);
    string.is_special_owner = true;
    v.define_lhs(name("s"), false, &lit(), &string);
    assert!(matches!(rap(&v, "e"), ResourceAccessPoint::Owner(_)));
    assert!(matches!(rap(&v, "s"), ResourceAccessPoint::Owner(_)));
    assert_eq!(v.raps.len(), 2);
}

#[test]
fn unions_and_functions_are_not_recorded() {
    let source = BTreeMap::new();
    let mut v = visitor(&source);
    v.define_lhs(name("u"), false, &lit(), &adt(AdtKind::Union, &["a"]));
    v.define_lhs(name("f"), false, &lit(), &ty(TyKind::Fn { output: Box::new(number_ty()) }, true));
    assert_eq!(v.raps.len(), 0);
    assert_eq!(v.rap_hashes, 0);
}

#[test]
fn reference_borrows_from_its_target() {
    let source = BTreeMap::new();
    let mut v = visitor(&source);
    v.define_lhs(name("x"), false, &lit(), &number_ty());
    let x = value(&v, "x");
    v.define_lhs(name("r"), true, &address(5, x.clone(), false), &exclusive());
    match rap(&v, "r") {
        ResourceAccessPoint::MutRef(r) => assert!(r.is_mut),
        _ => panic!("not a mutable reference"),
    }
    let loan = v.borrow_map.get(&name("r")).unwrap();
    assert_eq!(loan.lender, x);
    assert_eq!((loan.assigned_at, loan.lifetime, loan.ref_mutability), (5, 5, true));
    assert!(loan.aliasing.is_empty());
}

#[test]
fn reference_to_reference_aliases_it() {
    let source = BTreeMap::new();
    let mut v = visitor(&source);
    v.define_lhs(name("x"), false, &lit(), &number_ty());
    let x = value(&v, "x");
    v.define_lhs(name("a"), false, &address(1, x, false), &shared());
    let a = value(&v, "a");
    v.define_lhs(name("b"), false, &address(2, a.clone(), true), &shared());
    let b = value(&v, "b");
    v.define_lhs(name("c"), false, &address(3, b.clone(), true), &shared());
    assert_eq!(aliases(&v.borrow_map.get(&name("b")).unwrap().aliasing), vec![name("a")]);
    assert_eq!(
        aliases(&v.borrow_map.get(&name("c")).unwrap().aliasing),
        vec![name("b"), name("a")]
    );
    assert_eq!(v.borrow_map.get(&name("c")).unwrap().lender, b);
    v.update_lifetime(&name("c"), 9);
    assert_eq!(v.borrow_map.get(&name("a")).unwrap().lifetime, 9);
    assert_eq!(v.cascade_order(), vec![name("c"), name("b"), name("a")]);
}

#[test]
fn reference_to_its_shadowed_self_is_noticed() {
    let source = BTreeMap::new();
    let mut v = visitor(&source);
    v.define_lhs(name("a"), false, &address(1, ResourceTy::Anonymous, false), &shared());
    let a = rap(&v, "a");
    assert!(v.can_update_rap(&a));
    v.define_lhs(name("a"), false, &address(2, ResourceTy::Value(a.clone()), true), &shared());
    assert_eq!(aliases(&v.borrow_map.get(&name("a")).unwrap().aliasing), vec![name("a")]);
    assert!(!v.can_update_rap(&a));
}

#[test]
fn copied_reference_takes_lender_and_its_aliases() {
    let source = BTreeMap::new();
    let mut v = visitor(&source);
    let aliasing: VecDeque<String> = vec![name("z")].into();
    v.add_ref(name("a"), false, false, 1, ResourceTy::Anonymous, aliasing, 20, true);
    let a = value(&v, "a");
    let mut copy = expr(4, shared(), ExprKind::Other);
    copy.lender = a.clone();
    copy.resource = ResourceTy::Caller;
    let (lender, list) = v.get_ref_data(&copy);
    assert_eq!(lender, a);
    assert_eq!(aliases(&list), vec![name("z")]);
    assert_eq!(aliases(&get_aliasing_data(&a, &v.borrow_map)), vec![name("z")]);
    assert!(get_aliasing_data(&ResourceTy::Caller, &v.borrow_map).is_empty());
}

#[test]
fn nameless_resource_adds_no_alias() {
    let source = BTreeMap::new();
    let v = visitor(&source);
    let (lender, list) = v.get_ref_data(&address(3, ResourceTy::Anonymous, true));
    assert_eq!(lender, ResourceTy::Anonymous);
    assert!(list.is_empty());
}

#[test]
fn pattern_binds_from_left_to_right() {
    let source = BTreeMap::new();
    let mut v = visitor(&source);
    let pat = Pat::TupleStruct(vec![
        binding("a", 3, number_ty()),
        Pat::Other,
        Pat::TupleStruct(vec![
            binding("b", 4, ty(TyKind::Other, false)),
            binding("c", 5, adt(AdtKind::Struct, &["x"])),
        ]),
        binding("d", 6, shared()),
        binding("e", 7, adt(AdtKind::Enum, &[])),
    ]);
    let parent_ty = number_ty();
    let mut res = Vec::new();
    v.get_dec_of_pat2(&pat, &ResourceTy::Caller, &parent_ty, 8, &mut res);
    let names: Vec<String> = res.iter().map(|b| b.0.name().clone()).collect();
    assert_eq!(names, vec![name("a"), name("b"), name("c"), name("d"), name("e")]);
    let evts: Vec<Evt> = res.iter().map(|b| b.1).collect();
    assert_eq!(evts, vec![Evt::Copy, Evt::Move, Evt::Move, Evt::Copy, Evt::Move]);
    assert_eq!(v.raps.len(), 6);
    for i in 0..v.raps.len() {
        assert!(!v.raps.value_at(i).is_global);
        assert_eq!(v.raps.value_at(i).scope, 8);
    }
    assert!(matches!(rap(&v, "c.x"), ResourceAccessPoint::Struct(_)));
    let loan = v.borrow_map.get(&name("d")).unwrap();
    assert_eq!((loan.lifetime, &loan.lender), (6, &ResourceTy::Caller));
    v.print_out_of_scope();
    assert!(v.preprocessed_events.is_empty());
}

/// The names that a pattern binds, in order.
fn bound_names(pat: &Pat) -> Vec<String> {
    let source = BTreeMap::new();
    let mut v = visitor(&source);
    let parent_ty = number_ty();
    let mut res = Vec::new();
    assert!(v.can_get_dec_of_pat2(pat));
    v.get_dec_of_pat2(pat, &ResourceTy::Caller, &parent_ty, 8, &mut res);
    for b in &res {
        assert!(v.raps.contains_key(b.0.name()));
    }
    assert_eq!(v.raps.len(), res.len());
    res.iter().map(|b| b.0.name().clone()).collect()
}

#[test]
fn every_pattern_binds_its_variables() {
    let two = || vec![binding("a", 3, number_ty()), Pat::Other, binding("b", 3, number_ty())];
    let both = vec![name("a"), name("b")];
    assert_eq!(bound_names(&Pat::Tuple(two())), both);
    assert_eq!(bound_names(&Pat::Struct(two())), both);
    assert_eq!(bound_names(&Pat::Slice(two())), both);
    assert_eq!(bound_names(&Pat::TupleStruct(two())), both);
    assert_eq!(bound_names(&Pat::Ref(Box::new(Pat::Tuple(two())))), both);
    assert_eq!(bound_names(&Pat::Or(vec![Pat::Tuple(two()), Pat::Tuple(two())])), both);
    assert!(bound_names(&Pat::Or(Vec::new())).is_empty());
    assert!(bound_names(&Pat::Other).is_empty());
}

#[test]
fn pattern_behind_variable_is_bound_too() {
    let whole = Pat::Binding(Binding {
        mutability: Mutability::Not,
        line: 3,
        name: name("x"),
        ty: number_ty(),
        sub: Some(Box::new(Pat::TupleStruct(vec![binding("y", 3, number_ty())]))),
    });
    assert_eq!(
        bound_names(&Pat::Tuple(vec![whole, binding("z", 3, number_ty())])),
        vec![name("x"), name("y"), name("z")]
    );
}

#[test]
fn room_for_declarations_is_tested() {
    let source = BTreeMap::new();
    let mut v = visitor(&source);
    let point = || adt(AdtKind::Struct, &["a", "b"]);
    let pat = Pat::Tuple(vec![binding("p", 3, point()), binding("q", 3, number_ty())]);
    v.rap_hashes = usize::MAX - 4;
    assert!(v.can_get_dec_of_pat2(&pat));
    assert!(v.can_define_lhs(&lit(), &point()));
    v.rap_hashes = usize::MAX - 3;
    assert!(!v.can_get_dec_of_pat2(&pat));
    assert!(v.can_define_lhs(&lit(), &point()));
    v.rap_hashes = usize::MAX - 2;
    assert!(!v.can_define_lhs(&lit(), &point()));
    v.rap_hashes = 0;
    assert!(!v.can_get_dec_of_pat2(&binding("u", 3, adt(AdtKind::Union, &[]))));
    let mut unknown = address(3, ResourceTy::Anonymous, true);
    assert!(v.can_define_lhs(&unknown, &shared()));
    unknown.ty.deref_is_ref = None;
    assert!(!v.can_define_lhs(&unknown, &shared()));
    assert!(v.can_define_lhs(&unknown, &number_ty()));
}

#[test]
fn matching_on_reference_borrows() {
    let source = BTreeMap::new();
    let mut v = visitor(&source);
    let (read, write) = (shared(), exclusive());
    let mut res = Vec::new();
    v.get_dec_of_pat2(&binding("a", 3, number_ty()), &ResourceTy::Caller, &read, 8, &mut res);
    v.get_dec_of_pat2(&binding("b", 4, number_ty()), &ResourceTy::Caller, &write, 8, &mut res);
    assert_eq!(res[0].1, Evt::SBorrow);
    assert_eq!(res[1].1, Evt::MBorrow);
    assert!(res[1].2.is_ref());
}

#[test]
fn bound_name_that_is_taken_keeps_its_access_point() {
    let source = BTreeMap::new();
    let mut v = visitor(&source);
    v.add_fn(name("a"));
    let parent_ty = number_ty();
    let mut res = Vec::new();
    v.get_dec_of_pat2(&binding("a", 3, number_ty()), &ResourceTy::Caller, &parent_ty, 8, &mut res);
    assert!(res[0].0.is_fn());
    assert_eq!(v.rap_hashes, 1);
}

#[test]
fn return_types_are_classified() {
    let source = BTreeMap::new();
    let v = visitor(&source);
    let function = |output: Ty| {
        expr(1, ty(TyKind::Fn { output: Box::new(output) }, true), ExprKind::Other)
    };
    let number = function(number_ty());
    assert!(v.return_type_of(&number).unwrap().is_copy);
    assert!(!v.is_return_type_ref(&number));
    assert!(v.is_return_type_copyable(&number));
    let reference = function(shared());
    assert!(v.is_return_type_ref(&reference));
    assert!(!v.is_return_type_copyable(&reference));
    let mut pair = number_ty();
    pair.parts = vec![GenericArg::Type { is_ref: false }, GenericArg::Type { is_ref: true }, GenericArg::Lifetime];
    let pair = function(pair);
    assert!(v.can_is_return_type_copyable(&pair));
    assert!(!v.is_return_type_copyable(&pair));
    let mut array = number_ty();
    array.parts = vec![GenericArg::Type { is_ref: false }, GenericArg::Const];
    assert!(!v.can_is_return_type_copyable(&function(array)));
    assert!(!v.can_is_return_type_copyable(&lit()));
    let mut plain = number_ty();
    plain.parts = vec![GenericArg::Type { is_ref: false }];
    assert!(v.is_return_type_copyable(&function(plain)));
    assert!(!v.is_return_type_copyable(&function(ty(TyKind::Other, false))));
}
