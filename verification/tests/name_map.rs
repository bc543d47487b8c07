use rv_plugin::name_map::NameMap;

#[test]
fn insert_keeps_first_place() {
    let mut m: NameMap<usize> = NameMap::new();
    m.insert("b".to_string(), 1);
    m.insert("a".to_string(), 2);
    m.insert("b".to_string(), 3);
    assert_eq!(m.len(), 2);
    assert_eq!(m.name_at(0), "b");
    assert_eq!(*m.value_at(0), 3);
    assert_eq!(m.get(&"a".to_string()), Some(&2));
}
