use boltstub::mapping::Mapping;

fn text(s: &str) -> String {
    s.to_string()
}

fn mapping(pairs: &[(&str, &str)]) -> Mapping {
    let mut m = Mapping::new();
    for (k, v) in pairs {
        m.insert(text(k), text(v));
    }
    m
}

#[test]
fn new_mapping_is_empty() {
    let m = Mapping::new();
    assert_eq!(m.len(), 0);
    assert_eq!(m.get(&text("a")), None);
}

#[test]
fn insert_then_get() {
    let m = mapping(&[("scheme", "basic"), ("principal", "neo4j")]);
    assert_eq!(m.len(), 2);
    assert_eq!(m.get(&text("scheme")), Some(&text("basic")));
    assert_eq!(m.get(&text("principal")), Some(&text("neo4j")));
    assert_eq!(m.get(&text("credentials")), None);
}

#[test]
fn insert_replaces_in_place() {
    let mut m = mapping(&[("a", "1"), ("b", "2"), ("c", "3")]);
    m.insert(text("b"), text("two"));
    assert_eq!(m.len(), 3);
    assert_eq!(m.get(&text("b")), Some(&text("two")));
    assert_eq!(m.entry(0), (&text("a"), &text("1")));
    assert_eq!(m.entry(1), (&text("b"), &text("two")));
    assert_eq!(m.entry(2), (&text("c"), &text("3")));
}

#[test]
fn same_ignores_order() {
    let a = mapping(&[("a", "1"), ("b", "2")]);
    let b = mapping(&[("b", "2"), ("a", "1")]);
    assert!(a.same(&b));
    assert!(b.same(&a));
    assert_eq!(a, b);
}

#[test]
fn same_tells_values_and_keys_apart() {
    let a = mapping(&[("a", "1"), ("b", "2")]);
    assert!(!a.same(&mapping(&[("a", "1"), ("b", "3")])));
    assert!(!a.same(&mapping(&[("a", "1"), ("c", "2")])));
    assert!(!a.same(&mapping(&[("a", "1")])));
    assert!(!a.same(&mapping(&[("a", "1"), ("b", "2"), ("c", "3")])));
    assert!(!a.same(&Mapping::new()));
    assert!(Mapping::new().same(&Mapping::new()));
    assert_ne!(a, mapping(&[("a", "1")]));
}

#[test]
fn included_in_is_one_sided() {
    let small = mapping(&[("a", "1")]);
    let large = mapping(&[("b", "2"), ("a", "1")]);
    assert!(small.included_in(&large));
    assert!(!large.included_in(&small));
    assert!(Mapping::new().included_in(&small));
    assert!(!small.included_in(&mapping(&[("a", "one")])));
}

#[test]
fn clone_keeps_entries() {
    let a = mapping(&[("x", "y"), ("k", "v")]);
    let b = a.clone();
    assert!(a.same(&b));
    assert_eq!(b.len(), 2);
    assert_eq!(b.entry(0), (&text("x"), &text("y")));
    assert_eq!(b.entry(1), (&text("k"), &text("v")));
}

#[test]
fn keys_are_told_apart_exactly() {
    let m = mapping(&[("a", "1"), ("A", "2"), ("", "3"), ("a ", "4")]);
    assert_eq!(m.len(), 4);
    assert_eq!(m.get(&text("A")), Some(&text("2")));
    assert_eq!(m.get(&text("")), Some(&text("3")));
    assert_eq!(m.get(&text("a ")), Some(&text("4")));
}
