use nbstripout_fast::json::Json;
use nbstripout_fast::prune::pop_recursive;

fn key(k: &str) -> String {
    k.to_string()
}

fn obj(pairs: Vec<(&str, Json)>) -> Json {
    Json::Obj(pairs.into_iter().map(|(k, v)| (k.to_string(), v)).collect())
}

fn num(n: &str) -> Json {
    Json::Num(n.to_string())
}

#[test]
fn prune_absent_path_is_noop() {
    let mut node = obj(vec![("x", num("1"))]);
    let before = obj(vec![("x", num("1"))]);
    assert!(!pop_recursive(&mut node, &key("y")));
    assert_eq!(node, before);
    assert!(!pop_recursive(&mut node, &key("a.b")));
    assert_eq!(node, before);
}

#[test]
fn prune_flat_key_removed() {
    let mut node = obj(vec![("a", num("1")), ("b", num("2"))]);
    assert!(pop_recursive(&mut node, &key("a")));
    assert_eq!(node, obj(vec![("b", num("2"))]));
}

#[test]
fn prune_literal_dotted_key_wins() {
    let mut node = obj(vec![("a.b", num("1")), ("a", obj(vec![("b", num("2"))]))]);
    assert!(pop_recursive(&mut node, &key("a.b")));
    assert_eq!(node, obj(vec![("a", obj(vec![("b", num("2"))]))]));
}

#[test]
fn prune_nested_descent() {
    let mut node = obj(vec![(
        "a",
        obj(vec![("b", obj(vec![("c", num("1"))])), ("d", num("2"))]),
    )]);
    assert!(pop_recursive(&mut node, &key("a.b.c")));
    assert_eq!(
        node,
        obj(vec![("a", obj(vec![("b", obj(vec![])), ("d", num("2"))]))])
    );
}

#[test]
fn prune_non_mapping_is_noop() {
    let mut node = Json::Arr(vec![num("1")]);
    assert!(!pop_recursive(&mut node, &key("a")));
    assert_eq!(node, Json::Arr(vec![num("1")]));
}

#[test]
fn prune_missing_head_is_noop() {
    let mut node = obj(vec![("a", num("1"))]);
    assert!(!pop_recursive(&mut node, &key("b.c")));
    assert_eq!(node, obj(vec![("a", num("1"))]));
}

#[test]
fn prune_descends_into_non_mapping_child_noop() {
    let mut node = obj(vec![("a", num("1"))]);
    assert!(!pop_recursive(&mut node, &key("a.b")));
    assert_eq!(node, obj(vec![("a", num("1"))]));
}
