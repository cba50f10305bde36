use dropmutt_site::form_value::{build, clone_form, merge, single_pair, FormValue};
use dropmutt_site::grammar::{parse_field_name, NamePathSegment};

fn as_scalar(v: &FormValue) -> &str {
    match v {
        FormValue::Scalar(s) => s.as_str(),
        _ => panic!("expected a scalar"),
    }
}

fn as_mapping(v: &FormValue) -> &Vec<(String, FormValue)> {
    match v {
        FormValue::Mapping(entries) => entries,
        _ => panic!("expected a mapping"),
    }
}

fn as_array(v: &FormValue) -> &Vec<FormValue> {
    match v {
        FormValue::Array(items) => items,
        _ => panic!("expected an array"),
    }
}

fn lookup<'a>(v: &'a FormValue, key: &str) -> &'a FormValue {
    let entries = as_mapping(v);
    for (k, val) in entries.iter() {
        if k == key {
            return val;
        }
    }
    panic!("key not found");
}

fn pair(name: &str, value: &str) -> (Vec<NamePathSegment>, String) {
    (parse_field_name(name).unwrap(), value.to_string())
}

#[test]
fn array_path_collects_scalars_in_order() {
    let pairs = vec![pair("list[]", "a"), pair("list[]", "b"), pair("list[]", "c")];
    let form = build(&pairs);
    let entries = as_mapping(&form);
    assert_eq!(entries.len(), 1);
    assert_eq!(entries[0].0, "list");
    let items = as_array(&entries[0].1);
    assert_eq!(items.len(), 3);
    assert_eq!(as_scalar(&items[0]), "a");
    assert_eq!(as_scalar(&items[1]), "b");
    assert_eq!(as_scalar(&items[2]), "c");
}

#[test]
fn empty_pair_list_builds_empty_form() {
    let pairs: Vec<(Vec<NamePathSegment>, String)> = Vec::new();
    let form = build(&pairs);
    assert!(matches!(form, FormValue::Empty));
}

#[test]
fn nested_keys_build_nested_mappings() {
    let pairs = vec![pair("a[b][c]", "deep")];
    let form = build(&pairs);
    let inner = lookup(&lookup(&form, "a"), "b");
    assert_eq!(as_scalar(lookup(inner, "c")), "deep");
}

#[test]
fn disjoint_top_level_merge_is_order_independent_by_lookup() {
    let a = single_pair(&parse_field_name("x").unwrap(), "1".to_string());
    let b = single_pair(&parse_field_name("y").unwrap(), "2".to_string());
    let ab = merge(&a, &b);
    let ba = merge(&b, &a);
    // Same value at every key either way.
    assert_eq!(as_scalar(lookup(&ab, "x")), "1");
    assert_eq!(as_scalar(lookup(&ab, "y")), "2");
    assert_eq!(as_scalar(lookup(&ba, "x")), "1");
    assert_eq!(as_scalar(lookup(&ba, "y")), "2");
    // First-seen key order is preserved per operand order.
    assert_eq!(as_mapping(&ab)[0].0, "x");
    assert_eq!(as_mapping(&ab)[1].0, "y");
    assert_eq!(as_mapping(&ba)[0].0, "y");
    assert_eq!(as_mapping(&ba)[1].0, "x");
}

#[test]
fn shared_keys_merge_recursively() {
    let a = single_pair(&parse_field_name("g[one]").unwrap(), "1".to_string());
    let b = single_pair(&parse_field_name("g[two]").unwrap(), "2".to_string());
    let merged = merge(&a, &b);
    let g = lookup(&merged, "g");
    assert_eq!(as_scalar(lookup(g, "one")), "1");
    assert_eq!(as_scalar(lookup(g, "two")), "2");
    assert_eq!(as_mapping(&merged).len(), 1);
}

#[test]
fn empty_is_identity_for_merge() {
    let a = single_pair(&parse_field_name("x").unwrap(), "1".to_string());
    let left = merge(&FormValue::Empty, &a);
    let right = merge(&a, &FormValue::Empty);
    assert_eq!(as_scalar(lookup(&left, "x")), "1");
    assert_eq!(as_scalar(lookup(&right, "x")), "1");
}

#[test]
fn mismatched_merge_keeps_first_operand() {
    let a = FormValue::Scalar("first".to_string());
    let b = single_pair(&parse_field_name("x").unwrap(), "1".to_string());
    let merged = merge(&a, &b);
    assert_eq!(as_scalar(&merged), "first");
}

#[test]
fn arrays_concatenate_on_merge() {
    let pairs_a = vec![pair("l[]", "a")];
    let pairs_b = vec![pair("l[]", "b")];
    let a = build(&pairs_a);
    let b = build(&pairs_b);
    let merged = merge(&a, &b);
    let items = as_array(lookup(&merged, "l"));
    assert_eq!(items.len(), 2);
    assert_eq!(as_scalar(&items[0]), "a");
    assert_eq!(as_scalar(&items[1]), "b");
}

#[test]
fn clone_form_copies_structurally() {
    let pairs = vec![pair("a[b][]", "v"), pair("c", "w")];
    let form = build(&pairs);
    let copy = clone_form(&form);
    assert_eq!(as_scalar(lookup(&copy, "c")), "w");
    let items = as_array(lookup(&lookup(&copy, "a"), "b"));
    assert_eq!(as_scalar(&items[0]), "v");
}
