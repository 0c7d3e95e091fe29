use depot::commands::json::{find_member, json_merge, merge_values, Json};

fn num(n: i64) -> Json {
    Json::Number(n.to_string())
}

fn obj(members: Vec<(&str, Json)>) -> Json {
    Json::Object(members.into_iter().map(|(k, v)| (k.to_string(), v)).collect())
}

#[test]
fn test_json_merge() {
    let mut a = obj(vec![
        ("a", num(0)),
        ("b", obj(vec![("c", Json::Array(vec![num(1)])), ("d", num(2))])),
    ]);
    json_merge(
        &mut a,
        obj(vec![
            ("e", num(3)),
            ("b", obj(vec![("c", Json::Array(vec![num(4)])), ("f", num(5))])),
        ]),
    );
    let expected = obj(vec![
        ("a", num(0)),
        ("b", obj(vec![("c", Json::Array(vec![num(1), num(4)])), ("d", num(2)), ("f", num(5))])),
        ("e", num(3)),
    ]);
    assert!(a.same_as(&expected), "{a:?}");
}

#[test]
fn json_merge_replaces_values_of_other_kinds() {
    let mut a = num(1);
    json_merge(&mut a, Json::Text("x".to_string()));
    assert!(a.same_as(&Json::Text("x".to_string())));

    let mut a = obj(vec![("k", num(1))]);
    json_merge(&mut a, Json::Array(vec![num(2)]));
    assert!(a.same_as(&Json::Array(vec![num(2)])));

    let mut a = Json::Array(vec![num(2)]);
    json_merge(&mut a, Json::Null);
    assert!(a.same_as(&Json::Null));

    let mut a = obj(vec![("k", obj(vec![("x", num(1))]))]);
    json_merge(&mut a, obj(vec![("k", Json::Bool(true))]));
    assert!(a.same_as(&obj(vec![("k", Json::Bool(true))])));
}

#[test]
fn json_merge_joins_arrays_in_order() {
    let mut a = Json::Array(vec![num(1), num(2)]);
    json_merge(&mut a, Json::Array(vec![num(3), num(1)]));
    assert!(a.same_as(&Json::Array(vec![num(1), num(2), num(3), num(1)])));

    let mut a = Json::Array(vec![]);
    json_merge(&mut a, Json::Array(vec![]));
    assert!(a.same_as(&Json::Array(vec![])));
}

#[test]
fn json_merge_adds_new_members_at_the_end() {
    let mut a = obj(vec![("z", num(1))]);
    json_merge(&mut a, obj(vec![("y", num(2)), ("x", obj(vec![("w", num(3))]))]));
    let expected = obj(vec![("z", num(1)), ("y", num(2)), ("x", obj(vec![("w", num(3))]))]);
    assert!(a.same_as(&expected), "{a:?}");
    // The order of the members counts.
    let other = obj(vec![("y", num(2)), ("z", num(1)), ("x", obj(vec![("w", num(3))]))]);
    assert!(!a.same_as(&other));
}

#[test]
fn json_merge_takes_a_repeated_key_in_turn() {
    let mut a = obj(vec![]);
    json_merge(
        &mut a,
        obj(vec![("k", Json::Array(vec![num(1)])), ("k", Json::Array(vec![num(2)]))]),
    );
    assert!(a.same_as(&obj(vec![("k", Json::Array(vec![num(1), num(2)]))])), "{a:?}");
}

#[test]
fn json_merge_with_an_empty_object_changes_nothing() {
    let start = obj(vec![("a", num(0)), ("b", Json::Null)]);
    let r = merge_values(obj(vec![("a", num(0)), ("b", Json::Null)]), obj(vec![]));
    assert!(r.same_as(&start));
}

#[test]
fn json_find_member_gives_the_first_place() {
    let members = vec![
        ("a".to_string(), num(0)),
        ("b".to_string(), num(1)),
        ("a".to_string(), num(2)),
    ];
    assert_eq!(find_member(&members, &"a".to_string()), Some(0));
    assert_eq!(find_member(&members, &"b".to_string()), Some(1));
    assert_eq!(find_member(&members, &"c".to_string()), None);
    assert_eq!(find_member(&Vec::new(), &"a".to_string()), None);
}

#[test]
fn json_same_as_tells_values_apart() {
    assert!(Json::Null.same_as(&Json::Null));
    assert!(!Json::Null.same_as(&Json::Bool(false)));
    assert!(Json::Bool(true).same_as(&Json::Bool(true)));
    assert!(!Json::Bool(true).same_as(&Json::Bool(false)));
    assert!(!num(1).same_as(&Json::Text("1".to_string())));
    assert!(!num(1).same_as(&num(2)));
    assert!(!Json::Array(vec![num(1)]).same_as(&Json::Array(vec![num(1), num(1)])));
    assert!(!Json::Array(vec![num(1)]).same_as(&Json::Array(vec![num(2)])));
    assert!(!obj(vec![("a", num(1))]).same_as(&obj(vec![("b", num(1))])));
    assert!(!obj(vec![("a", num(1))]).same_as(&obj(vec![("a", num(2))])));
    assert!(obj(vec![("a", Json::Array(vec![]))]).same_as(&obj(vec![("a", Json::Array(vec![]))])));
}
