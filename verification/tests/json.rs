use getblock_filter::json::{Json, Member};

fn text(s: &str) -> Json {
    Json::Text(s.to_string())
}

fn object(members: Vec<(&str, Json)>) -> Json {
    Json::Object(
        members
            .into_iter()
            .map(|(name, value)| Member { name: name.to_string(), value })
            .collect(),
    )
}

#[test]
fn is_null_only_on_null() {
    assert!(Json::Null.is_null());
    assert!(!Json::Bool(false).is_null());
    assert!(!Json::Unsigned(0).is_null());
    assert!(!text("").is_null());
    assert!(!Json::Array(vec![]).is_null());
    assert!(!object(vec![]).is_null());
}

#[test]
fn as_u64_only_on_unsigned_integers() {
    assert_eq!(Json::Unsigned(0).as_u64(), Some(0));
    assert_eq!(Json::Unsigned(u64::MAX).as_u64(), Some(u64::MAX));
    assert_eq!(Json::Negative(-1).as_u64(), None);
    assert_eq!(Json::Real(1.0f64.to_bits()).as_u64(), None);
    assert_eq!(text("1").as_u64(), None);
    assert_eq!(Json::Null.as_u64(), None);
    assert_eq!(Json::Bool(true).as_u64(), None);
}

#[test]
fn as_str_only_on_strings() {
    assert_eq!(text("abc").as_str(), Some("abc"));
    assert_eq!(text("").as_str(), Some(""));
    assert_eq!(Json::Unsigned(1).as_str(), None);
    assert_eq!(Json::Null.as_str(), None);
}

#[test]
fn as_array_only_on_arrays() {
    let items = vec![Json::Unsigned(1), text("x")];
    assert_eq!(Json::Array(items.clone()).as_array(), Some(&items));
    assert_eq!(Json::Array(vec![]).as_array(), Some(&vec![]));
    assert_eq!(object(vec![]).as_array(), None);
    assert_eq!(Json::Null.as_array(), None);
}

#[test]
fn get_finds_a_member_by_name() {
    let doc = object(vec![("a", Json::Unsigned(1)), ("b", text("two")), ("c", Json::Null)]);
    assert_eq!(doc.get("a"), Some(&Json::Unsigned(1)));
    assert_eq!(doc.get("b"), Some(&text("two")));
    assert_eq!(doc.get("c"), Some(&Json::Null));
    assert_eq!(doc.get("d"), None);
    assert_eq!(doc.get(""), None);
    assert_eq!(doc.get("A"), None);
}

#[test]
fn get_takes_the_first_of_equal_names() {
    let doc = object(vec![("a", Json::Unsigned(1)), ("a", Json::Unsigned(2))]);
    assert_eq!(doc.get("a"), Some(&Json::Unsigned(1)));
}

#[test]
fn get_finds_nothing_outside_objects() {
    assert_eq!(Json::Null.get("a"), None);
    assert_eq!(Json::Array(vec![Json::Unsigned(1)]).get("0"), None);
    assert_eq!(text("a").get("a"), None);
    assert_eq!(Json::Unsigned(3).get("a"), None);
}

#[test]
fn get_tells_names_apart_beyond_ascii() {
    let doc = object(vec![("na\u{00ef}ve", Json::Unsigned(1)), ("naive", Json::Unsigned(2))]);
    assert_eq!(doc.get("naive"), Some(&Json::Unsigned(2)));
    assert_eq!(doc.get("na\u{00ef}ve"), Some(&Json::Unsigned(1)));
}

#[test]
fn clone_copies_the_whole_tree() {
    let doc = object(vec![
        ("null", Json::Null),
        ("flag", Json::Bool(true)),
        ("count", Json::Unsigned(18446744073709551615)),
        ("delta", Json::Negative(-42)),
        ("ratio", Json::Real(0.25f64.to_bits())),
        ("name", text("block")),
        (
            "list",
            Json::Array(vec![
                Json::Unsigned(1),
                Json::Array(vec![text("deep"), Json::Array(vec![])]),
                object(vec![("k", Json::Array(vec![Json::Null]))]),
            ]),
        ),
        ("empty", object(vec![])),
    ]);
    let copy = doc.clone();
    assert_eq!(copy, doc);
}

#[test]
fn clone_is_independent_of_its_source() {
    let source = Json::Array(vec![text("a")]);
    let mut copy = source.clone();
    if let Json::Array(items) = &mut copy {
        items.push(Json::Null);
    }
    assert_eq!(source, Json::Array(vec![text("a")]));
    assert_eq!(copy, Json::Array(vec![text("a"), Json::Null]));
}
