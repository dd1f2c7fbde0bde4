use kickoff::json::{first_of, flag_in, member_of, text_in, Json};

fn object(members: Vec<(&str, Json)>) -> Json {
    Json::Object(members.into_iter().map(|(k, v)| (k.to_string(), v)).collect())
}

#[test]
fn members_are_found_by_key() {
    let doc = object(vec![
        ("already_open", Json::Bool(true)),
        ("name", Json::Str("w1".into())),
        ("n", Json::Num("3".into())),
    ]);
    assert_eq!(flag_in(member_of(Some(&doc), "already_open")), Some(true));
    assert_eq!(text_in(member_of(Some(&doc), "name")), Some("w1".to_string()));
    assert_eq!(text_in(member_of(Some(&doc), "n")), None);
    assert!(member_of(Some(&doc), "missing").is_none());
    assert!(member_of(Some(&Json::Null), "name").is_none());
    assert!(member_of(None, "name").is_none());
}

#[test]
fn first_element_of_an_array() {
    let list = Json::Array(vec![Json::Str("a".into()), Json::Str("b".into())]);
    assert_eq!(text_in(first_of(Some(&list))), Some("a".to_string()));
    assert!(first_of(Some(&Json::Array(Vec::new()))).is_none());
    assert!(first_of(Some(&Json::Bool(false))).is_none());
    assert_eq!(flag_in(Some(&Json::Str("true".into()))), None);
}
