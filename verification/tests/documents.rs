use vt_optimizer::json::{Json, JsonNumber, Member};

fn member(key: &str, value: Json) -> Member {
    Member { key: key.to_string(), value }
}

#[test]
fn get_finds_a_member_by_key() {
    let object = Json::Object(vec![
        member("a", Json::Bool(true)),
        member("b", Json::Number(JsonNumber::whole(2))),
    ]);
    assert!(matches!(object.get("a"), Some(Json::Bool(true))));
    assert_eq!(object.get("b").and_then(|v| v.as_number()), Some(JsonNumber::whole(2)));
    assert!(object.get("c").is_none());
    assert!(object.get("").is_none());
    assert!(object.get("A").is_none());
}

#[test]
fn get_takes_the_first_of_equal_keys() {
    let object = Json::Object(vec![
        member("k", Json::Number(JsonNumber::whole(1))),
        member("k", Json::Number(JsonNumber::whole(2))),
    ]);
    assert_eq!(object.get("k").and_then(|v| v.as_number()), Some(JsonNumber::whole(1)));
}

#[test]
fn get_on_what_is_no_object_finds_nothing() {
    assert!(Json::Null.get("a").is_none());
    assert!(Json::Array(vec![Json::Null]).get("0").is_none());
    assert!(Json::Text("a".to_string()).get("a").is_none());
}

#[test]
fn accessors_tell_the_kinds_apart() {
    let array = Json::Array(vec![Json::Null, Json::Bool(false)]);
    assert_eq!(array.as_array().map(|items| items.len()), Some(2));
    assert!(array.as_text().is_none());
    assert!(array.as_number().is_none());
    let text = Json::Text("none".to_string());
    assert_eq!(text.as_text().map(|s| s.as_str()), Some("none"));
    assert!(text.as_array().is_none());
    let number = Json::Number(JsonNumber { floor: -3, fractional: true });
    assert_eq!(number.as_number(), Some(JsonNumber { floor: -3, fractional: true }));
    assert!(Json::Bool(true).as_number().is_none());
    assert!(Json::Null.as_array().is_none());
}

#[test]
fn number_comparisons_with_whole_numbers() {
    let five = JsonNumber::whole(5);
    assert!(five.at_most(5));
    assert!(five.at_most(6));
    assert!(!five.at_most(4));
    assert!(five.at_least(5));
    assert!(!five.at_least(6));
    // 5.5
    let above_five = JsonNumber { floor: 5, fractional: true };
    assert!(!above_five.at_most(5));
    assert!(above_five.at_most(6));
    assert!(above_five.at_least(5));
    assert!(!above_five.at_least(6));
    // -0.5
    let below_zero = JsonNumber { floor: -1, fractional: true };
    assert!(below_zero.at_most(0));
    assert!(!below_zero.at_least(0));
    assert!(!below_zero.is_zero());
    assert!(JsonNumber::whole(0).is_zero());
    assert!(!JsonNumber { floor: 0, fractional: true }.is_zero());
    assert!(!JsonNumber::whole(1).is_zero());
}
