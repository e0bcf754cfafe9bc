use website_stalker::editor::json_select::{parse_index, select, split_selector, JsonSelectError};

fn case(input: &str, selector: &str, expected: &str) {
    let actual = select(input, selector).unwrap();
    assert_eq!(actual, expected);
}

#[test]
fn simple_object() {
    case(r#"{"foo": {"bar": 42}}"#, ".foo", r#"{"bar":42}"#);
}

#[test]
fn selector_two_deep() {
    case(r#"{"foo": {"bar": 42}}"#, ".foo.bar", "42");
}

#[test]
fn simple_array() {
    case("[13, 37]", ".[1]", "37");
}

#[test]
fn array_and_object() {
    case(r#"{"foo": [13, 37, {"bar": 42}]}"#, ".foo[2].bar", "42");
}

#[test]
#[should_panic = "selector (index 42) selected out of bounds in an array of length 2"]
fn array_out_of_bounds() {
    let input = "[13, 37]";
    let selector = ".[42]";
    select(input, selector).map_err(|e| e.message()).unwrap();
}

#[test]
fn empty_selector_selects_everything() {
    case(r#"{ "b": [1.5, "x", null, true] }"#, ".", r#"{"b":[1.5,"x",null,true]}"#);
}

#[test]
fn select_errors() {
    let msg = |json: &str, sel: &str| select(json, sel).unwrap_err().message();
    assert_eq!(msg("null", ".a"), "can not select into a null value");
    assert_eq!(msg("true", ".a"), "can not select into a bool value");
    assert_eq!(msg("12", ".a"), "can not select into a numeric value");
    assert_eq!(msg(r#""s""#, ".a"), "can not select into a string value");
    assert_eq!(msg("[1]", ".a"), "selector (a) can not be used to index an array");
    assert_eq!(
        msg(r#"{"a": 1}"#, ".b"),
        "selector (b) tried to select a non existing key in object"
    );
    assert!(matches!(select("{", "."), Err(JsonSelectError::Parse(_))));
}

#[test]
fn selector_parts_and_indices() {
    let parts = split_selector(".foo[2].bar");
    let parts = parts.iter().map(|p| p.iter().collect::<String>()).collect::<Vec<_>>();
    assert_eq!(parts, vec!["foo", "2", "bar"]);
    assert_eq!(parse_index(&['1', '2']), Some(12));
    assert_eq!(parse_index(&['+', '3']), Some(3));
    assert_eq!(parse_index(&['+']), None);
    assert_eq!(parse_index(&['x']), None);
    assert_eq!(parse_index(&['9'; 30]), None);
}
