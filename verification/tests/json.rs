use picoserve::json::{
    escaped_string, map_as_for_newtype, variant_opening, Json, SerializeCompound, SerializeMapAs,
    SERIALIZE_MAP_AS_ARRAY_OF_PAIRS, SERIALIZE_MAP_AS_OBJECT,
};

#[test]
fn strings_are_escaped() {
    assert_eq!(escaped_string("plain"), "\"plain\"");
    assert_eq!(escaped_string("a\"b\\c/d"), "\"a\\\"b\\\\c\\/d\"");
    assert_eq!(escaped_string("\u{8}\t\n\u{c}\r"), "\"\\b\\t\\n\\f\\r\"");
    assert_eq!(escaped_string("\u{1}\u{1f}"), "\"\\u0001\\u001f\"");
    assert_eq!(escaped_string("é"), "\"é\"");
}

#[test]
fn escaped_strings_hold_no_newline() {
    let s = escaped_string("line one\nline two\r\n");
    assert!(!s.contains('\n'));
    assert!(s.chars().all(|c| c >= ' '));
}

#[test]
fn variant_opening_is_object_key() {
    assert_eq!(variant_opening("Tag"), "{\"Tag\":");
}

fn write_sequence(items: &[&str]) -> String {
    let mut compound = SerializeCompound::new();
    let mut out = String::new();
    for item in items {
        out.push_str(compound.element_prefix());
        out.push_str(item);
    }
    out.push_str(compound.end_sequence());
    out
}

#[test]
fn sequences_are_bracketed_and_comma_separated() {
    assert_eq!(write_sequence(&[]), "[]");
    assert_eq!(write_sequence(&["1"]), "[1]");
    assert_eq!(write_sequence(&["1", "true", "null"]), "[1,true,null]");
}

fn write_map(map_as: SerializeMapAs, entries: &[(&str, &str)]) -> String {
    let mut compound = SerializeCompound::new();
    let mut out = String::new();
    for (key, value) in entries {
        out.push_str(compound.key_prefix(map_as));
        out.push_str(key);
        out.push_str(compound.value_prefix(map_as));
        out.push_str(value);
        out.push_str(compound.value_suffix(map_as));
    }
    out.push_str(compound.end_map(map_as));
    out
}

#[test]
fn maps_as_objects_and_as_arrays_of_pairs() {
    let entries = [("\"a\"", "1"), ("\"b\"", "2")];
    assert_eq!(write_map(SerializeMapAs::Object, &entries), "{\"a\":1,\"b\":2}");
    assert_eq!(write_map(SerializeMapAs::ArrayOfPairs, &entries), "[[\"a\",1],[\"b\",2]]");
    assert_eq!(write_map(SerializeMapAs::Object, &[]), "{}");
    assert_eq!(write_map(SerializeMapAs::ArrayOfPairs, &[]), "[]");
}

#[test]
fn structs_and_variants() {
    let mut compound = SerializeCompound::new();
    let mut out = String::new();
    out.push_str(compound.field_prefix());
    out.push_str(&escaped_string("a"));
    out.push_str(":42");
    out.push_str(compound.field_prefix());
    out.push_str(&escaped_string("b"));
    out.push_str(":true");
    out.push_str(compound.end_struct());
    assert_eq!(out, "{\"a\":42,\"b\":true}");
    assert_eq!(SerializeCompound::new().end_struct(), "{}");
    assert_eq!(SerializeCompound::new().end_struct_variant(), "{}}");
    assert_eq!(SerializeCompound::new().end_tuple_variant(), "[]}");
    let mut started = SerializeCompound::new();
    let _ = started.element_prefix();
    assert_eq!(started.end_tuple_variant(), "]}");
}

#[test]
fn newtype_names_choose_map_representation() {
    assert_eq!(
        map_as_for_newtype(SERIALIZE_MAP_AS_ARRAY_OF_PAIRS, SerializeMapAs::Object),
        SerializeMapAs::ArrayOfPairs
    );
    assert_eq!(
        map_as_for_newtype(SERIALIZE_MAP_AS_OBJECT, SerializeMapAs::ArrayOfPairs),
        SerializeMapAs::Object
    );
    assert_eq!(
        map_as_for_newtype("Other", SerializeMapAs::ArrayOfPairs),
        SerializeMapAs::ArrayOfPairs
    );
    assert_eq!(SerializeMapAs::default_choice(), SerializeMapAs::Object);
}

#[test]
fn json_wrappers_keep_the_value() {
    let wrapped = Json(5u8).serialize_map_as_array_of_pairs();
    assert_eq!((wrapped.0).0, 5);
    let wrapped = Json("x").serialize_map_as_object();
    assert_eq!((wrapped.0).0, "x");
}

#[test]
fn json_responses_are_ok_with_json_content() {
    let response = Json(42u8).into_response(2);
    assert_eq!(response.status_code.0, 200);
    assert_eq!(
        response.headers,
        vec![
            ("Content-Type".to_string(), "application/json".to_string()),
            ("Content-Length".to_string(), "2".to_string()),
        ]
    );
    assert_eq!(response.body, 42);
    let long = Json("x").into_response(1234);
    assert_eq!(long.headers[1].1, "1234");
}
