use xml_to_json::Config;
use xml_to_json::JsonType;
use xml_to_json::JsonValue;
use xml_to_json::parse_text;

fn jstr(s: &str) -> JsonValue {
    JsonValue::Str(s.to_string())
}

fn jint(n: u64) -> JsonValue {
    JsonValue::Int(n)
}

fn jfloat(x: f64) -> JsonValue {
    JsonValue::Float(serde_json::Number::from_f64(x).unwrap())
}

#[test]
fn test_parse_text() {
    assert_eq!(jfloat(0.0), parse_text("0.0", false, &JsonType::Infer));
    assert_eq!(jint(0), parse_text("0", false, &JsonType::Infer));
    assert_eq!(jint(0), parse_text("0000", false, &JsonType::Infer));
    assert_eq!(jint(0), parse_text("0", true, &JsonType::Infer));
    assert_eq!(jstr("0000"), parse_text("0000", true, &JsonType::Infer));
    assert_eq!(jfloat(0.42), parse_text("0.4200", false, &JsonType::Infer));
    assert_eq!(jfloat(142.42), parse_text("142.4200", false, &JsonType::Infer));
    assert_eq!(jstr("0xAC"), parse_text("0xAC", true, &JsonType::Infer));
    assert_eq!(jstr("0x03"), parse_text("0x03", true, &JsonType::Infer));
    assert_eq!(jstr("142,4200"), parse_text("142,4200", true, &JsonType::Infer));
    assert_eq!(jstr("142,420,0"), parse_text("142,420,0", true, &JsonType::Infer));
    assert_eq!(jstr("142,420,0.0"), parse_text("142,420,0.0", true, &JsonType::Infer));
    assert_eq!(jstr("0Test"), parse_text("0Test", true, &JsonType::Infer));
    assert_eq!(jstr("0.Test"), parse_text("0.Test", true, &JsonType::Infer));
    assert_eq!(jstr("0.22Test"), parse_text("0.22Test", true, &JsonType::Infer));
    assert_eq!(jstr("0044951"), parse_text("0044951", true, &JsonType::Infer));
    assert_eq!(jint(1), parse_text("1", true, &JsonType::Infer));
    assert_eq!(JsonValue::Bool(false), parse_text("false", false, &JsonType::Infer));
    assert_eq!(JsonValue::Bool(true), parse_text("true", true, &JsonType::Infer));
    assert_eq!(jstr("True"), parse_text("True", true, &JsonType::Infer));

    let bool_type = JsonType::Bool(vec![
        "true".to_string(),
        "True".to_string(),
        "".to_string(),
        "1".to_string(),
    ]);
    assert_eq!(JsonValue::Bool(false), parse_text("false", false, &bool_type));
    assert_eq!(JsonValue::Bool(true), parse_text("true", false, &bool_type));
    assert_eq!(JsonValue::Bool(true), parse_text("True", false, &bool_type));
    assert_eq!(JsonValue::Bool(false), parse_text("TRUE", false, &bool_type));
    assert_eq!(JsonValue::Bool(true), parse_text("", false, &bool_type));
    assert_eq!(JsonValue::Bool(true), parse_text("1", false, &bool_type));
    assert_eq!(JsonValue::Bool(false), parse_text("0", false, &bool_type));
    // an all-whitespace text trims down to the empty string, so it matches
    // an empty token in the list: a documented quirk of the Bool directive
    assert_eq!(JsonValue::Bool(true), parse_text(" ", false, &bool_type));

    assert_eq!(jstr("abc"), parse_text("abc", false, &JsonType::AlwaysString));
    assert_eq!(jstr("true"), parse_text("true", false, &JsonType::AlwaysString));
    assert_eq!(jstr("123"), parse_text("123", false, &JsonType::AlwaysString));
    assert_eq!(jstr("0123"), parse_text("0123", false, &JsonType::AlwaysString));
    assert_eq!(jstr("0.4200"), parse_text("0.4200", false, &JsonType::AlwaysString));
}

#[test]
fn test_add_json_type_override() {
    // the leading slash is added when missing
    let config =
        Config::new_with_defaults().add_json_type_override("a/@attr1", JsonType::AlwaysString);
    assert!(config.get_json_type_override("/a/@attr1").is_some());

    // no extra slash is added when one is already there
    let config =
        Config::new_with_defaults().add_json_type_override("/a/@attr1", JsonType::AlwaysString);
    assert!(config.get_json_type_override("/a/@attr1").is_some());
}

#[test]
fn override_registration_replaces_an_earlier_directive() {
    let config = Config::new_with_defaults()
        .add_json_type_override("/a/@x", JsonType::AlwaysString)
        .add_json_type_override("a/@x", JsonType::Infer);
    assert!(matches!(config.get_json_type_override("/a/@x"), Some(JsonType::Infer)));
    assert_eq!(1, config.json_type_overrides.len());
}

#[test]
fn plain_integers_classify_as_numbers() {
    assert_eq!(jint(142), parse_text("142", false, &JsonType::Infer));
    assert_eq!(jint(142), parse_text("142", true, &JsonType::Infer));
    assert_eq!(jint(142), parse_text("142", true, &JsonType::StringIfLeadingZero));
    assert_eq!(jint(123), parse_text("+123", false, &JsonType::Infer));
    assert_eq!(
        jint(18446744073709551615),
        parse_text("18446744073709551615", false, &JsonType::Infer)
    );
    // one past the largest unsigned 64-bit value falls through to the
    // float path
    assert_eq!(
        jfloat(18446744073709551616.0),
        parse_text("18446744073709551616", false, &JsonType::Infer)
    );
}

#[test]
fn leading_zero_rule_is_forced_by_the_directive() {
    assert_eq!(jstr("0000"), parse_text("0000", false, &JsonType::StringIfLeadingZero));
    assert_eq!(jint(0), parse_text("0", false, &JsonType::StringIfLeadingZero));
    assert_eq!(jfloat(0.42), parse_text("0.4200", false, &JsonType::StringIfLeadingZero));
}

#[test]
fn surrounding_whitespace_is_trimmed_before_classification() {
    assert_eq!(jint(42), parse_text("  42 ", false, &JsonType::Infer));
    assert_eq!(jstr("some text"), parse_text("\t some text \n", false, &JsonType::Infer));
    assert_eq!(jstr(""), parse_text(" \u{00A0}\u{3000} ", false, &JsonType::Infer));
}

#[test]
fn float_inference_follows_the_float_grammar() {
    assert_eq!(jfloat(1000.0), parse_text("1e3", false, &JsonType::Infer));
    assert_eq!(jfloat(0.5), parse_text(".5", false, &JsonType::Infer));
    assert_eq!(jfloat(-2.5), parse_text("-2.5", false, &JsonType::Infer));
    // values outside the finite range fall through to the string fallback
    assert_eq!(jstr("1e999"), parse_text("1e999", false, &JsonType::Infer));
    assert_eq!(jstr("NaN"), parse_text("NaN", false, &JsonType::Infer));
}
