use xml_to_json::Config;
use xml_to_json::JsonType;
use xml_to_json::JsonValue;
use xml_to_json::NullValue;
use xml_to_json::XmlElement;
use xml_to_json::XmlError;
use xml_to_json::xml_string_to_json;
use xml_to_json::xml_to_map;

fn jstr(s: &str) -> JsonValue {
    JsonValue::Str(s.to_string())
}

fn jint(n: u64) -> JsonValue {
    JsonValue::Int(n)
}

fn jfloat(x: f64) -> JsonValue {
    JsonValue::Float(serde_json::Number::from_f64(x).unwrap())
}

fn jobj(entries: Vec<(&str, JsonValue)>) -> JsonValue {
    JsonValue::Object(entries.into_iter().map(|(k, v)| (k.to_string(), v)).collect())
}

fn jarr(vals: Vec<JsonValue>) -> JsonValue {
    JsonValue::Array(vals)
}

#[test]
fn test_numbers() {
    let expected = jobj(vec![(
        "a",
        jobj(vec![("b", jarr(vec![jint(12345), jfloat(12345.0), jfloat(12345.6)]))]),
    )]);
    let result = xml_string_to_json(
        String::from("<a><b>12345</b><b>12345.0</b><b>12345.6</b></a>"),
        &Config::new_with_defaults(),
    );
    assert_eq!(expected, result.unwrap());
}

#[test]
fn test_empty_elements_valid() {
    let mut conf = Config::new_with_custom_values(true, "", "text", NullValue::EmptyObject);
    let xml = r#"<a b="1"><x/></a>"#;

    let expected = jobj(vec![("a", jobj(vec![("b", jint(1)), ("x", jobj(vec![]))]))]);
    let result = xml_string_to_json(xml.to_owned(), &conf);
    assert_eq!(expected, result.unwrap());

    conf.empty_element_handling = NullValue::Null;
    let expected = jobj(vec![("a", jobj(vec![("b", jint(1)), ("x", JsonValue::Null)]))]);
    let result = xml_string_to_json(xml.to_owned(), &conf);
    assert_eq!(expected, result.unwrap());

    conf.empty_element_handling = NullValue::Ignore;
    let expected = jobj(vec![("a", jobj(vec![("b", jint(1))]))]);
    let result = xml_string_to_json(xml.to_owned(), &conf);
    assert_eq!(expected, result.unwrap());
}

#[test]
fn test_empty_elements_invalid() {
    let conf = Config::new_with_custom_values(true, "", "text", NullValue::Ignore);
    let expected = jobj(vec![("a", JsonValue::Null)]);

    let xml = r#"<a><x/></a>"#;
    let result = xml_string_to_json(xml.to_owned(), &conf);
    assert_eq!(expected, result.unwrap());

    let xml = r#"<a />"#;
    let result = xml_string_to_json(xml.to_owned(), &conf);
    assert_eq!(expected, result.unwrap());
}

#[test]
fn test_mixed_nodes() {
    let xml = r#"<?xml version="1.0" encoding="utf-8"?><a attr1="val1">some text</a>"#;

    let expected_1 = jobj(vec![(
        "a",
        jobj(vec![("@attr1", jstr("val1")), ("#text", jstr("some text"))]),
    )]);
    let result_1 = xml_string_to_json(String::from(xml), &Config::new_with_defaults());
    assert_eq!(expected_1, result_1.unwrap());

    let expected_2 = jobj(vec![(
        "a",
        jobj(vec![("attr1", jstr("val1")), ("text", jstr("some text"))]),
    )]);
    let conf = Config::new_with_custom_values(true, "", "text", NullValue::Null);
    let result_2 = xml_string_to_json(String::from(xml), &conf);
    assert_eq!(expected_2, result_2.unwrap());

    let xml = r#"<?xml version="1.0" encoding="utf-8"?><a attr1="val1"><attr1><nested>some text</nested></attr1></a>"#;
    let expected_3 = jobj(vec![(
        "a",
        jobj(vec![(
            "attr1",
            jarr(vec![jstr("val1"), jobj(vec![("nested", jstr("some text"))])]),
        )]),
    )]);
    let result_3 = xml_string_to_json(String::from(xml), &conf);
    assert_eq!(expected_3, result_3.unwrap());
}

#[test]
fn test_json_type_overrides() {
    let xml = r#"<a attr1="007"><b attr1="7" attr2="True">true</b></a>"#;

    let expected = jobj(vec![(
        "a",
        jobj(vec![
            ("@attr1", jint(7)),
            (
                "b",
                jobj(vec![
                    ("@attr1", jint(7)),
                    ("@attr2", jstr("True")),
                    ("#text", JsonValue::Bool(true)),
                ]),
            ),
        ]),
    )]);
    let config = Config::new_with_defaults();
    let result = xml_string_to_json(String::from(xml), &config);
    assert_eq!(expected, result.unwrap());

    let expected = jobj(vec![(
        "a",
        jobj(vec![
            ("@attr1", jstr("007")),
            (
                "b",
                jobj(vec![
                    ("@attr1", jint(7)),
                    ("@attr2", jstr("True")),
                    ("#text", JsonValue::Bool(true)),
                ]),
            ),
        ]),
    )]);
    let conf = Config::new_with_defaults().add_json_type_override("/a/@attr1", JsonType::AlwaysString);
    let result = xml_string_to_json(String::from(xml), &conf);
    assert_eq!(expected, result.unwrap());

    let expected = jobj(vec![(
        "a",
        jobj(vec![
            ("@attr1", jstr("007")),
            (
                "b",
                jobj(vec![
                    ("@attr1", jstr("7")),
                    ("@attr2", JsonValue::Bool(true)),
                    ("#text", JsonValue::Bool(true)),
                ]),
            ),
        ]),
    )]);
    let conf = Config::new_with_defaults()
        .add_json_type_override("/a/@attr1", JsonType::AlwaysString)
        .add_json_type_override("/a/b/@attr1", JsonType::AlwaysString)
        .add_json_type_override("/a/b/@attr2", JsonType::Bool(vec!["True".to_string()]));
    let result = xml_string_to_json(String::from(xml), &conf);
    assert_eq!(expected, result.unwrap());

    let expected = jobj(vec![(
        "a",
        jobj(vec![
            ("@attr1", jstr("007")),
            (
                "b",
                jobj(vec![
                    ("@attr1", jstr("7")),
                    ("@attr2", jstr("True")),
                    ("#text", jstr("true")),
                ]),
            ),
        ]),
    )]);
    let conf = Config::new_with_defaults()
        .add_json_type_override("/a/@attr1", JsonType::AlwaysString)
        .add_json_type_override("/a/b/@attr1", JsonType::AlwaysString)
        .add_json_type_override("/a/b", JsonType::AlwaysString);
    let result = xml_string_to_json(String::from(xml), &conf);
    assert_eq!(expected, result.unwrap());
}

#[test]
fn test_malformed_xml() {
    let xml = r#"<?xml version="1.0" encoding="utf-8"?><a attr1="val1">some text<b></a>"#;

    let result_1 = xml_string_to_json(String::from(xml), &Config::new_with_defaults());
    assert!(result_1.is_err());
}

#[test]
fn malformed_xml_reports_the_malformed_document_error() {
    let result = xml_string_to_json(String::from("<a>some text<b></a>"), &Config::new_with_defaults());
    assert_eq!(Err(XmlError::MalformedXml), result);
}

#[test]
fn default_config_example_tree() {
    let xml = r#"<a attr1="1"><b><c attr2="001">some text</c></b></a>"#;
    let expected = jobj(vec![(
        "a",
        jobj(vec![
            ("@attr1", jint(1)),
            (
                "b",
                jobj(vec![(
                    "c",
                    jobj(vec![("@attr2", jint(1)), ("#text", jstr("some text"))]),
                )]),
            ),
        ]),
    )]);
    let result = xml_string_to_json(xml.to_owned(), &Config::new_with_defaults());
    assert_eq!(expected, result.unwrap());
}

#[test]
fn custom_config_example_tree() {
    let xml = r#"<a attr1="1"><b><c attr2="001">some text</c></b></a>"#;
    let conf = Config::new_with_custom_values(true, "", "txt", NullValue::Null);
    let expected = jobj(vec![(
        "a",
        jobj(vec![
            ("attr1", jint(1)),
            (
                "b",
                jobj(vec![(
                    "c",
                    jobj(vec![("attr2", jstr("001")), ("txt", jstr("some text"))]),
                )]),
            ),
        ]),
    )]);
    let result = xml_string_to_json(xml.to_owned(), &conf);
    assert_eq!(expected, result.unwrap());
}

#[test]
fn single_child_is_not_an_array_two_are() {
    let one = xml_string_to_json(
        String::from("<a><b>1</b></a>"),
        &Config::new_with_defaults(),
    )
    .unwrap();
    assert_eq!(jobj(vec![("a", jobj(vec![("b", jint(1))]))]), one);

    let two = xml_string_to_json(
        String::from("<a><b>1</b><b>2</b></a>"),
        &Config::new_with_defaults(),
    )
    .unwrap();
    assert_eq!(
        jobj(vec![("a", jobj(vec![("b", jarr(vec![jint(1), jint(2)]))]))]),
        two
    );

    let three = xml_string_to_json(
        String::from("<a><b>1</b><b>2</b><b>3</b></a>"),
        &Config::new_with_defaults(),
    )
    .unwrap();
    assert_eq!(
        jobj(vec![(
            "a",
            jobj(vec![("b", jarr(vec![jint(1), jint(2), jint(3)]))]),
        )]),
        three
    );
}

#[test]
fn converting_twice_gives_identical_trees() {
    let el = XmlElement {
        name: "a".to_string(),
        attrs: vec![("b".to_string(), "007".to_string())],
        text: String::new(),
        children: vec![XmlElement {
            name: "x".to_string(),
            attrs: vec![],
            text: "  12345.6  ".to_string(),
            children: vec![],
        }],
    };
    let conf = Config::new_with_custom_values(true, "", "text", NullValue::EmptyObject);
    let first = xml_to_map(&el, &conf);
    let second = xml_to_map(&el, &conf);
    assert_eq!(first, second);
    assert_eq!(
        jobj(vec![("a", jobj(vec![("b", jstr("007")), ("x", jfloat(12345.6))]))]),
        first
    );

    let xml = String::from("<a b=\"007\"><x>  12345.6  </x></a>");
    let r1 = xml_string_to_json(xml.clone(), &conf).unwrap();
    let r2 = xml_string_to_json(xml, &conf).unwrap();
    assert_eq!(r1, r2);
    assert_eq!(first, r1);
}

#[test]
fn interleaved_repeated_children_keep_document_order() {
    let result = xml_string_to_json(
        String::from("<a><b>1</b><c>x</c><b>2</b></a>"),
        &Config::new_with_defaults(),
    )
    .unwrap();
    assert_eq!(
        jobj(vec![(
            "a",
            jobj(vec![("b", jarr(vec![jint(1), jint(2)])), ("c", jstr("x"))]),
        )]),
        result
    );
}
