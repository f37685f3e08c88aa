use bodyflat::body::parse_body;
use bodyflat::fields::RequestField;

fn test_parse_ok(mcontent_type: Option<&str>, body: &[u8]) -> RequestField {
    let mut args = RequestField::new();
    parse_body(&mut args, mcontent_type, body).unwrap();
    args
}

fn test_parse_bad(mcontent_type: Option<&str>, body: &[u8]) {
    let mut args = RequestField::new();
    assert!(parse_body(&mut args, mcontent_type, body).is_err());
}

fn test_parse(mcontent_type: Option<&str>, body: &[u8], expected: &[(&str, &str)]) {
    let args = test_parse_ok(mcontent_type, body);
    for (k, v) in expected {
        match args.get_str(k) {
            None => panic!("Argument not set {}", k),
            Some(actual) => assert_eq!(actual, *v),
        }
    }
    if args.len() != expected.len() {
        for (k, v) in args.entries().iter() {
            if !expected.iter().any(|(ek, _)| ek == k) {
                println!("Spurious argument {}: {}", k, v);
            }
        }
        panic!("Spurious arguments");
    }
}

#[test]
fn json_empty_body() {
    test_parse(Some("application/json"), br#"{}"#, &[]);
}

#[test]
fn json_scalar() {
    test_parse(
        Some("application/json"),
        br#""scalar""#,
        &[("JSON_ROOT", "scalar")],
    );
}

#[test]
fn json_simple_object() {
    test_parse(
        Some("application/json"),
        br#"{"a": "b", "c": "d"}"#,
        &[("a", "b"), ("c", "d")],
    );
}

#[test]
fn json_bad() {
    test_parse_bad(Some("application/json"), br#"{"a": "b""#);
}

#[test]
fn json_collision() {
    test_parse(
        Some("application/json"),
        br#"{"a": {"b": "1"}, "a_b": "2"}"#,
        &[("a_b", "1 2")],
    );
}

#[test]
fn json_simple_array() {
    test_parse(
        Some("application/json"),
        br#"["a", "b"]"#,
        &[("0", "a"), ("1", "b")],
    );
}

#[test]
fn json_nested_objects() {
    test_parse(
        Some("application/json"),
        br#"{"a": [true,null,{"z": 0.2}], "c": {"d": 12}}"#,
        &[
            ("a_0", "true"),
            ("a_1", "null"),
            ("a_2_z", "0.2"),
            ("c_d", "12"),
        ],
    );
}

#[test]
fn arguments_collision() {
    let mut args = RequestField::new();
    args.add("a".to_string(), "query_arg".to_string());
    parse_body(
        &mut args,
        Some("application/json"),
        br#"{"a": "body_arg"}"#,
    )
    .unwrap();
    assert_eq!(args.get_str("a"), Some("query_arg body_arg"));
}

#[test]
fn xml_simple() {
    test_parse(Some("text/xml"), br#"<a>content</a>"#, &[("a1", "content")]);
}

#[test]
fn xml_bad1() {
    test_parse_bad(Some("text/xml"), br#"<a>"#);
}

#[test]
fn xml_bad2() {
    test_parse_bad(Some("text/xml"), br#"<a>x</b>"#);
}

#[test]
fn xml_bad3() {
    test_parse_bad(Some("text/xml"), br#"<a 1x="12">x</a>"#);
}

#[test]
fn xml_nested() {
    test_parse(
        Some("text/xml"),
        br#"<a>a<b foo="bar">xxx</b>z</a>"#,
        &[("a1", "a"), ("a3", "z"), ("a2bfoo", "bar"), ("a2b1", "xxx")],
    );
}

#[test]
fn xml_cdata() {
    test_parse(
        Some("text/xml"),
        br#"<a ><![CDATA[ <script>alert("test");</script> ]]></a >"#,
        &[("a1", r#" <script>alert("test");</script> "#)],
    );
}

#[test]
fn xml_nested_empty() {
    test_parse(
        Some("text/xml"),
        br#"<a><b><c></c></b></a>"#,
        &[("a1b1c1", "")],
    );
}

#[test]
fn xml_nested_empty_b() {
    test_parse(
        Some("application/xml"),
        br#"<a> <b> <c> </c></b></a>"#,
        &[("a1b1c1", "")],
    );
}

#[test]
fn xml_entity_a() {
    test_parse(
        Some("application/xml"),
        br#"<!DOCTYPE foo [ <!ENTITY myentity "my entity value" > ]><a>xx</a>"#,
        &[
            ("a1", "xx"),
            ("_XMLENTITY_VALUE_myentity", "my entity value"),
        ],
    );
}

#[test]
fn xml_entity_b() {
    test_parse(
        Some("application/xml"),
        br#"<!DOCTYPE foo [ <!ENTITY ext SYSTEM "http://website.com" > ]><a>xx</a>"#,
        &[
            ("a1", "xx"),
            ("_XMLENTITY_SYSTEMID_ext", "http://website.com"),
        ],
    );
}

#[test]
fn xml_spaces() {
    test_parse(
        Some("text/xml"),
        br#"<a>a <b><c> c </c>  </b>  </a>"#,
        &[("a1", "a"), ("a2b1c1", "c")],
    );
}

#[test]
fn xml_space_in_attribute() {
    test_parse(
        Some("application/xml"),
        br#"<a foo1=" ab c "><foo>abc</foo></a>"#,
        &[("afoo1", " ab c "), ("a1foo1", "abc")],
    );
}

#[test]
fn xml_indent() {
    test_parse(
        Some("text/xml"),
        br#"
    <a>x1
      <b>x2</b>
    </a>
    "#,
        &[("a1", "x1"), ("a2b1", "x2")],
    );
}

#[test]
fn multipart() {
    let content = [
        "--------------------------28137e3917e320b3",
        "Content-Disposition: form-data; name=\"foo\"",
        "",
        "bar",
        "--------------------------28137e3917e320b3",
        "Content-Disposition: form-data; name=\"baz\"",
        "",
        "qux",
        "--------------------------28137e3917e320b3--",
        "",
    ];
    test_parse(
        Some("multipart/form-data; boundary=------------------------28137e3917e320b3"),
        content.join("\r\n").as_bytes(),
        &[("foo", "bar"), ("baz", "qux")],
    );
}

#[test]
fn urlencoded() {
    test_parse(
        Some("application/x-www-form-urlencoded"),
        b"a=1&b=2&c=3",
        &[("a", "1"), ("b", "2"), ("c", "3")],
    );
}

#[test]
fn urlencoded_default() {
    test_parse(None, b"a=1&b=2&c=3", &[("a", "1"), ("b", "2"), ("c", "3")]);
}

#[test]
fn json_default() {
    test_parse(None, br#"{"a": "b", "c": "d"}"#, &[("a", "b"), ("c", "d")]);
}
