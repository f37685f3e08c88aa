use bodyflat::body::{ends_with, parse_body, strip_prefix};
use bodyflat::fields::{ParseError, RequestField};
use bodyflat::forms::{add_pair, find_byte, forms_body, is_forms_encoded, parse_urlencoded_params_bytes, url_decode};
use bodyflat::json::{flatten_json, json_body, json_fields, json_path, JsonValue};
use bodyflat::parts::{multipart_fields, multipart_form_encoded, MultipartScan};
use bodyflat::text::decimal;
use bodyflat::xml::{close_xml_element, xml_body, xml_flatten, xml_increment_last, xml_path, xml_token, XmlLex, XmlToken};

fn pairs(args: &RequestField) -> Vec<(String, String)> {
    args.entries()
}

fn owned(items: &[(&str, &str)]) -> Vec<(String, String)> {
    items.iter().map(|(k, v)| (k.to_string(), v.to_string())).collect()
}

#[test]
fn store_starts_empty() {
    let args = RequestField::new();
    assert_eq!(args.len(), 0);
    assert!(args.is_empty());
    assert_eq!(args.get_str("a"), None);
}

#[test]
fn store_add_joins_with_one_space() {
    let mut args = RequestField::new();
    args.add("k".to_string(), "1".to_string());
    args.add("other".to_string(), "x".to_string());
    args.add("k".to_string(), "2".to_string());
    args.add("k".to_string(), "".to_string());
    assert_eq!(args.len(), 2);
    assert!(!args.is_empty());
    assert_eq!(args.get_str("k"), Some("1 2 "));
    assert_eq!(args.get_str("other"), Some("x"));
    assert_eq!(pairs(&args), owned(&[("k", "1 2 "), ("other", "x")]));
}

#[test]
fn decimal_values() {
    assert_eq!(decimal(0), "0");
    assert_eq!(decimal(9), "9");
    assert_eq!(decimal(10), "10");
    assert_eq!(decimal(1234567890), "1234567890");
    assert_eq!(decimal(u64::MAX), "18446744073709551615");
}

#[test]
fn error_messages() {
    assert_eq!(ParseError::InvalidJson("x".to_string()).message(), "Invalid JSON body: x");
    assert_eq!(ParseError::InvalidXml("y".to_string()).message(), "Invalid XML: y");
    assert_eq!(ParseError::NotFormsEncoded.message(), "Body is not forms encoded");
    assert_eq!(
        ParseError::InvalidMultipart("z".to_string()).message(),
        "Could not parse multipart body: z"
    );
}

#[test]
fn json_path_of_segments() {
    assert_eq!(json_path(&vec![]), "JSON_ROOT");
    assert_eq!(json_path(&vec!["a".to_string()]), "a");
    assert_eq!(json_path(&vec!["a".to_string(), "0".to_string(), "b".to_string()]), "a_0_b");
    assert_eq!(json_path(&vec!["".to_string(), "".to_string()]), "_");
}

#[test]
fn flatten_json_tree() {
    let tree = JsonValue::Object(vec![
        ("n".to_string(), JsonValue::Null),
        (
            "list".to_string(),
            JsonValue::Array(vec![
                JsonValue::Bool(false),
                JsonValue::Number("-1.5e3".to_string()),
                JsonValue::Array(vec![]),
                JsonValue::Str("s".to_string()),
            ]),
        ),
    ]);
    let mut args = RequestField::new();
    let mut prefix = vec!["root".to_string()];
    flatten_json(&mut args, &mut prefix, &tree);
    assert_eq!(prefix, vec!["root".to_string()]);
    assert_eq!(
        pairs(&args),
        owned(&[
            ("root_n", "null"),
            ("root_list_0", "false"),
            ("root_list_1", "-1.5e3"),
            ("root_list_3", "s"),
        ])
    );
}

#[test]
fn json_scalar_roots() {
    for (body, text) in [("true", "true"), ("null", "null"), ("12", "12"), ("-0.5", "-0.5")] {
        let mut args = RequestField::new();
        json_body(&mut args, body.as_bytes()).unwrap();
        assert_eq!(pairs(&args), owned(&[("JSON_ROOT", text)]));
    }
}

#[test]
fn json_error_keeps_fields() {
    let mut args = RequestField::new();
    args.add("a".to_string(), "1".to_string());
    let r = json_body(&mut args, br#"{"a": "b""#);
    assert!(matches!(r, Err(ParseError::InvalidJson(_))));
    assert_eq!(pairs(&args), owned(&[("a", "1")]));
    let r = json_fields(&mut args, Err("broken".to_string()));
    match r {
        Err(ParseError::InvalidJson(text)) => assert_eq!(text, "broken"),
        _ => panic!("an error was expected"),
    }
}

#[test]
fn json_members_in_parser_order() {
    let mut args = RequestField::new();
    json_body(&mut args, br#"{"b": [1, 2], "a": {"x": "y"}}"#).unwrap();
    assert_eq!(args.len(), 3);
    assert_eq!(args.get_str("b_0"), Some("1"));
    assert_eq!(args.get_str("b_1"), Some("2"));
    assert_eq!(args.get_str("a_x"), Some("y"));
}

#[test]
fn xml_path_of_stack() {
    assert_eq!(xml_path(&vec![]), "");
    assert_eq!(xml_path(&vec![("a".to_string(), 0)]), "a");
    assert_eq!(
        xml_path(&vec![("a".to_string(), 2), ("b".to_string(), 0), ("c".to_string(), 12)]),
        "a2bc12"
    );
}

#[test]
fn xml_increment_last_counts() {
    let mut stack: Vec<(String, u64)> = Vec::new();
    assert_eq!(xml_increment_last(&mut stack), 0);
    assert!(stack.is_empty());
    stack.push(("a".to_string(), 0));
    stack.push(("b".to_string(), 4));
    assert_eq!(xml_increment_last(&mut stack), 4);
    assert_eq!(stack, vec![("a".to_string(), 0), ("b".to_string(), 5)]);
}

#[test]
fn close_xml_element_cases() {
    let mut args = RequestField::new();
    let mut stack: Vec<(String, u64)> = Vec::new();
    match close_xml_element(&mut args, &mut stack, Some("a")) {
        Err(ParseError::InvalidXml(text)) => assert_eq!(text, "extraneous element end"),
        _ => panic!("an error was expected"),
    }
    stack.push(("a".to_string(), 1));
    stack.push(("b".to_string(), 0));
    match close_xml_element(&mut args, &mut stack, Some("c")) {
        Err(ParseError::InvalidXml(text)) => assert_eq!(text, "wrong closing element, expected b, got c"),
        _ => panic!("an error was expected"),
    }
    assert_eq!(stack, vec![("a".to_string(), 1)]);
    assert!(args.is_empty());
    stack.push(("b".to_string(), 0));
    close_xml_element(&mut args, &mut stack, None).unwrap();
    assert_eq!(pairs(&args), owned(&[("a1b1", "")]));
    close_xml_element(&mut args, &mut stack, Some("a")).unwrap();
    assert!(stack.is_empty());
    assert_eq!(args.len(), 1);
}

#[test]
fn xml_token_by_token() {
    let mut args = RequestField::new();
    let mut stack: Vec<(String, u64)> = Vec::new();
    let tokens = vec![
        XmlToken::Skipped,
        XmlToken::EntityPublic { name: "e".to_string(), public_id: "p".to_string(), system_id: "s".to_string() },
        XmlToken::ElementStart { local: "a".to_string() },
        XmlToken::Attribute { local: "k".to_string(), value: "v".to_string() },
        XmlToken::ElementEndOpen,
        XmlToken::Text { text: "  \n ".to_string() },
        XmlToken::Cdata { text: " ".to_string() },
        XmlToken::ElementStart { local: "b".to_string() },
        XmlToken::ElementEndEmpty,
        XmlToken::Text { text: " t ".to_string() },
        XmlToken::ElementEndClose { local: "a".to_string() },
    ];
    for token in tokens.iter() {
        xml_token(&mut args, &mut stack, token).unwrap();
    }
    assert!(stack.is_empty());
    assert_eq!(
        pairs(&args),
        owned(&[("_XMLENTITY_PUBLICID_e", "p/s"), ("ak", "v"), ("a1", " "), ("a2b1", ""), ("a3", "t")])
    );
}

#[test]
fn xml_flatten_errors() {
    let mut args = RequestField::new();
    let open = XmlLex { tokens: vec![XmlToken::ElementStart { local: "a".to_string() }], error: None };
    match xml_flatten(&mut args, &open) {
        Err(ParseError::InvalidXml(text)) => assert_eq!(text, "premature end of document"),
        _ => panic!("an error was expected"),
    }
    let lexer = XmlLex {
        tokens: vec![XmlToken::ElementStart { local: "a".to_string() }, XmlToken::Cdata { text: "x".to_string() }],
        error: Some("bad".to_string()),
    };
    let mut args = RequestField::new();
    match xml_flatten(&mut args, &lexer) {
        Err(ParseError::InvalidXml(text)) => assert_eq!(text, "bad"),
        _ => panic!("an error was expected"),
    }
    assert_eq!(pairs(&args), owned(&[("a1", "x")]));
    let extra = XmlLex {
        tokens: vec![XmlToken::ElementEndClose { local: "a".to_string() }, XmlToken::Cdata { text: "x".to_string() }],
        error: Some("later".to_string()),
    };
    let mut args = RequestField::new();
    match xml_flatten(&mut args, &extra) {
        Err(ParseError::InvalidXml(text)) => assert_eq!(text, "extraneous element end"),
        _ => panic!("an error was expected"),
    }
    assert!(args.is_empty());
}

#[test]
fn xml_body_errors() {
    let mut args = RequestField::new();
    match xml_body(&mut args, b"<a>") {
        Err(ParseError::InvalidXml(text)) => assert_eq!(text, "premature end of document"),
        _ => panic!("an error was expected"),
    }
    let mut args = RequestField::new();
    match xml_body(&mut args, b"<a>x</b>") {
        Err(ParseError::InvalidXml(text)) => assert_eq!(text, "wrong closing element, expected a, got b"),
        _ => panic!("an error was expected"),
    }
    assert_eq!(pairs(&args), owned(&[("a1", "x")]));
    let mut args = RequestField::new();
    assert!(matches!(xml_body(&mut args, b"<a 1x=\"12\">x</a>"), Err(ParseError::InvalidXml(_))));
}

#[test]
fn xml_entities_are_not_expanded() {
    let mut args = RequestField::new();
    xml_body(
        &mut args,
        br#"<!DOCTYPE foo [ <!ENTITY e "value" > <!ENTITY p PUBLIC "pub" "sys" > ]><a>&e;</a>"#,
    )
    .unwrap();
    assert_eq!(
        pairs(&args),
        owned(&[("_XMLENTITY_VALUE_e", "value"), ("_XMLENTITY_PUBLICID_p", "pub/sys"), ("a1", "&e;")])
    );
}

#[test]
fn xml_self_closing_and_invalid_utf8() {
    let mut args = RequestField::new();
    xml_body(&mut args, b"<a><b/>\xff</a>").unwrap();
    assert_eq!(pairs(&args), owned(&[("a1b1", ""), ("a2", "\u{fffd}")]));
}

#[test]
fn forms_heuristic() {
    assert!(is_forms_encoded(b"a=1"));
    assert!(is_forms_encoded(b"="));
    assert!(!is_forms_encoded(b""));
    assert!(!is_forms_encoded(b"abc"));
    assert!(!is_forms_encoded(b"a=1 b"));
    assert!(!is_forms_encoded(b"a=\x7f"));
    assert!(!is_forms_encoded(b"a=\x80"));
    assert!(is_forms_encoded(b"!=~"));
    let mut args = RequestField::new();
    assert!(matches!(forms_body(&mut args, b"a b=1"), Err(ParseError::NotFormsEncoded)));
    assert!(args.is_empty());
}

#[test]
fn url_decode_escapes() {
    assert_eq!(url_decode(b"a%20b+c"), b"a b c".to_vec());
    assert_eq!(url_decode(b"%41%4a%4A%ff"), vec![0x41, 0x4a, 0x4a, 0xff]);
    assert_eq!(url_decode(b"%zz%4"), b"%zz%4".to_vec());
    assert_eq!(url_decode(b"%"), b"%".to_vec());
    assert_eq!(url_decode(b""), Vec::<u8>::new());
}

#[test]
fn find_byte_positions() {
    assert_eq!(find_byte(b"a=b=c", b'=', 0), 1);
    assert_eq!(find_byte(b"a=b=c", b'=', 2), 3);
    assert_eq!(find_byte(b"a=b=c", b'=', 4), 5);
    assert_eq!(find_byte(b"", b'=', 0), 0);
}

#[test]
fn forms_pairs() {
    let mut args = RequestField::new();
    parse_urlencoded_params_bytes(&mut args, b"a=1&b&a=x%3Dy&c=d=e&%C3%A9=%ff");
    assert_eq!(
        pairs(&args),
        owned(&[("a", "1 x=y"), ("b", ""), ("c", "d=e"), ("\u{e9}", "\u{fffd}")])
    );
    let mut args = RequestField::new();
    add_pair(&mut args, b"k+1=v+2");
    assert_eq!(pairs(&args), owned(&[("k 1", "v 2")]));
    let mut args = RequestField::new();
    parse_urlencoded_params_bytes(&mut args, b"a=1&");
    assert_eq!(pairs(&args), owned(&[("a", "1"), ("", "")]));
}

#[test]
fn multipart_fields_then_error() {
    let scan = MultipartScan {
        entries: vec![("a".to_string(), b"1".to_vec()), ("a".to_string(), vec![0xff])],
        error: Some("cut".to_string()),
    };
    let mut args = RequestField::new();
    match multipart_fields(&mut args, &scan) {
        Err(ParseError::InvalidMultipart(text)) => assert_eq!(text, "cut"),
        _ => panic!("an error was expected"),
    }
    assert_eq!(pairs(&args), owned(&[("a", "1 \u{fffd}")]));
}

#[test]
fn multipart_direct() {
    let body = "--X\r\nContent-Disposition: form-data; name=\"foo\"\r\n\r\nbar\r\n--X--\r\n";
    let mut args = RequestField::new();
    multipart_form_encoded("X", &mut args, body.as_bytes()).unwrap();
    assert_eq!(pairs(&args), owned(&[("foo", "bar")]));
}

#[test]
fn multipart_is_never_redirected() {
    let mut args = RequestField::new();
    let r = parse_body(&mut args, Some("multipart/form-data; boundary=X"), br#"{"a": "b"}"#);
    assert!(!matches!(r, Err(ParseError::InvalidJson(_))));
    assert!(!matches!(r, Err(ParseError::NotFormsEncoded)));
    assert_eq!(args.get_str("a"), None);
    let mut args = RequestField::new();
    let r = parse_body(&mut args, Some("multipart/form-data; boundary=X"), b"a=1&b=2");
    assert!(!matches!(r, Err(ParseError::NotFormsEncoded)));
    assert_eq!(args.get_str("a"), None);
}

#[test]
fn content_type_routes() {
    let mut args = RequestField::new();
    assert!(matches!(parse_body(&mut args, Some("text/json"), b"a=1"), Err(ParseError::InvalidJson(_))));
    assert!(matches!(parse_body(&mut args, Some("text/xml"), b"a=1"), Err(ParseError::InvalidXml(_))));
    assert!(matches!(
        parse_body(&mut args, Some("application/x-www-form-urlencoded"), b"{}"),
        Err(ParseError::NotFormsEncoded)
    ));
    assert!(matches!(parse_body(&mut args, Some("text/plain"), b"<a>"), Err(ParseError::NotFormsEncoded)));
    assert!(matches!(parse_body(&mut args, None, b"no form"), Err(ParseError::NotFormsEncoded)));
    assert!(args.is_empty());
    parse_body(&mut args, Some("text/plain"), b"a=1").unwrap();
    parse_body(&mut args, Some("application/x-www-form-urlencoded; charset=utf-8"), b"[2]").unwrap();
    assert_eq!(pairs(&args), owned(&[("a", "1"), ("0", "2")]));
}

#[test]
fn prefix_and_suffix() {
    assert_eq!(strip_prefix("multipart/form-data; boundary=abc", "multipart/form-data; boundary="), Some("abc"));
    assert_eq!(strip_prefix("abc", "abc"), Some(""));
    assert_eq!(strip_prefix("ab", "abc"), None);
    assert_eq!(strip_prefix("xbc", "abc"), None);
    assert_eq!(strip_prefix("\u{e9}t\u{e9}", "\u{e9}"), Some("t\u{e9}"));
    assert!(ends_with("application/json", "/json"));
    assert!(ends_with("/xml", "/xml"));
    assert!(!ends_with("xml", "/xml"));
    assert!(!ends_with("application/json5", "/json"));
}

#[test]
fn xml_text_is_trimmed_of_white_space() {
    let spaces: [u32; 25] = [
        0x09, 0x0a, 0x0b, 0x0c, 0x0d, 0x20, 0x85, 0xa0, 0x1680, 0x2000, 0x2001, 0x2002, 0x2003, 0x2004, 0x2005,
        0x2006, 0x2007, 0x2008, 0x2009, 0x200a, 0x2028, 0x2029, 0x202f, 0x205f, 0x3000,
    ];
    for code in 0u32..0x3200 {
        let c = char::from_u32(code).unwrap();
        let mut args = RequestField::new();
        let mut stack = vec![("a".to_string(), 0u64)];
        let text = format!("{}x{}", c, c);
        xml_token(&mut args, &mut stack, &XmlToken::Text { text: text.clone() }).unwrap();
        if spaces.contains(&code) {
            assert_eq!(args.get_str("a1"), Some("x"));
        } else {
            assert_eq!(args.get_str("a1"), Some(text.as_str()));
        }
        let mut args = RequestField::new();
        xml_token(&mut args, &mut stack, &XmlToken::Text { text: c.to_string() }).unwrap();
        assert_eq!(args.len() == 0, spaces.contains(&code));
    }
    let mut args = RequestField::new();
    let mut stack = vec![("a".to_string(), 0u64)];
    xml_token(&mut args, &mut stack, &XmlToken::Text { text: " \u{a0}\t a b \n\u{3000}".to_string() }).unwrap();
    assert_eq!(args.get_str("a1"), Some("a b"));
    assert_eq!(stack, vec![("a".to_string(), 1u64)]);
}

#[test]
fn parsing_keeps_earlier_fields() {
    let bodies: [(Option<&str>, &[u8]); 6] = [
        (Some("text/json"), br#"{"a": [1, {"a": 2}], "b": null}"#),
        (Some("text/xml"), b"<a>2<a>3</b>"),
        (Some("application/x-www-form-urlencoded"), b"a=2&b=3&a=4"),
        (None, b"a"),
        (None, b"b=1&a=%20"),
        (Some("multipart/form-data; boundary=X"), b"--X\r\nContent-Disposition: form-data; name=\"a\"\r\n\r\n2\r\n--X--\r\n"),
    ];
    for (content_type, body) in bodies {
        let mut args = RequestField::new();
        args.add("a".to_string(), "1".to_string());
        args.add("a1".to_string(), "x".to_string());
        let _ = parse_body(&mut args, content_type, body);
        let after = pairs(&args);
        assert!(after.len() >= 2);
        assert_eq!(after[0].0, "a");
        assert!(after[0].1.starts_with("1"));
        assert_eq!(after[1].0, "a1");
        assert!(after[1].1.starts_with("x"));
    }
    let mut args = RequestField::new();
    args.add("a".to_string(), "1".to_string());
    args.add("a1".to_string(), "x".to_string());
    let r = parse_body(&mut args, Some("text/xml"), b"<a>2<a>3</b>");
    assert!(r.is_err());
    assert_eq!(pairs(&args), owned(&[("a", "1"), ("a1", "x 2"), ("a2a1", "3")]));
}
