use litejson::error::Error;
use litejson::list::JsonList;
use litejson::object::JsonObject;
use litejson::types::{Type, Wrap};
use litejson::var::{decode_json, parse_js_value, parse_js_value_number, unicode_to_char, StringExt};

fn parse_object(json: &str) -> Result<JsonObject, Error> {
    json.parse()
}

fn parse_list(json: &str) -> Result<JsonList, Error> {
    let list = JsonList::parse(json.to_string());
    if list.is_none() {
        return Err(Error::InvalidJson);
    }
    Ok(list.unwrap())
}

#[test]
fn test_parse_object() {
    assert!(parse_object("{}").is_ok());
    assert!(parse_object("{\"a\": 1}").is_ok());
    assert!(parse_object(r#""#).is_err());
    assert!(parse_object(r#"{}"#).is_ok());

    let json = r#"{"name":"fugiat ea tempor laborum","age":-19103712.601825505,"address":{"consequate":-37661686.80219111,"sedcf5":true,"inc89":"sed exercitation nisi in"}}"#;
    assert!(parse_object(json).is_ok());

    let json = r#"
        {
            "string": "John Doe\u554a",
            "number": 3.14,
            "boolean": true,
            "array": [1, 2, 3],
            "object": {
                "a": 1,
                "object": {"b": 3}
            }
        }"#;
    println!("{:?}", parse_object(json));
    assert!(parse_object(json).is_ok());

    let json = r#"
        {
            "list": [
                {
                    "name": "John Doe",
                    "age": 18
                },
                {
                    "name": "Jane Doe",
                    "age": 20
                }
            ]
        }
        "#;
    assert!(parse_object(json).is_ok());
}

#[test]
fn test_parse_list() {
    assert!(parse_list("[]").is_ok());
    assert!(parse_list("[1, 2, 3]").is_ok());
    assert!(parse_list(r#"[1, 2, 3]"#).is_ok());

    let json = r#"[{"name": "John Doe","age": 18},{"name": "Jane Doe","age": 20}]"#;
    assert!(parse_list(json).is_ok());

    let json = "[{\"name\":\"John Doe\",\"age\":18},{\"name\":\"Jane Doe\",\"age\":20}]";
    assert!(parse_list(json).is_ok());

    let json = r#"[
            {
                "name": "John Doe",
                "age": 18
            },
            {
                "name": "Jane Doe",
                "age": 20
            }
        ]"#;
    assert!(parse_list(json).is_ok());
}

#[test]
fn test_parse_type() {
    let max = isize::MAX;
    let max_str = format!("{}9", max);
    assert_eq!(Type::ISIZE(12), Type::parse_type("12").unwrap());
    assert_eq!(Type::F64("64.0".to_string()), Type::parse_type("64.0").unwrap());
    assert_eq!(Type::F64("-12.4421".to_string()), Type::parse_type("-12.4421").unwrap());
    assert_eq!(Type::String("John Doe".to_string()), Type::parse_type("John Doe").unwrap());
    assert_eq!(Type::Boolean(false), Type::parse_type("false").unwrap());
    assert_eq!(Type::Boolean(true), Type::parse_type("true").unwrap());
    assert_eq!(Type::Null, Type::parse_type("null").unwrap());
    assert_eq!(Type::Null, Type::parse_type("nan").unwrap());
    assert_eq!(Type::ISIZE(max), Type::parse_type(&max.to_string()).unwrap());
    assert_eq!(Type::String(max_str.clone()), Type::parse_type(&max_str).unwrap());

    let object_json = r#"{"name":"John Doe","age":18}"#;
    let object = parse_object(object_json).unwrap();
    assert_eq!(Type::JsonObject(object), Type::parse_type(object_json).unwrap());

    let list_json = r#"[{"name":"John Doe","age":18},{"name":"John Doe","age":20}]"#;
    let list = parse_list(&list_json).unwrap();
    assert_eq!(Type::JsonList(list), Type::parse_type(list_json).unwrap());
}

#[test]
fn test_object_to_json_line() {
    let json = r#"{
    "name": "John Doe",
    "age": 18,
    "list": [
        1,
        2,
        4
    ]
}"#;

    let object = parse_object(json).unwrap();
    let json_line = object.to_json_line();
    assert_eq!(json.to_string(), json_line);
}

#[test]
fn test_empty_containers() {
    let o = parse_object("{}").unwrap();
    assert!(o.is_empty());
    assert_eq!(o.to_json(), "{}");
    let l = parse_list("[]").unwrap();
    assert!(l.is_empty());
    assert_eq!(l.len(), 0);
    assert_eq!(l.to_json(), "[]");
}

#[test]
fn test_nested_structures() {
    let o = parse_object(r#"{"a":{"b":3}}"#).unwrap();
    let inner = o.get_object("a").unwrap();
    assert_eq!(inner.get_i32("b"), Some(3));
}

#[test]
fn test_unicode_escape() {
    let decoded = decode_json("John Doe\\u554a".to_string()).unwrap();
    assert_eq!(decoded, "John Doe\u{554a}");
    assert_eq!(unicode_to_char("554a"), Some('\u{554a}'));
    assert_eq!(unicode_to_char("554A"), Some('\u{554a}'));
    assert_eq!(unicode_to_char("zzzz"), None);
    assert_eq!(unicode_to_char("d800"), None);
}

#[test]
fn test_escape_codec() {
    // the two-character control escapes stay as text
    assert_eq!(decode_json("a\\nb".to_string()).unwrap(), "a\\nb");
    assert_eq!(decode_json("a\\tb".to_string()).unwrap(), "a\\tb");
    // quotes and slashes become the bare character
    assert_eq!(decode_json("a\\\"b".to_string()).unwrap(), "a\"b");
    assert_eq!(decode_json("a\\/b".to_string()).unwrap(), "a/b");
    assert_eq!(decode_json("a\\\\b".to_string()).unwrap(), "a\\b");
    // a malformed unicode escape vanishes, a trailing backslash too
    assert_eq!(decode_json("a\\uZZZZb".to_string()).unwrap(), "ab");
    assert_eq!(decode_json("a\\u00".to_string()).unwrap(), "a00");
    assert_eq!(decode_json("ab\\".to_string()).unwrap(), "ab");
}

#[test]
fn test_malformed_input_rejection() {
    assert!(parse_object("{").is_err());
    assert!(parse_object("").is_err());
    assert!(parse_object(r#"{"a":}"#).is_err());
    assert!(parse_object("x{}").is_err());
    assert!(parse_object("{\"a\":1,}").is_err());
    assert!(parse_list("[1,]").is_err());
    assert!(parse_list("[1,2").is_err());
    assert!(parse_list("").is_err());
}

#[test]
fn test_duplicate_keys() {
    let mut o = JsonObject::new();
    o.set_str("a", "x");
    o.set_str("a", "y");
    assert_eq!(o.get_str("a"), Some("x"));
    let rendered = o.to_json();
    assert_eq!(rendered, r#"{"a":"x","a":"y"}"#);
    assert!(rendered.contains(r#""a":"x""#));
    assert!(rendered.contains(r#""a":"y""#));
}

#[test]
fn test_round_trip_scalars() {
    // integers, booleans, null and canonical floats re-parse to themselves
    for txt in ["0", "7", "-42", "true", "false", "null"] {
        let v = Type::parse_type(txt).unwrap();
        assert_eq!(Type::parse_type(&v.to_json()).unwrap(), v);
    }
    let f = Type::parse_type("3.140").unwrap();
    assert_eq!(f, Type::F64("3.14".to_string()));
    assert_eq!(Type::parse_type(&f.to_json()).unwrap(), f);
    // a digit string beyond the pointer-sized range stays a string
    let max_str = format!("{}9", isize::MAX);
    let v = Type::parse_type(&max_str).unwrap();
    assert_eq!(v, Type::String(max_str.clone()));
    let mut o = JsonObject::new();
    o.set_str("big", &max_str);
    let back = parse_object(&o.to_json()).unwrap();
    assert_eq!(back.get_str("big"), Some(max_str.as_str()));
}

#[test]
fn test_pretty_print_idempotence() {
    let docs = [
        r#"{"name":"John Doe","age":18,"list":[1,2,4]}"#,
        r#"{"a":{"b":3},"c":[true,null,"s"]}"#,
        "{}",
        r#"{"one":1}"#,
    ];
    for doc in docs {
        let first = parse_object(doc).unwrap().to_json_line();
        let second = parse_object(&first).unwrap().to_json_line();
        assert_eq!(first, second);
    }
}

#[test]
fn test_accessors() {
    let mut o = JsonObject::new();
    o.set_i8("i8", -5);
    o.set_u64("u64", 99);
    o.set_bool("b", true);
    o.set_null("n");
    o.set_f64("f", "2.5");
    assert_eq!(o.get_i8("i8"), Some(-5));
    assert_eq!(o.get_i32("i8"), Some(-5));
    assert_eq!(o.get_u64("u64"), Some(99));
    assert_eq!(o.get_u8("u64"), Some(99));
    assert_eq!(o.get_bool("b"), Some(true));
    assert!(o.get_null("n"));
    assert!(!o.get_null("b"));
    assert_eq!(o.get_f64("f"), Some("2.5"));
    assert_eq!(o.get_str("missing"), None);
    assert_eq!(o.to_json(), r#"{"i8":-5,"u64":99,"b":true,"n":null,"f":2.5}"#);
}

#[test]
fn test_list_operations() {
    let mut l = JsonList::new(&vec!["1".to_string(), "a b".to_string(), "2.5".to_string()]);
    assert_eq!(l.len(), 3);
    assert_eq!(l.get(0), Some(&Type::ISIZE(1)));
    assert_eq!(l.get(1), Some(&Type::String("a b".to_string())));
    assert_eq!(l.get(2), Some(&Type::F64("2.5".to_string())));
    assert_eq!(l.get(3), None);
    l.push(Type::Boolean(false));
    assert_eq!(l.len(), 4);
    assert_eq!(l.to_json(), r#"[1,"a b",2.5,false]"#);
}

#[test]
fn test_parse_js_value() {
    let mut end = Wrap(0isize);
    let v = parse_js_value("\"abc\"".to_string(), 0, &mut end);
    assert_eq!(v, Some(Type::String("abc".to_string())));
    assert_eq!(end.0, 4);

    let mut end = Wrap(0isize);
    let v = parse_js_value("123,".to_string(), 0, &mut end);
    assert_eq!(v, Some(Type::ISIZE(123)));
    assert_eq!(end.0, 2);

    let mut end = Wrap(0isize);
    let v = parse_js_value("'mixed \"quotes'".to_string(), 0, &mut end);
    assert_eq!(v, Some(Type::String("mixed \"quotes".to_string())));

    let mut end = Wrap(0isize);
    assert_eq!(parse_js_value("123".to_string(), 0, &mut end), None);
}

#[test]
fn test_parse_js_value_number() {
    assert_eq!(parse_js_value_number("TRUE".to_string()), Some(Type::Boolean(true)));
    assert_eq!(parse_js_value_number("false".to_string()), Some(Type::Boolean(false)));
    assert_eq!(parse_js_value_number("64.0".to_string()), Some(Type::F64("64.0".to_string())));
    assert_eq!(parse_js_value_number("null".to_string()), None);
    assert_eq!(parse_js_value_number("nan".to_string()), None);
    assert_eq!(parse_js_value_number("17".to_string()), Some(Type::ISIZE(17)));
    assert_eq!(parse_js_value_number("word".to_string()), None);
}

#[test]
fn test_string_ext() {
    let s = "Hello World".to_string();
    assert_eq!(s.substring(0, 5), "Hello");
    assert_eq!(s.substring(6, 11), "World");
    assert_eq!(s.substring(5, 2), "");
    assert_eq!(s.char_at(0), 'H');
    assert_eq!(s.char_at(10), 'd');
    assert!(s.equals_ignore_case("hello world"));
    assert!(!s.equals_ignore_case("hello worlds"));
    assert_eq!(s.index_of("World"), Some(6));
    assert_eq!(s.index_of("o"), Some(4));
    assert_eq!(s.index_of("xyz"), None);
}

#[test]
fn test_single_quote_tolerance() {
    let o = parse_object("{'a': 'it\"s'}").unwrap();
    assert_eq!(o.get_str("a"), Some("it\"s"));
    let o = parse_object("{a: 1}").unwrap();
    assert_eq!(o.get_isize("a"), Some(1));
}

#[test]
fn test_list_to_json_line() {
    let l = JsonList::parse("[1,2]".to_string()).unwrap();
    assert_eq!(l.to_json_line(), "[\n    1,\n    2\n]");
    let o = parse_object("{}").unwrap();
    assert_eq!(o.to_json_line(), "{\n\n}");
}

#[test]
fn test_free_entry_points() {
    assert!(litejson::object::parse_object("{\"a\":1}".to_string()).is_ok());
    assert!(litejson::object::parse_object("{".to_string()).is_err());
    assert!(litejson::list::parse_list("[1]".to_string()).is_ok());
    assert!(litejson::list::parse_list("[".to_string()).is_err());
}

#[test]
fn test_trailing_content_tolerated() {
    // trailing garbage after a structurally complete document is accepted
    let o = parse_object("{\"a\":1} trailing").unwrap();
    assert_eq!(o.get_isize("a"), Some(1));
}
