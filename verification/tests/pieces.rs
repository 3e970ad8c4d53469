use hipack::format::indent;
use hipack::scalar::{
    has_byte, write_bool, write_bytes, write_digits, write_escaped_byte, write_float, write_i64,
    write_str, write_u64,
};
use hipack::{
    to_vec, to_vec_pretty, CompactFormatter, Error, ErrorCode, Formatter, PrettyFormatter,
    Serializer, Value,
};

fn text(bytes: Vec<u8>) -> String {
    String::from_utf8(bytes).unwrap()
}

/// Reads the escapes of a string body back.
fn unescape(body: &[u8]) -> Vec<u8> {
    let mut out = Vec::new();
    let mut i = 0;
    while i < body.len() {
        if body[i] != b'\\' {
            out.push(body[i]);
            i += 1;
            continue;
        }
        match body[i + 1] {
            b't' => out.push(b'\t'),
            b'n' => out.push(b'\n'),
            b'r' => out.push(b'\r'),
            b'"' => out.push(b'"'),
            b'\\' => out.push(b'\\'),
            _ => {
                let hex = std::str::from_utf8(&body[i + 1..i + 3]).unwrap();
                out.push(u8::from_str_radix(hex, 16).unwrap());
                i += 1;
            }
        }
        i += 2;
    }
    out
}

#[test]
fn booleans() {
    let mut out = b"<".to_vec();
    write_bool(&mut out, true);
    write_bool(&mut out, false);
    assert_eq!("<TrueFalse", text(out));
}

#[test]
fn digits_match_the_standard_rendering() {
    for n in [0u64, 1, 9, 10, 11, 99, 100, 12345, 9007199254740993, u64::MAX] {
        let mut out = Vec::new();
        write_digits(&mut out, n);
        assert_eq!(format!("{}", n), text(out));
        let mut out = b"n=".to_vec();
        write_u64(&mut out, n);
        assert_eq!(format!("n={}", n), text(out));
    }
}

#[test]
fn signed_integers_match_the_standard_rendering() {
    for n in [0i64, 1, -1, 9, -9, 10, -10, 255, -34, i64::MAX, i64::MIN, i64::MIN + 1] {
        let mut out = Vec::new();
        write_i64(&mut out, n);
        assert_eq!(format!("{}", n), text(out));
    }
}

#[test]
fn every_byte_has_its_escape() {
    for b in 0u8..=255 {
        let expected = match b {
            0x09 => b"\\t".to_vec(),
            0x0A => b"\\n".to_vec(),
            0x0D => b"\\r".to_vec(),
            0x22 => b"\\\"".to_vec(),
            0x5C => b"\\\\".to_vec(),
            b if b < 0x20 => format!("\\{:02X}", b).into_bytes(),
            b => vec![b],
        };
        let mut out = Vec::new();
        write_escaped_byte(&mut out, b);
        assert_eq!(expected, out, "byte {}", b);
    }
}

#[test]
fn escapes_read_back() {
    let given = "tab\t lf\n cr\r quote\" backslash\\ bell\u{7} unit\u{1f} nul\0 smile☺ é";
    let mut out = Vec::new();
    write_str(&mut out, given);
    assert_eq!(b'"', out[0]);
    assert_eq!(b'"', out[out.len() - 1]);
    let body = &out[1..out.len() - 1];
    assert!(body.iter().all(|b| *b >= 0x20));
    assert_eq!(given.as_bytes().to_vec(), unescape(body));
}

#[test]
fn every_single_character_reads_back() {
    for c in (0u32..0x250).filter_map(char::from_u32) {
        let given = c.to_string();
        let encoded = to_vec(&Value::string(&given)).unwrap();
        assert_eq!(given.as_bytes().to_vec(), unescape(&encoded[1..encoded.len() - 1]));
    }
}

#[test]
fn bytes_are_appended_as_they_are() {
    let mut out = b"a".to_vec();
    write_bytes(&mut out, b"\"\\\n\x00z");
    assert_eq!(b"a\"\\\n\x00z".to_vec(), out);
    write_bytes(&mut out, b"");
    assert_eq!(b"a\"\\\n\x00z".to_vec(), out);
}

#[test]
fn byte_search() {
    assert!(has_byte(b"1.5", b'.'));
    assert!(has_byte(b".", b'.'));
    assert!(has_byte(b"15.", b'.'));
    assert!(!has_byte(b"15", b'.'));
    assert!(!has_byte(b"", b'.'));
}

#[test]
fn float_texts() {
    let cases: [(bool, &str, &str); 8] = [
        (true, "1", "1.0"),
        (true, "1.5", "1.5"),
        (true, "-0", "-0.0"),
        (true, "100000000000000000000", "100000000000000000000.0"),
        (true, "0.0000001", "0.0000001"),
        (false, "NaN", "NaN"),
        (false, "inf", "inf"),
        (false, "-inf", "-inf"),
    ];
    for (finite, shortest, expected) in cases {
        let mut out = Vec::new();
        write_float(&mut out, finite, shortest);
        assert_eq!(expected, text(out));
    }
}

#[test]
fn indentation_is_two_spaces_a_level() {
    let mut out = b"|".to_vec();
    indent(&mut out, 0);
    assert_eq!("|", text(out.clone()));
    indent(&mut out, 3);
    assert_eq!("|      ", text(out));
}

#[test]
fn compact_punctuation() {
    let mut f = CompactFormatter;
    let mut out = Vec::new();
    f.start_compound(&mut out, b'[');
    f.item_separator(&mut out, true);
    out.push(b'1');
    f.item_separator(&mut out, false);
    f.start_compound(&mut out, b'{');
    out.push(b'k');
    f.key_separator(&mut out);
    out.push(b'2');
    f.end_compound(&mut out, b'}');
    f.end_compound(&mut out, b']');
    assert_eq!("[1,{k:2}]", text(out));
}

#[test]
fn pretty_punctuation() {
    let mut f = PrettyFormatter::new();
    let mut out = Vec::new();
    f.start_compound(&mut out, b'[');
    f.item_separator(&mut out, true);
    out.push(b'1');
    f.item_separator(&mut out, false);
    f.start_compound(&mut out, b'{');
    out.push(b'k');
    f.key_separator(&mut out);
    out.push(b'2');
    f.end_compound(&mut out, b'}');
    f.end_compound(&mut out, b']');
    assert_eq!("[\n  1\n  {\n    k: 2\n  }\n]", text(out));
}

#[test]
fn serializer_writes_scalars_one_after_another() {
    let mut s = Serializer::new(b"> ".to_vec());
    s.visit_bool(true);
    s.visit_i64(-5);
    s.visit_u64(5);
    s.visit_f64(true, "2");
    s.visit_f64(false, "NaN");
    s.visit_str("a\"b");
    assert_eq!("> True-552.0NaN\"a\\\"b\"", text(s.into_inner()));
}

#[test]
fn serializer_refuses_unit_and_none() {
    let mut s = Serializer::pretty(b"kept".to_vec());
    assert!(matches!(
        s.visit_unit(),
        Err(Error::SyntaxError(ErrorCode::UnrepresentableValue, 0, 0, 0))
    ));
    assert!(matches!(
        s.visit_none(),
        Err(Error::SyntaxError(ErrorCode::UnrepresentableValue, 0, 0, 0))
    ));
    assert_eq!("kept", text(s.into_inner()));
}

#[test]
fn serializer_writes_what_is_present() {
    let mut s = Serializer::new(Vec::new());
    s.visit_some(&Value::UInt(7)).unwrap();
    assert!(s.visit_some(&Value::Absent).is_err());
    assert_eq!("7", text(s.into_inner()));
}

#[test]
fn serializer_sets_items_apart() {
    let mut s = Serializer::with_formatter(Vec::new(), CompactFormatter);
    s.visit_seq_elt(&Value::Int(1)).unwrap();
    s.visit_seq_elt(&Value::Int(2)).unwrap();
    s.visit_map_elt(&Value::string("k"), &Value::Bool(false)).unwrap();
    assert_eq!(",1,2,k:False", text(s.into_inner()));
}

#[test]
fn serializer_starts_a_container_with_its_first_item() {
    let mut s = Serializer::pretty(Vec::new());
    s.visit_seq(None, &vec![Value::Int(1), Value::Int(2)]).unwrap();
    s.visit_map(Some(1), &vec![(Value::string("k"), Value::sequence(vec![Value::Int(3)]))])
        .unwrap();
    s.visit_seq(Some(0), &vec![Value::Int(1)]).unwrap();
    s.visit_map(Some(0), &Vec::new()).unwrap();
    assert_eq!("[\n  1\n  2\n]{\n  k: [\n    3\n  ]\n}[]{}", text(s.into_inner()));
}

#[test]
fn serializer_keys() {
    let mut s = Serializer::new(Vec::new());
    s.visit_key(&Value::string("bare \"key\"")).unwrap();
    for key in [Value::Bool(true), Value::Int(1), Value::Absent, Value::sequence(Vec::new())] {
        assert!(matches!(
            s.visit_key(&key),
            Err(Error::SyntaxError(ErrorCode::InvalidKey, 0, 0, 0))
        ));
    }
    assert_eq!("bare \"key\"", text(s.into_inner()));
}

#[test]
fn serializer_stops_at_a_refused_key() {
    let mut s = Serializer::pretty(Vec::new());
    let entries = vec![
        (Value::string("a"), Value::Int(1)),
        (Value::Bool(true), Value::Int(2)),
        (Value::string("c"), Value::Int(3)),
    ];
    assert!(matches!(
        s.visit_map(None, &entries),
        Err(Error::SyntaxError(ErrorCode::InvalidKey, 0, 0, 0))
    ));
    assert_eq!("{\n  a: 1\n  ", text(s.into_inner()));
}

#[test]
fn value_serializes_itself() {
    let mut s = Serializer::new(b"v=".to_vec());
    Value::sequence(vec![Value::string("x"), Value::mapping(Vec::new())]).serialize(&mut s).unwrap();
    assert_eq!("v=[\"x\",{}]", text(s.into_inner()));
}

#[test]
fn constructors_report_their_length() {
    assert!(matches!(Value::sequence(vec![Value::Absent]), Value::Sequence { len: Some(1), .. }));
    assert!(matches!(Value::mapping(Vec::new()), Value::Mapping { len: Some(0), .. }));
    match Value::string("é☺") {
        Value::Str(held) => assert_eq!("é☺", held),
        _ => panic!("a string value holds the string"),
    }
}

#[test]
fn renderings_differ_in_whitespace_only() {
    let value = Value::mapping(vec![
        (Value::string("list"), Value::sequence(vec![Value::Int(1), Value::Int(-2)])),
        (Value::string("none"), Value::sequence(Vec::new())),
        (
            Value::string("deep"),
            Value::mapping(vec![(Value::string("flag"), Value::Bool(true))]),
        ),
        (Value::string("name"), Value::string("x")),
    ]);
    let compact = text(to_vec(&value).unwrap());
    let pretty = text(to_vec_pretty(&value).unwrap());
    assert_ne!(compact, pretty);
    let squeezed: String = pretty.chars().filter(|c| *c != ' ' && *c != '\n').collect();
    let unseparated: String = compact.chars().filter(|c| *c != ',').collect();
    assert_eq!(unseparated, squeezed);
    assert_eq!(
        pretty.matches(|c| c == '[' || c == '{').count(),
        pretty.matches(|c| c == ']' || c == '}').count()
    );
}

#[test]
fn renderings_fail_alike() {
    let values = vec![
        Value::Absent,
        Value::sequence(vec![Value::Absent]),
        Value::mapping(vec![(Value::Int(1), Value::Int(1))]),
        Value::mapping(vec![(Value::string("k"), Value::Absent), (Value::Int(1), Value::Int(1))]),
        Value::sequence(vec![Value::Int(1)]),
    ];
    for value in values {
        let compact = to_vec(&value).map(|_| ()).map_err(|e| e.code());
        let pretty = to_vec_pretty(&value).map(|_| ()).map_err(|e| e.code());
        assert_eq!(compact, pretty);
    }
}
