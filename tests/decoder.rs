use libminer::avalon::PowerSupplyInfo;
use libminer::wire::{
    from_str, negate, DeError, Decimal, ErrorCode, Field, FieldKind, FieldValue, MapEntry, MsgDeserializer,
    Number, RecordEntry, Scalar, ScalarKind, SubField,
};

fn field(name: &str, kind: FieldKind) -> Field {
    Field { name: name.as_bytes().to_vec(), kind }
}

fn sub(name: &str, kind: ScalarKind) -> SubField {
    SubField { name: name.as_bytes().to_vec(), kind }
}

fn get<'a>(rec: &'a [RecordEntry], key: &str) -> &'a FieldValue {
    &rec.iter().find(|e| e.key == key.as_bytes()).expect("missing field").value
}

fn text(s: &str) -> Scalar {
    Scalar::Text(s.as_bytes().to_vec())
}

fn entry(key: &str, value: Scalar) -> MapEntry {
    MapEntry { key: key.as_bytes().to_vec(), value }
}

fn as_f64(d: &Decimal) -> f64 {
    let v = d.mantissa as f64 / 10f64.powi(d.scale as i32);
    if d.negative {
        -v
    } else {
        v
    }
}

fn float_of(v: &FieldValue) -> f64 {
    match v {
        FieldValue::Scalar(Scalar::Float(d)) => as_f64(d),
        other => panic!("not a float: {:?}", other),
    }
}

#[test]
fn root_map_works() {
    let input = r#"a[asdf] b[potato] c[test]"#;
    let schema = vec![
        field("a", FieldKind::Scalar(ScalarKind::Text)),
        field("b", FieldKind::Scalar(ScalarKind::Text)),
        field("c", FieldKind::Scalar(ScalarKind::Text)),
    ];
    let rec = from_str(input, &schema).unwrap();
    assert_eq!(rec.len(), 3);
    assert_eq!(*get(&rec, "a"), FieldValue::Scalar(text("asdf")));
    assert_eq!(*get(&rec, "b"), FieldValue::Scalar(text("potato")));
    assert_eq!(*get(&rec, "c"), FieldValue::Scalar(text("test")));
}

#[test]
fn child_map_works() {
    let input = r#"foo[bar:255 bar2:60]"#;
    let schema = vec![field(
        "foo",
        FieldKind::Inline(vec![sub("bar", ScalarKind::Unsigned), sub("bar2", ScalarKind::Unsigned)]),
    )];
    let rec = from_str(input, &schema).unwrap();
    assert_eq!(
        *get(&rec, "foo"),
        FieldValue::Inline(vec![entry("bar", Scalar::Unsigned(255)), entry("bar2", Scalar::Unsigned(60))])
    );
}

#[test]
fn list_works() {
    let input = r#"foo[1 2 3 5 8]"#;
    let schema = vec![field("foo", FieldKind::List(ScalarKind::Unsigned))];
    let rec = from_str(input, &schema).unwrap();
    let expected: Vec<Scalar> = vec![1u64, 2, 3, 5, 8].into_iter().map(Scalar::Unsigned).collect();
    assert_eq!(*get(&rec, "foo"), FieldValue::List(expected));
}

#[test]
fn float_works() {
    let input = r#"foo[1.234] bar[0.735%]"#;
    let schema = vec![
        field("foo", FieldKind::Scalar(ScalarKind::Float)),
        field("bar", FieldKind::Scalar(ScalarKind::Float)),
    ];
    let rec = from_str(input, &schema).unwrap();
    assert_eq!(float_of(get(&rec, "foo")), 1.234);
    assert_eq!(float_of(get(&rec, "bar")), 0.00735);
    assert_eq!(
        *get(&rec, "bar"),
        FieldValue::Scalar(Scalar::Float(Decimal { negative: false, mantissa: 735, scale: 5 }))
    );
}

#[test]
fn strings_work() {
    let input = r#"foo[foo: hello there, bar bar: 8]"#;
    let schema = vec![field(
        "foo",
        FieldKind::Inline(vec![sub("foo", ScalarKind::Text), sub("bar bar", ScalarKind::Unsigned)]),
    )];
    let rec = from_str(input, &schema).unwrap();
    assert_eq!(
        *get(&rec, "foo"),
        FieldValue::Inline(vec![entry("foo", text("hello there")), entry("bar bar", Scalar::Unsigned(8))])
    );
}

#[test]
fn test_ignore() {
    let input = r#"foo[bar1: 255, bar2: 4153, bar3: 1352] bar[foo: foo, bar: bar]"#;
    let schema = vec![
        field(
            "foo",
            FieldKind::Inline(vec![sub("bar1", ScalarKind::Unsigned), sub("bar3", ScalarKind::Unsigned)]),
        ),
        field("bar", FieldKind::Inline(vec![sub("foo", ScalarKind::Text)])),
    ];
    let rec = from_str(input, &schema).unwrap();
    assert_eq!(
        *get(&rec, "foo"),
        FieldValue::Inline(vec![entry("bar1", Scalar::Unsigned(255)), entry("bar3", Scalar::Unsigned(1352))])
    );
    assert_eq!(*get(&rec, "bar"), FieldValue::Inline(vec![entry("foo", text("foo"))]));
}

#[test]
fn test_whitespace() {
    let input = r#"foo[bar1: 153, bar2: 245 ] bar[ 4  5  6] bar2[6 7 8 ] bar3[a1 132:185:153 a2 153:134:64:1685 ]"#;
    let schema = vec![
        field(
            "foo",
            FieldKind::Inline(vec![sub("bar1", ScalarKind::Unsigned), sub("bar2", ScalarKind::Unsigned)]),
        ),
        field("bar", FieldKind::List(ScalarKind::Unsigned)),
        field("bar2", FieldKind::List(ScalarKind::Unsigned)),
        field("bar3", FieldKind::Scalar(ScalarKind::Text)),
    ];
    let rec = from_str(input, &schema).unwrap();
    let list = |v: Vec<u64>| FieldValue::List(v.into_iter().map(Scalar::Unsigned).collect());
    assert_eq!(
        *get(&rec, "foo"),
        FieldValue::Inline(vec![entry("bar1", Scalar::Unsigned(153)), entry("bar2", Scalar::Unsigned(245))])
    );
    assert_eq!(*get(&rec, "bar"), list(vec![4, 5, 6]));
    assert_eq!(*get(&rec, "bar2"), list(vec![6, 7, 8]));
    assert_eq!(*get(&rec, "bar3"), FieldValue::Scalar(text("a1 132:185:153 a2 153:134:64:1685")));
}

#[test]
fn test_floats() {
    let input = r#"foo[50%] bar[0.5%] baz[0.5]"#;
    let schema = vec![
        field("foo", FieldKind::Scalar(ScalarKind::Float)),
        field("bar", FieldKind::Scalar(ScalarKind::Float)),
        field("baz", FieldKind::Scalar(ScalarKind::Float)),
    ];
    let rec = from_str(input, &schema).unwrap();
    assert_eq!(float_of(get(&rec, "foo")), 0.5);
    assert_eq!(float_of(get(&rec, "bar")), 0.005);
    assert_eq!(float_of(get(&rec, "baz")), 0.5);
}

#[test]
fn test_ints() {
    let input = r#"foo[-5 -3 -4 -6 81]"#;
    let schema = vec![field("foo", FieldKind::List(ScalarKind::Signed))];
    let rec = from_str(input, &schema).unwrap();
    let expected: Vec<Scalar> = vec![-5i64, -3, -4, -6, 81].into_iter().map(Scalar::Signed).collect();
    assert_eq!(*get(&rec, "foo"), FieldValue::List(expected));
}

#[test]
fn asc_it_parses() {
    let input = "PS[0 1197 1249 260 3247 1248]";
    let schema = vec![field("PS", FieldKind::List(ScalarKind::Unsigned))];
    let rec = from_str(input, &schema).unwrap();
    let v: Vec<u32> = match get(&rec, "PS") {
        FieldValue::List(items) => items
            .iter()
            .map(|s| match s {
                Scalar::Unsigned(u) => *u as u32,
                other => panic!("not unsigned: {:?}", other),
            })
            .collect(),
        other => panic!("not a list: {:?}", other),
    };
    let ps = PowerSupplyInfo::from_values([v[0], v[1], v[2], v[3], v[4], v[5]]);
    assert_eq!(ps.err, 0);
    assert_eq!(ps.volt_cntrl as f32 / 100.0, 11.97);
    assert_eq!(ps.volt_hash as f32 / 100.0, 12.49);
    assert_eq!(ps.current, 260);
    assert_eq!(ps.power, 3247);
    assert_eq!(ps.set_volt_hash as f32 / 100.0, 12.48);
}

#[test]
fn bare_integer_in_float_field_is_hundredths() {
    let schema = vec![field("t", FieldKind::Scalar(ScalarKind::Float))];
    let rec = from_str("t[4525]", &schema).unwrap();
    assert_eq!(float_of(get(&rec, "t")), 45.25);
    let rec = from_str("t[-150]", &schema).unwrap();
    assert_eq!(float_of(get(&rec, "t")), -1.5);
}

#[test]
fn negative_value_in_unsigned_field_is_refused() {
    let schema = vec![field("u", FieldKind::Scalar(ScalarKind::Unsigned))];
    assert_eq!(
        from_str("u[-1]", &schema).unwrap_err(),
        DeError { code: ErrorCode::NumberOutOfRange, column: 3 }
    );
}

#[test]
fn large_value_in_signed_field_is_refused() {
    let schema = vec![field("s", FieldKind::Scalar(ScalarKind::Signed))];
    assert_eq!(
        from_str("s[9223372036854775808]", &schema).unwrap_err(),
        DeError { code: ErrorCode::NumberOutOfRange, column: 20 }
    );
    let rec = from_str("s[9223372036854775807]", &schema).unwrap();
    assert_eq!(*get(&rec, "s"), FieldValue::Scalar(Scalar::Signed(i64::MAX)));
}

#[test]
fn largest_integers_decode() {
    let schema = vec![
        field("u", FieldKind::Scalar(ScalarKind::Unsigned)),
        field("s", FieldKind::Scalar(ScalarKind::Signed)),
    ];
    let rec = from_str("u[18446744073709551615] s[-9223372036854775808]", &schema).unwrap();
    assert_eq!(*get(&rec, "u"), FieldValue::Scalar(Scalar::Unsigned(u64::MAX)));
    assert_eq!(*get(&rec, "s"), FieldValue::Scalar(Scalar::Signed(i64::MIN)));
}

#[test]
fn overflow_is_reported_at_its_digit() {
    let schema = vec![field("u", FieldKind::Scalar(ScalarKind::Unsigned))];
    let err = from_str("u[18446744073709551616]", &schema).unwrap_err();
    assert_eq!(err, DeError { code: ErrorCode::Overflow, column: 20 });
    let schema = vec![field("s", FieldKind::Scalar(ScalarKind::Signed))];
    let err = from_str("s[-9223372036854775809]", &schema).unwrap_err();
    assert_eq!(err.code, ErrorCode::Overflow);
}

#[test]
fn empty_input_is_an_empty_record() {
    let schema = vec![field("a", FieldKind::Scalar(ScalarKind::Text))];
    assert_eq!(from_str("", &schema).unwrap(), vec![]);
}

#[test]
fn syntax_errors_carry_their_column() {
    let text_schema = vec![field("a", FieldKind::Scalar(ScalarKind::Text))];
    assert_eq!(
        from_str("a:b", &text_schema).unwrap_err(),
        DeError { code: ErrorCode::ExpectedMapBracket, column: 1 }
    );
    assert_eq!(from_str("a[b", &text_schema).unwrap_err(), DeError { code: ErrorCode::Eof, column: 2 });
    assert_eq!(
        from_str("a[b] c", &text_schema).unwrap_err(),
        DeError { code: ErrorCode::Eof, column: 5 }
    );
    assert_eq!(
        from_str("a[b]x", &text_schema).unwrap_err(),
        DeError { code: ErrorCode::ExpectedChar(b' ', b'x'), column: 4 }
    );
    let num_schema = vec![field("n", FieldKind::Scalar(ScalarKind::Unsigned))];
    assert_eq!(
        from_str("n[x]", &num_schema).unwrap_err(),
        DeError { code: ErrorCode::InvalidNumber, column: 1 }
    );
    assert_eq!(
        from_str("n[-x]", &num_schema).unwrap_err(),
        DeError { code: ErrorCode::ExpectedUnsignedInteger, column: 3 }
    );
    assert_eq!(
        from_str("n[1.5]", &num_schema).unwrap_err(),
        DeError { code: ErrorCode::InvalidNumber, column: 4 }
    );
    let float_schema = vec![field("f", FieldKind::Scalar(ScalarKind::Float))];
    assert_eq!(
        from_str("f[1.]", &float_schema).unwrap_err(),
        DeError { code: ErrorCode::InvalidNumber, column: 3 }
    );
    let list_schema = vec![field("l", FieldKind::List(ScalarKind::Unsigned))];
    assert_eq!(
        from_str("l[1;2]", &list_schema).unwrap_err(),
        DeError { code: ErrorCode::ExpectedChar(b' ', b';'), column: 3 }
    );
    let map_schema = vec![field("m", FieldKind::Inline(vec![sub("k", ScalarKind::Unsigned)]))];
    assert_eq!(
        from_str("m[k=1]", &map_schema).unwrap_err(),
        DeError { code: ErrorCode::ExpectedChar(b':', b']'), column: 5 }
    );
}

#[test]
fn cursor_primitives() {
    let mut de = MsgDeserializer::from_str("ab");
    assert_eq!(de.peek(), Some(b'a'));
    assert_eq!(de.peek2(), Some((b'a', b'b')));
    assert_eq!(de.next(), Some(b'a'));
    assert_eq!(de.pos(), 0);
    assert_eq!(de.peek_or_null(), b'b');
    de.discard();
    assert_eq!(de.peek(), None);
    assert_eq!(de.peek_or_null(), 0);
    assert_eq!(de.next_some(), Err(DeError { code: ErrorCode::Eof, column: 1 }));
    let mut de = MsgDeserializer::from_str("x");
    assert_eq!(de.expect(b'y'), Err(DeError { code: ErrorCode::ExpectedChar(b'y', b'x'), column: 0 }));
}

#[test]
fn number_tokens() {
    let mut de = MsgDeserializer::from_str("12.50%");
    assert_eq!(de.deserialize_number(), Ok(Number::Dec(Decimal { negative: false, mantissa: 1250, scale: 4 })));
    let mut de = MsgDeserializer::from_str("-7");
    assert_eq!(de.deserialize_number(), Ok(Number::I64(-7)));
    assert_eq!(negate(Number::U64(1u64 << 63)), Some(Number::I64(i64::MIN)));
    assert_eq!(negate(Number::U64((1u64 << 63) + 1)), None);
}

fn encode_scalar(s: &Scalar) -> String {
    match s {
        Scalar::Unsigned(u) => u.to_string(),
        Scalar::Signed(v) => v.to_string(),
        Scalar::Text(t) => String::from_utf8(t.clone()).unwrap(),
        other => panic!("not written: {:?}", other),
    }
}

fn encode_record(rec: &[RecordEntry]) -> String {
    rec.iter()
        .map(|e| {
            let value = match &e.value {
                FieldValue::Scalar(s) => encode_scalar(s),
                FieldValue::List(items) => items.iter().map(encode_scalar).collect::<Vec<_>>().join(" "),
                FieldValue::Inline(es) => es
                    .iter()
                    .map(|m| format!("{}:{}", String::from_utf8(m.key.clone()).unwrap(), encode_scalar(&m.value)))
                    .collect::<Vec<_>>()
                    .join(" "),
            };
            format!("{}[{}]", String::from_utf8(e.key.clone()).unwrap(), value)
        })
        .collect::<Vec<_>>()
        .join(" ")
}

#[test]
fn decode_encode_decode_is_stable() {
    let schema = vec![
        field("ver", FieldKind::Scalar(ScalarKind::Text)),
        field("elapsed", FieldKind::Scalar(ScalarKind::Unsigned)),
        field("fan", FieldKind::List(ScalarKind::Unsigned)),
        field("off", FieldKind::Scalar(ScalarKind::Signed)),
        field("pw", FieldKind::Inline(vec![sub("volt", ScalarKind::Unsigned), sub("delta", ScalarKind::Signed)])),
    ];
    let input = "ver[4.11.1 ] extra[x y] elapsed[0012] fan[ 1200  1310, 0] off[-07] pw[volt: 1197, delta:-3 ]";
    let first = from_str(input, &schema).unwrap();
    let written = encode_record(&first);
    assert_eq!(written, "ver[4.11.1] elapsed[12] fan[1200 1310 0] off[-7] pw[volt:1197 delta:-3]");
    let second = from_str(&written, &schema).unwrap();
    assert_eq!(first, second);
}
