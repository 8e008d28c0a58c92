use eager_const::{push_number, to_string, Datum, Error, Field};

fn text(value: &Datum) -> String {
    to_string(value).expect("the value has a literal form")
}

fn name(s: &str) -> String {
    s.to_string()
}

fn numbers(items: &[u64]) -> Vec<Datum> {
    items.iter().map(|n| Datum::Unsigned(*n)).collect()
}

#[test]
fn booleans_are_keywords() {
    assert_eq!(text(&Datum::Bool(true)), "true");
    assert_eq!(text(&Datum::Bool(false)), "false");
}

#[test]
fn integers_are_decimal() {
    assert_eq!(text(&Datum::Unsigned(0)), "0");
    assert_eq!(text(&Datum::Unsigned(7)), "7");
    assert_eq!(text(&Datum::Unsigned(10)), "10");
    assert_eq!(text(&Datum::Unsigned(42)), "42");
    assert_eq!(text(&Datum::Unsigned(u64::MAX)), "18446744073709551615");
    assert_eq!(text(&Datum::Signed(0)), "0");
    assert_eq!(text(&Datum::Signed(-1)), "-1");
    assert_eq!(text(&Datum::Signed(1234567890)), "1234567890");
    assert_eq!(text(&Datum::Signed(i64::MAX)), "9223372036854775807");
    assert_eq!(text(&Datum::Signed(i64::MIN)), "-9223372036854775808");
}

#[test]
fn integers_agree_with_the_standard_formatting() {
    let mut n: u64 = 1;
    for _ in 0..64 {
        assert_eq!(text(&Datum::Unsigned(n)), n.to_string());
        assert_eq!(text(&Datum::Unsigned(n - 1)), (n - 1).to_string());
        let signed = n as i64;
        assert_eq!(text(&Datum::Signed(signed)), signed.to_string());
        assert_eq!(text(&Datum::Signed(signed.wrapping_neg())), signed.wrapping_neg().to_string());
        n = n.wrapping_mul(2);
    }
    for n in 0..1200u64 {
        assert_eq!(text(&Datum::Unsigned(n)), n.to_string());
        assert_eq!(text(&Datum::Signed(-(n as i64))), (-(n as i64)).to_string());
    }
}

#[test]
fn floats_are_their_decimal_text() {
    assert_eq!(text(&Datum::Float((1.5f64).to_string())), "1.5");
    assert_eq!(text(&Datum::Float((-0.25f64).to_string())), "-0.25");
    assert_eq!(text(&Datum::List(vec![Datum::Float(name("2.5"))])), "&[2.5,]");
}

#[test]
fn characters_stand_between_single_quotes() {
    assert_eq!(text(&Datum::Char('a')), "'a'");
    assert_eq!(text(&Datum::Char('é')), "'é'");
    assert_eq!(text(&Datum::Char(' ')), "' '");
}

#[test]
fn strings_stand_between_double_quotes() {
    assert_eq!(text(&Datum::Str(name("Kalle"))), "\"Kalle\"");
    assert_eq!(text(&Datum::Str(name(""))), "\"\"");
    assert_eq!(text(&Datum::Str(name("two words"))), "\"two words\"");
}

#[test]
fn strings_are_inserted_raw() {
    assert_eq!(text(&Datum::Str(name("a\"b"))), "\"a\"b\"");
    assert_eq!(text(&Datum::Str(name("a\\n"))), "\"a\\n\"");
    assert_eq!(text(&Datum::Char('\'')), "'''");
}

#[test]
fn bytes_follow_an_empty_byte_string() {
    assert_eq!(text(&Datum::Bytes(vec![1, 2, 255])), "b\"\"&[1,2,255,]");
    assert_eq!(text(&Datum::Bytes(vec![])), "b\"\"&[]");
}

#[test]
fn options_are_none_and_some() {
    assert_eq!(text(&Datum::Absent), "None");
    assert_eq!(text(&Datum::Present(Box::new(Datum::Unsigned(5)))), "Some(5)");
    assert_eq!(
        text(&Datum::Present(Box::new(Datum::Present(Box::new(Datum::Absent))))),
        "Some(Some(None))"
    );
}

#[test]
fn unit_is_an_empty_pair_of_parentheses() {
    assert_eq!(text(&Datum::Unit), "()");
}

#[test]
fn unit_shapes_are_their_path() {
    assert_eq!(text(&Datum::UnitStruct { name: name("Marker") }), "Marker");
    assert_eq!(
        text(&Datum::UnitVariant { name: name("Color"), variant: name("Red") }),
        "Color::Red"
    );
}

#[test]
fn newtypes_wrap_their_value() {
    assert_eq!(
        text(&Datum::NewtypeStruct { name: name("Meters"), value: Box::new(Datum::Unsigned(5)) }),
        "Meters(5)"
    );
    assert_eq!(
        text(&Datum::NewtypeVariant {
            name: name("Shape"),
            variant: name("Circle"),
            value: Box::new(Datum::Signed(-3)),
        }),
        "Shape::Circle(-3)"
    );
}

#[test]
fn sequence_of_four_integers() {
    assert_eq!(text(&Datum::List(numbers(&[1, 2, 3, 4]))), "&[1,2,3,4,]");
}

#[test]
fn empty_sequence() {
    assert_eq!(text(&Datum::List(vec![])), "&[]");
}

#[test]
fn nested_sequences() {
    let value = Datum::List(vec![Datum::List(numbers(&[1])), Datum::List(numbers(&[2, 3]))]);
    assert_eq!(text(&value), "&[&[1,],&[2,3,],]");
}

#[test]
fn tuples_and_their_named_forms() {
    let pair = vec![Datum::Unsigned(1), Datum::Str(name("a"))];
    assert_eq!(text(&Datum::Tuple(pair)), "(1,\"a\",)");
    assert_eq!(
        text(&Datum::TupleStruct { name: name("Point"), elements: numbers(&[1, 2]) }),
        "Point(1,2,)"
    );
    assert_eq!(
        text(&Datum::TupleVariant {
            name: name("Shape"),
            variant: name("Rect"),
            elements: numbers(&[3, 4]),
        }),
        "Shape::Rect(3,4,)"
    );
}

#[test]
fn struct_with_named_fields() {
    let value = Datum::Struct {
        name: name("Foo"),
        fields: vec![
            Field { key: name("name"), value: Datum::Str(name("Kalle")) },
            Field { key: name("age"), value: Datum::Unsigned(42) },
        ],
    };
    assert_eq!(text(&value), "Foo{name:\"Kalle\",age:42,}");
}

#[test]
fn struct_variant_and_empty_struct() {
    let value = Datum::StructVariant {
        name: name("Event"),
        variant: name("Key"),
        fields: vec![Field { key: name("code"), value: Datum::Char('x') }],
    };
    assert_eq!(text(&value), "Event::Key{code:'x',}");
    assert_eq!(text(&Datum::Struct { name: name("Empty"), fields: vec![] }), "Empty{}");
}

#[test]
fn mapping_is_unsupported() {
    let e = to_string(&Datum::Mapping).expect_err("a mapping has no literal form");
    assert_eq!(e.description(), "serialize_map: unsupported");
    assert_eq!(e.message(), "serialize_map: unsupported");
    assert!(e.message().contains("unsupported"));
}

#[test]
fn mapping_inside_a_value_is_unsupported() {
    let inside_list = Datum::List(vec![Datum::Unsigned(1), Datum::Mapping, Datum::Unsigned(2)]);
    assert!(to_string(&inside_list).is_err());
    let inside_field = Datum::Struct {
        name: name("Config"),
        fields: vec![Field { key: name("table"), value: Datum::Present(Box::new(Datum::Mapping)) }],
    };
    let e = to_string(&inside_field).expect_err("a mapping has no literal form");
    assert_eq!(e.description(), "serialize_map: unsupported");
    let inside_tuple = Datum::TupleStruct { name: name("T"), elements: vec![Datum::Mapping] };
    assert!(to_string(&inside_tuple).is_err());
    let inside_newtype =
        Datum::NewtypeStruct { name: name("N"), value: Box::new(Datum::Mapping) };
    assert!(to_string(&inside_newtype).is_err());
}

#[test]
fn custom_error_keeps_its_message() {
    let e = Error::custom("no such thing");
    assert_eq!(e.description(), "no such thing");
    assert_eq!(e.message(), "no such thing");
}

#[test]
fn push_number_spells_the_first_two() {
    let mut s = String::new();
    push_number(&mut s, 1);
    assert_eq!(s, "one, ");
    push_number(&mut s, 2);
    assert_eq!(s, "one, two, ");
    push_number(&mut s, 3);
    assert_eq!(s, "one, two, 3");
}

#[test]
fn push_number_writes_the_others_in_digits() {
    for n in [0usize, 3, 9, 10, 11, 99, 100, 65535, usize::MAX] {
        let mut s = String::from("n=");
        push_number(&mut s, n);
        assert_eq!(s, format!("n={}", n));
    }
}

#[test]
fn greeting_built_by_a_loop_becomes_a_quoted_string() {
    let mut s = String::new();
    s.push_str("Hello! Generating things at compile time is as easy as ");
    for n in 1..=3 {
        push_number(&mut s, n);
    }
    s.push_str("!");
    s.push_str(" Maybe some day we will be able to use a plain const fn for this.");
    let expected = "\"Hello! Generating things at compile time is as easy as one, two, 3! Maybe some day we will be able to use a plain const fn for this.\"";
    assert_eq!(text(&Datum::Str(s)), expected);
}
