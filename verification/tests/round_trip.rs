use eager_const::{to_string, Datum, Field};
use syn::{Expr, ExprLit, Lit, Member, UnOp};

fn name(s: &str) -> String {
    s.to_string()
}

fn path_is(path: &syn::Path, name: &str, variant: Option<&str>) -> bool {
    let segments: Vec<String> = path.segments.iter().map(|s| s.ident.to_string()).collect();
    match variant {
        Some(variant) => segments == [name.to_string(), variant.to_string()],
        None => segments == [name.to_string()],
    }
}

fn all_denote(elems: Vec<&Expr>, values: &[Datum]) -> bool {
    elems.len() == values.len() && elems.iter().zip(values).all(|(e, v)| denotes(e, v))
}

fn call_denotes(expr: &Expr, name: &str, variant: Option<&str>, values: &[Datum], comma: bool) -> bool {
    match expr {
        Expr::Call(call) => {
            let callee = match &*call.func {
                Expr::Path(p) => path_is(&p.path, name, variant),
                _ => false,
            };
            callee
                && (call.args.is_empty() || call.args.trailing_punct() == comma)
                && all_denote(call.args.iter().collect(), values)
        }
        _ => false,
    }
}

fn struct_denotes(expr: &Expr, name: &str, variant: Option<&str>, fields: &[Field]) -> bool {
    match expr {
        Expr::Struct(s) => {
            path_is(&s.path, name, variant)
                && s.fields.len() == fields.len()
                && s.fields.iter().zip(fields).all(|(written, field)| {
                    let key = match &written.member {
                        Member::Named(ident) => ident.to_string(),
                        Member::Unnamed(index) => index.index.to_string(),
                    };
                    key == field.key && denotes(&written.expr, &field.value)
                })
        }
        _ => false,
    }
}

/// Whether the expression, evaluated, is the value.
fn denotes(expr: &Expr, value: &Datum) -> bool {
    match (value, expr) {
        (Datum::Bool(b), Expr::Lit(ExprLit { lit: Lit::Bool(l), .. })) => l.value == *b,
        (Datum::Unsigned(n), Expr::Lit(ExprLit { lit: Lit::Int(l), .. })) => {
            l.base10_parse::<u64>().ok() == Some(*n)
        }
        (Datum::Signed(n), Expr::Lit(ExprLit { lit: Lit::Int(l), .. })) => {
            l.base10_parse::<i64>().ok() == Some(*n)
        }
        (Datum::Signed(n), Expr::Unary(u)) => match (&u.op, &*u.expr) {
            (UnOp::Neg(_), Expr::Lit(ExprLit { lit: Lit::Int(l), .. })) => {
                l.base10_parse::<i128>().ok().map(|m| -m) == Some(i128::from(*n))
            }
            _ => false,
        },
        (Datum::Char(c), Expr::Lit(ExprLit { lit: Lit::Char(l), .. })) => l.value() == *c,
        (Datum::Str(s), Expr::Lit(ExprLit { lit: Lit::Str(l), .. })) => l.value() == *s,
        (Datum::Absent, Expr::Path(p)) => path_is(&p.path, "None", None),
        (Datum::Present(inner), _) => {
            call_denotes(expr, "Some", None, std::slice::from_ref(&**inner), false)
        }
        (Datum::Unit, Expr::Tuple(t)) => t.elems.is_empty(),
        (Datum::UnitStruct { name }, Expr::Path(p)) => path_is(&p.path, name, None),
        (Datum::UnitVariant { name, variant }, Expr::Path(p)) => {
            path_is(&p.path, name, Some(variant))
        }
        (Datum::NewtypeStruct { name, value }, _) => {
            call_denotes(expr, name, None, std::slice::from_ref(&**value), false)
        }
        (Datum::NewtypeVariant { name, variant, value }, _) => {
            call_denotes(expr, name, Some(variant), std::slice::from_ref(&**value), false)
        }
        (Datum::List(items), Expr::Reference(r)) => match &*r.expr {
            Expr::Array(a) => r.mutability.is_none() && all_denote(a.elems.iter().collect(), items),
            _ => false,
        },
        (Datum::Tuple(items), Expr::Tuple(t)) => {
            !items.is_empty() && all_denote(t.elems.iter().collect(), items)
        }
        (Datum::TupleStruct { name, elements }, _) => {
            call_denotes(expr, name, None, elements, true)
        }
        (Datum::TupleVariant { name, variant, elements }, _) => {
            call_denotes(expr, name, Some(variant), elements, true)
        }
        (Datum::Struct { name, fields }, _) => struct_denotes(expr, name, None, fields),
        (Datum::StructVariant { name, variant, fields }, _) => {
            struct_denotes(expr, name, Some(variant), fields)
        }
        _ => false,
    }
}

fn reads_back(value: &Datum) -> bool {
    let text = to_string(value).expect("the value has a literal form");
    match syn::parse_str::<Expr>(&text) {
        Ok(expr) => denotes(&expr, value),
        Err(_) => false,
    }
}

fn sample() -> Datum {
    Datum::Struct {
        name: name("Config"),
        fields: vec![
            Field { key: name("title"), value: Datum::Str(name("Hello! one, two, 3!")) },
            Field { key: name("level"), value: Datum::Signed(-7) },
            Field { key: name("initial"), value: Datum::Char('x') },
            Field { key: name("ports"), value: Datum::List(vec![Datum::Unsigned(80), Datum::Unsigned(443)]) },
            Field { key: name("limit"), value: Datum::Present(Box::new(Datum::Unsigned(u64::MAX))) },
            Field { key: name("parent"), value: Datum::Absent },
            Field { key: name("mode"), value: Datum::UnitVariant { name: name("Mode"), variant: name("Fast") } },
            Field {
                key: name("origin"),
                value: Datum::TupleStruct {
                    name: name("Point"),
                    elements: vec![Datum::Signed(i64::MIN), Datum::Signed(i64::MAX)],
                },
            },
            Field {
                key: name("shape"),
                value: Datum::StructVariant {
                    name: name("Shape"),
                    variant: name("Rect"),
                    fields: vec![Field { key: name("w"), value: Datum::Unsigned(3) }],
                },
            },
            Field { key: name("pair"), value: Datum::Tuple(vec![Datum::Bool(true), Datum::Unit]) },
            Field {
                key: name("wrapped"),
                value: Datum::NewtypeVariant {
                    name: name("Id"),
                    variant: name("Local"),
                    value: Box::new(Datum::NewtypeStruct {
                        name: name("Index"),
                        value: Box::new(Datum::Unsigned(0)),
                    }),
                },
            },
        ],
    }
}

#[test]
fn primitive_values_read_back() {
    for value in [
        Datum::Bool(true),
        Datum::Bool(false),
        Datum::Unsigned(0),
        Datum::Unsigned(u64::MAX),
        Datum::Signed(0),
        Datum::Signed(-1),
        Datum::Signed(i64::MIN),
        Datum::Signed(i64::MAX),
        Datum::Char('a'),
        Datum::Char('"'),
        Datum::Char('ß'),
        Datum::Str(name("")),
        Datum::Str(name("Hello! one, two, 3!")),
        Datum::Str(name("it's a line\nand another\twith a tab")),
        Datum::Unit,
        Datum::Absent,
    ] {
        assert!(reads_back(&value), "{:?}", value);
    }
}

#[test]
fn composite_values_read_back() {
    for value in [
        Datum::Present(Box::new(Datum::Present(Box::new(Datum::Signed(-5))))),
        Datum::List(vec![]),
        Datum::List((1..=4).map(Datum::Unsigned).collect()),
        Datum::List(vec![Datum::List(vec![Datum::Signed(-1)]), Datum::List(vec![])]),
        Datum::Tuple(vec![Datum::Unsigned(1)]),
        Datum::Tuple(vec![Datum::Unsigned(1), Datum::Str(name("a"))]),
        Datum::UnitStruct { name: name("Marker") },
        Datum::UnitVariant { name: name("Color"), variant: name("Red") },
        Datum::NewtypeStruct { name: name("Meters"), value: Box::new(Datum::Unsigned(5)) },
        Datum::TupleStruct { name: name("Empty"), elements: vec![] },
        Datum::TupleStruct { name: name("One"), elements: vec![Datum::Unsigned(1)] },
        Datum::TupleVariant { name: name("E"), variant: name("T"), elements: vec![Datum::Unit, Datum::Absent] },
        Datum::Struct { name: name("Empty"), fields: vec![] },
        sample(),
    ] {
        assert!(reads_back(&value), "{:?}", value);
    }
}

#[test]
fn newtype_and_one_element_tuple_struct_are_told_apart() {
    let newtype = Datum::NewtypeStruct { name: name("N"), value: Box::new(Datum::Unsigned(1)) };
    let tuple = Datum::TupleStruct { name: name("N"), elements: vec![Datum::Unsigned(1)] };
    assert_eq!(to_string(&newtype).unwrap(), "N(1)");
    assert_eq!(to_string(&tuple).unwrap(), "N(1,)");
    let written = syn::parse_str::<Expr>("N(1)").unwrap();
    assert!(denotes(&written, &newtype));
    assert!(!denotes(&written, &tuple));
}

#[test]
fn values_that_need_an_escape_do_not_read_back() {
    assert!(!reads_back(&Datum::Str(name("a\"b"))));
    assert!(!reads_back(&Datum::Str(name("a\\nb"))));
    assert!(!reads_back(&Datum::Str(name("tail\\"))));
    assert!(!reads_back(&Datum::Char('\\')));
}

#[test]
fn shapes_without_a_literal_of_their_own_do_not_read_back() {
    assert!(!reads_back(&Datum::Bytes(vec![1, 2, 3])));
    assert!(!reads_back(&Datum::Tuple(vec![])));
    assert!(!reads_back(&Datum::UnitStruct { name: name("true") }));
    assert!(!reads_back(&Datum::UnitStruct { name: name("not a name") }));
    assert!(!reads_back(&Datum::Float(name("1"))));
}
