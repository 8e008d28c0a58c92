//! The values that the serializer can be asked to render, and their
//! mathematical model.

use vstd::prelude::*;

verus! {

/// A constructor path: `Name`, or `Name::Variant` for a variant of an enum.
pub struct Ctor {
    pub name: Seq<char>,
    pub variant: Option<Seq<char>>,
}

/// The mathematical model of a [`Datum`].
///
/// Machine widths are gone (every integer is an `int`), and the shapes that
/// share a literal form share a variant: a unit struct and a unit variant are
/// both `Named`, a tuple, a tuple struct and a tuple variant are all `Tuple`.
pub enum Lit {
    Bool(bool),
    Int(int),
    /// A floating-point number, given by its decimal text.
    Float(Seq<char>),
    Char(char),
    Str(Seq<char>),
    Bytes(Seq<u8>),
    Absent,
    Present(Box<Lit>),
    Unit,
    Named(Ctor),
    Newtype(Ctor, Box<Lit>),
    List(Seq<Lit>),
    Tuple(Option<Ctor>, Seq<Lit>),
    Record(Ctor, Seq<(Seq<char>, Lit)>),
    Mapping,
}

/// A structured value, shaped after the data model that serializers are
/// driven by.
#[derive(Debug)]
pub enum Datum {
    Bool(bool),
    /// A signed integer of any width, widened to 64 bits.
    Signed(i64),
    /// An unsigned integer of any width, widened to 64 bits.
    Unsigned(u64),
    /// A floating-point number of any width, carried as its decimal text.
    Float(String),
    Char(char),
    Str(String),
    Bytes(Vec<u8>),
    /// An option that holds nothing.
    Absent,
    /// An option that holds a value.
    Present(Box<Datum>),
    Unit,
    UnitStruct { name: String },
    UnitVariant { name: String, variant: String },
    NewtypeStruct { name: String, value: Box<Datum> },
    NewtypeVariant { name: String, variant: String, value: Box<Datum> },
    List(Vec<Datum>),
    Tuple(Vec<Datum>),
    TupleStruct { name: String, elements: Vec<Datum> },
    TupleVariant { name: String, variant: String, elements: Vec<Datum> },
    /// A keyed mapping. No literal form exists for it, so its entries are
    /// not held.
    Mapping,
    Struct { name: String, fields: Vec<Field> },
    StructVariant { name: String, variant: String, fields: Vec<Field> },
}

/// A named field of a struct-shaped value.
#[derive(Debug)]
pub struct Field {
    pub key: String,
    pub value: Datum,
}

/// The path of a struct or of a variant of an enum.
pub open spec fn path(name: Seq<char>, variant: Option<Seq<char>>) -> Ctor {
    Ctor { name, variant }
}

/// The model of a value.
pub open spec fn lit(value: &Datum) -> Lit
    decreases value,
{
    match value {
        Datum::Bool(b) => Lit::Bool(*b),
        Datum::Signed(n) => Lit::Int(*n as int),
        Datum::Unsigned(n) => Lit::Int(*n as int),
        Datum::Float(text) => Lit::Float(text@),
        Datum::Char(c) => Lit::Char(*c),
        Datum::Str(s) => Lit::Str(s@),
        Datum::Bytes(bytes) => Lit::Bytes(bytes@),
        Datum::Absent => Lit::Absent,
        Datum::Present(inner) => Lit::Present(Box::new(lit(&**inner))),
        Datum::Unit => Lit::Unit,
        Datum::UnitStruct { name } => Lit::Named(path(name@, None)),
        Datum::UnitVariant { name, variant } => Lit::Named(path(name@, Some(variant@))),
        Datum::NewtypeStruct { name, value: inner } => Lit::Newtype(
            path(name@, None),
            Box::new(lit(&**inner)),
        ),
        Datum::NewtypeVariant { name, variant, value: inner } => Lit::Newtype(
            path(name@, Some(variant@)),
            Box::new(lit(&**inner)),
        ),
        Datum::List(items) => Lit::List(lits(items)),
        Datum::Tuple(items) => Lit::Tuple(None, lits(items)),
        Datum::TupleStruct { name, elements } => Lit::Tuple(
            Some(path(name@, None)),
            lits(elements),
        ),
        Datum::TupleVariant { name, variant, elements } => Lit::Tuple(
            Some(path(name@, Some(variant@))),
            lits(elements),
        ),
        Datum::Mapping => Lit::Mapping,
        Datum::Struct { name, fields } => Lit::Record(path(name@, None), field_lits(fields)),
        Datum::StructVariant { name, variant, fields } => Lit::Record(
            path(name@, Some(variant@)),
            field_lits(fields),
        ),
    }
}

/// The model of a field: its key and the model of its value.
pub open spec fn field_lit(field: &Field) -> (Seq<char>, Lit)
    decreases field,
{
    (field.key@, lit(&field.value))
}

/// The models of a list of values, in order.
pub open spec fn lits(items: &Vec<Datum>) -> Seq<Lit>
    decreases items,
{
    Seq::new(
        items.len() as nat,
        |i: int|
            if 0 <= i < items.len() {
                lit(&items[i])
            } else {
                Lit::Unit
            },
    )
}

/// The models of a list of fields, in order.
pub open spec fn field_lits(fields: &Vec<Field>) -> Seq<(Seq<char>, Lit)>
    decreases fields,
{
    Seq::new(
        fields.len() as nat,
        |i: int|
            if 0 <= i < fields.len() {
                field_lit(&fields[i])
            } else {
                (Seq::empty(), Lit::Unit)
            },
    )
}

impl View for Datum {
    type V = Lit;

    open spec fn view(&self) -> Lit {
        lit(self)
    }
}

impl View for Field {
    type V = (Seq<char>, Lit);

    open spec fn view(&self) -> (Seq<char>, Lit) {
        field_lit(self)
    }
}

} // verus!
