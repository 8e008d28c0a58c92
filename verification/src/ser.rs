//! The literal-syntax serializer: renders a value as the source text of a
//! literal expression.

use crate::grammar::{is_plain, lemma_round_trip, parse};
use crate::number::{decimal, push_signed, push_unsigned};
use crate::text::{push_char, push_text};
use crate::value::{field_lits, lits, Ctor, Datum, Field, Lit};
use vstd::prelude::*;

verus! {

/// Why a value could not be rendered.
#[derive(Debug)]
pub struct Error(String);

impl View for Error {
    type V = Seq<char>;

    closed spec fn view(&self) -> Seq<char> {
        self.0@
    }
}

impl Error {
    /// An error that carries `msg`.
    pub fn custom(msg: &str) -> (e: Error)
        ensures
            e@ == msg@,
    {
        Error(msg.to_owned())
    }

    /// The message of the error.
    pub fn description(&self) -> (msg: &str)
        ensures
            msg@ == self@,
    {
        self.0.as_str()
    }

    /// The message of the error, as an owned text.
    pub fn message(&self) -> (msg: String)
        ensures
            msg@ == self@,
    {
        self.0.clone()
    }
}

/// The message of the error that a keyed mapping is answered with.
pub open spec fn unsupported() -> Seq<char> {
    "serialize_map: unsupported"@
}

/// The text of a constructor path: `Name` or `Name::Variant`.
pub open spec fn ctor_text(c: Ctor) -> Seq<char> {
    match c.variant {
        None => c.name,
        Some(variant) => c.name + "::"@ + variant,
    }
}

/// What stands before the opening parenthesis of a tuple: nothing for a
/// plain tuple, the path for a tuple struct or a tuple variant.
pub open spec fn tuple_head(c: Option<Ctor>) -> Seq<char> {
    match c {
        None => Seq::empty(),
        Some(c) => ctor_text(c),
    }
}

/// `inner` between `open` and `close`, where there is an `inner`.
pub open spec fn enclosed(open: Seq<char>, inner: Option<Seq<char>>, close: Seq<char>) -> Option<
    Seq<char>,
> {
    match inner {
        Some(text) => Some(open + text + close),
        None => None,
    }
}

/// The elements of a byte sequence: each byte in decimal, followed by a comma.
pub open spec fn byte_items(bytes: Seq<u8>) -> Seq<char>
    decreases bytes.len(),
{
    if bytes.len() == 0 {
        Seq::empty()
    } else {
        decimal(bytes[0] as int) + ","@ + byte_items(bytes.drop_first())
    }
}

/// The literal text of a value, or `None` where the value holds a keyed
/// mapping anywhere inside: a mapping has no literal form.
///
/// Texts are inserted raw: neither a string nor a character is escaped. The
/// text of a byte sequence is an empty byte-string literal followed by the
/// list of the bytes, so the bytes never stand between the quotes, and the
/// whole is not one literal.
pub open spec fn encoding(v: Lit) -> Option<Seq<char>>
    decreases v,
{
    match v {
        Lit::Bool(b) => Some(
            if b {
                "true"@
            } else {
                "false"@
            },
        ),
        Lit::Int(n) => Some(decimal(n)),
        Lit::Float(text) => Some(text),
        Lit::Char(c) => Some("'"@.push(c) + "'"@),
        Lit::Str(s) => Some("\""@ + s + "\""@),
        Lit::Bytes(bytes) => Some("b\""@ + "\""@ + "&["@ + byte_items(bytes) + "]"@),
        Lit::Absent => Some("None"@),
        Lit::Present(inner) => enclosed("Some("@, encoding(*inner), ")"@),
        Lit::Unit => Some("()"@),
        Lit::Named(c) => Some(ctor_text(c)),
        Lit::Newtype(c, inner) => enclosed(ctor_text(c) + "("@, encoding(*inner), ")"@),
        Lit::List(items) => enclosed("&["@, encoding_all(items), "]"@),
        Lit::Tuple(c, items) => enclosed(tuple_head(c) + "("@, encoding_all(items), ")"@),
        Lit::Record(c, fields) => enclosed(ctor_text(c) + "{"@, encoding_fields(fields), "}"@),
        Lit::Mapping => None,
    }
}

/// The texts of the elements of a sequence or tuple, each followed by a
/// comma (so a comma stands after the last one too).
pub open spec fn encoding_all(items: Seq<Lit>) -> Option<Seq<char>>
    decreases items,
{
    if items.len() == 0 {
        Some(Seq::empty())
    } else {
        match (encoding(items[0]), encoding_all(items.drop_first())) {
            (Some(first), Some(rest)) => Some(first + ","@ + rest),
            _ => None,
        }
    }
}

/// The text of one named field: `key:value,`.
pub open spec fn encoding_field(field: (Seq<char>, Lit)) -> Option<Seq<char>>
    decreases field,
{
    enclosed(field.0 + ":"@, encoding(field.1), ","@)
}

/// The texts of the named fields of a struct, in order.
pub open spec fn encoding_fields(fields: Seq<(Seq<char>, Lit)>) -> Option<Seq<char>>
    decreases fields,
{
    if fields.len() == 0 {
        Some(Seq::empty())
    } else {
        match (encoding_field(fields[0]), encoding_fields(fields.drop_first())) {
            (Some(first), Some(rest)) => Some(first + rest),
            _ => None,
        }
    }
}

/// The text being built.
struct Serializer {
    output: String,
}

/// The serializer has gone from `before` to `after` by appending `text`.
spec fn appended(before: Serializer, after: Serializer, text: Seq<char>) -> bool {
    after.output@ == before.output@ + text
}

/// The outcome of rendering something whose literal text is `text`: the
/// text was appended, or there is none and the mapping error came back.
spec fn rendered(
    before: Serializer,
    after: Serializer,
    text: Option<Seq<char>>,
    r: Result<(), Error>,
) -> bool {
    match text {
        Some(text) => r is Ok && appended(before, after, text),
        None => r matches Err(e) && e@ == unsupported(),
    }
}

impl Serializer {
    fn new() -> (s: Serializer)
        ensures
            s.output@ == Seq::<char>::empty(),
    {
        Serializer { output: String::new() }
    }

    fn serialize_bool(&mut self, v: bool) -> (r: Result<(), Error>)
        ensures
            r is Ok,
            appended(*old(self), *final(self), if v { "true"@ } else { "false"@ }),
    {
        push_text(&mut self.output, if v { "true" } else { "false" });
        Ok(())
    }

    fn serialize_i64(&mut self, v: i64) -> (r: Result<(), Error>)
        ensures
            r is Ok,
            appended(*old(self), *final(self), decimal(v as int)),
    {
        push_signed(&mut self.output, v);
        Ok(())
    }

    fn serialize_u64(&mut self, v: u64) -> (r: Result<(), Error>)
        ensures
            r is Ok,
            appended(*old(self), *final(self), decimal(v as int)),
    {
        push_unsigned(&mut self.output, v);
        Ok(())
    }

    /// Appends the decimal text of a floating-point number, which the caller
    /// has formatted.
    fn serialize_float(&mut self, text: &str) -> (r: Result<(), Error>)
        ensures
            r is Ok,
            appended(*old(self), *final(self), text@),
    {
        push_text(&mut self.output, text);
        Ok(())
    }

    fn serialize_char(&mut self, v: char) -> (r: Result<(), Error>)
        ensures
            r is Ok,
            appended(*old(self), *final(self), "'"@.push(v) + "'"@),
    {
        push_text(&mut self.output, "'");
        push_char(&mut self.output, v);
        push_text(&mut self.output, "'");
        assert(self.output@ =~= old(self).output@ + ("'"@.push(v) + "'"@));
        Ok(())
    }

    fn serialize_str(&mut self, v: &str) -> (r: Result<(), Error>)
        ensures
            r is Ok,
            appended(*old(self), *final(self), "\""@ + v@ + "\""@),
    {
        push_text(&mut self.output, "\"");
        push_text(&mut self.output, v);
        push_text(&mut self.output, "\"");
        assert(self.output@ =~= old(self).output@ + ("\""@ + v@ + "\""@));
        Ok(())
    }

    fn serialize_bytes(&mut self, v: &Vec<u8>) -> (r: Result<(), Error>)
        ensures
            r is Ok,
            appended(
                *old(self),
                *final(self),
                "b\""@ + "\""@ + "&["@ + byte_items(v@) + "]"@,
            ),
    {
        push_text(&mut self.output, "b\"");
        push_text(&mut self.output, "\"");
        let _ = self.serialize_seq();
        let ghost head = self.output@;
        let ghost done = Seq::<char>::empty();
        let mut i: usize = 0;
        assert(v@.skip(0) =~= v@);
        while i < v.len()
            invariant
                i <= v.len(),
                self.output@ == head + done,
                byte_items(v@) == done + byte_items(v@.skip(i as int)),
            decreases v.len() - i,
        {
            let byte = v[i];
            let _ = self.serialize_u64(byte as u64);
            push_text(&mut self.output, ",");
            proof {
                let item = decimal(byte as int) + ","@;
                assert(v@.skip(i as int).drop_first() =~= v@.skip(i + 1));
                assert(self.output@ =~= head + (done + item));
                assert(done + byte_items(v@.skip(i as int)) =~= (done + item) + byte_items(
                    v@.skip(i + 1),
                ));
                done = done + item;
            }
            i += 1;
        }
        let _ = self.end_seq();
        assert(self.output@ =~= old(self).output@ + ("b\""@ + "\""@ + "&["@ + byte_items(v@)
            + "]"@));
        Ok(())
    }

    fn serialize_none(&mut self) -> (r: Result<(), Error>)
        ensures
            r is Ok,
            appended(*old(self), *final(self), "None"@),
    {
        push_text(&mut self.output, "None");
        Ok(())
    }

    fn serialize_some(&mut self, value: &Datum) -> (r: Result<(), Error>)
        ensures
            rendered(*old(self), *final(self), enclosed("Some("@, encoding(value@), ")"@), r),
        decreases value, 1nat,
    {
        push_text(&mut self.output, "Some(");
        match self.serialize_value(value) {
            Ok(()) => {},
            Err(e) => {
                return Err(e);
            },
        }
        push_text(&mut self.output, ")");
        assert(self.output@ =~= old(self).output@ + ("Some("@ + encoding(value@)->0 + ")"@));
        Ok(())
    }

    fn serialize_unit(&mut self) -> (r: Result<(), Error>)
        ensures
            r is Ok,
            appended(*old(self), *final(self), "()"@),
    {
        push_text(&mut self.output, "()");
        Ok(())
    }

    fn serialize_unit_struct(&mut self, name: &str) -> (r: Result<(), Error>)
        ensures
            r is Ok,
            appended(*old(self), *final(self), name@),
    {
        push_text(&mut self.output, name);
        Ok(())
    }

    fn serialize_unit_variant(&mut self, name: &str, variant: &str) -> (r: Result<(), Error>)
        ensures
            r is Ok,
            appended(*old(self), *final(self), name@ + "::"@ + variant@),
    {
        push_text(&mut self.output, name);
        push_text(&mut self.output, "::");
        push_text(&mut self.output, variant);
        assert(self.output@ =~= old(self).output@ + (name@ + "::"@ + variant@));
        Ok(())
    }

    fn serialize_newtype_struct(&mut self, name: &str, value: &Datum) -> (r: Result<(), Error>)
        ensures
            rendered(*old(self), *final(self), enclosed(name@ + "("@, encoding(value@), ")"@), r),
        decreases value, 1nat,
    {
        push_text(&mut self.output, name);
        push_text(&mut self.output, "(");
        match self.serialize_value(value) {
            Ok(()) => {},
            Err(e) => {
                return Err(e);
            },
        }
        push_text(&mut self.output, ")");
        assert(self.output@ =~= old(self).output@ + ((name@ + "("@) + encoding(value@)->0 + ")"@));
        Ok(())
    }

    fn serialize_newtype_variant(&mut self, name: &str, variant: &str, value: &Datum) -> (r:
        Result<(), Error>)
        ensures
            rendered(
                *old(self),
                *final(self),
                enclosed(name@ + "::"@ + variant@ + "("@, encoding(value@), ")"@),
                r,
            ),
        decreases value, 1nat,
    {
        push_text(&mut self.output, name);
        push_text(&mut self.output, "::");
        push_text(&mut self.output, variant);
        push_text(&mut self.output, "(");
        match self.serialize_value(value) {
            Ok(()) => {},
            Err(e) => {
                return Err(e);
            },
        }
        push_text(&mut self.output, ")");
        assert(self.output@ =~= old(self).output@ + ((name@ + "::"@ + variant@ + "("@) + encoding(
            value@,
        )->0 + ")"@));
        Ok(())
    }

    /// Opens a sequence.
    fn serialize_seq(&mut self) -> (r: Result<(), Error>)
        ensures
            r is Ok,
            appended(*old(self), *final(self), "&["@),
    {
        push_text(&mut self.output, "&[");
        Ok(())
    }

    /// Opens a tuple.
    fn serialize_tuple(&mut self) -> (r: Result<(), Error>)
        ensures
            r is Ok,
            appended(*old(self), *final(self), "("@),
    {
        push_text(&mut self.output, "(");
        Ok(())
    }

    /// Opens a tuple struct.
    fn serialize_tuple_struct(&mut self, name: &str) -> (r: Result<(), Error>)
        ensures
            r is Ok,
            appended(*old(self), *final(self), name@ + "("@),
    {
        push_text(&mut self.output, name);
        push_text(&mut self.output, "(");
        assert(self.output@ =~= old(self).output@ + (name@ + "("@));
        Ok(())
    }

    /// Opens a tuple variant.
    fn serialize_tuple_variant(&mut self, name: &str, variant: &str) -> (r: Result<(), Error>)
        ensures
            r is Ok,
            appended(*old(self), *final(self), name@ + "::"@ + variant@ + "("@),
    {
        push_text(&mut self.output, name);
        push_text(&mut self.output, "::");
        push_text(&mut self.output, variant);
        push_text(&mut self.output, "(");
        assert(self.output@ =~= old(self).output@ + (name@ + "::"@ + variant@ + "("@));
        Ok(())
    }

    /// Refuses a keyed mapping.
    fn serialize_map(&self) -> (r: Result<(), Error>)
        ensures
            r matches Err(e) && e@ == unsupported(),
    {
        Err(Error::custom("serialize_map: unsupported"))
    }

    /// Opens a struct.
    fn serialize_struct(&mut self, name: &str) -> (r: Result<(), Error>)
        ensures
            r is Ok,
            appended(*old(self), *final(self), name@ + "{"@),
    {
        push_text(&mut self.output, name);
        push_text(&mut self.output, "{");
        assert(self.output@ =~= old(self).output@ + (name@ + "{"@));
        Ok(())
    }

    /// Opens a struct variant.
    fn serialize_struct_variant(&mut self, name: &str, variant: &str) -> (r: Result<(), Error>)
        ensures
            r is Ok,
            appended(*old(self), *final(self), name@ + "::"@ + variant@ + "{"@),
    {
        push_text(&mut self.output, name);
        push_text(&mut self.output, "::");
        push_text(&mut self.output, variant);
        push_text(&mut self.output, "{");
        assert(self.output@ =~= old(self).output@ + (name@ + "::"@ + variant@ + "{"@));
        Ok(())
    }

    /// Renders one element of a sequence or of a tuple, and the comma after it.
    fn serialize_element(&mut self, value: &Datum) -> (r: Result<(), Error>)
        ensures
            rendered(
                *old(self),
                *final(self),
                enclosed(Seq::empty(), encoding(value@), ","@),
                r,
            ),
        decreases value, 1nat,
    {
        match self.serialize_value(value) {
            Ok(()) => {},
            Err(e) => {
                return Err(e);
            },
        }
        push_text(&mut self.output, ",");
        assert(self.output@ =~= old(self).output@ + (Seq::empty() + encoding(value@)->0 + ","@));
        Ok(())
    }

    /// Renders one named field of a struct: the key, a colon, the value and
    /// a comma.
    fn serialize_field(&mut self, key: &str, value: &Datum) -> (r: Result<(), Error>)
        ensures
            rendered(*old(self), *final(self), encoding_field((key@, value@)), r),
        decreases value, 1nat,
    {
        push_text(&mut self.output, key);
        push_text(&mut self.output, ":");
        match self.serialize_value(value) {
            Ok(()) => {},
            Err(e) => {
                return Err(e);
            },
        }
        push_text(&mut self.output, ",");
        assert(self.output@ =~= old(self).output@ + ((key@ + ":"@) + encoding(value@)->0 + ","@));
        Ok(())
    }

    /// Closes a sequence.
    fn end_seq(&mut self) -> (r: Result<(), Error>)
        ensures
            r is Ok,
            appended(*old(self), *final(self), "]"@),
    {
        push_text(&mut self.output, "]");
        Ok(())
    }

    /// Closes a tuple, a tuple struct or a tuple variant.
    fn end_tuple(&mut self) -> (r: Result<(), Error>)
        ensures
            r is Ok,
            appended(*old(self), *final(self), ")"@),
    {
        push_text(&mut self.output, ")");
        Ok(())
    }

    /// Closes a struct or a struct variant.
    fn end_struct(&mut self) -> (r: Result<(), Error>)
        ensures
            r is Ok,
            appended(*old(self), *final(self), "}"@),
    {
        push_text(&mut self.output, "}");
        Ok(())
    }

    /// Renders the elements of a sequence or of a tuple, in order.
    fn serialize_elements(&mut self, items: &Vec<Datum>) -> (r: Result<(), Error>)
        ensures
            rendered(*old(self), *final(self), encoding_all(lits(items)), r),
        decreases items, 0nat,
    {
        let ghost all = lits(items);
        let ghost head = self.output@;
        let ghost done = Seq::<char>::empty();
        let mut i: usize = 0;
        assert(all.skip(0) =~= all);
        while i < items.len()
            invariant
                i <= items.len(),
                all == lits(items),
                self.output@ == head + done,
                encoding_all(all) == enclosed(done, encoding_all(all.skip(i as int)), Seq::empty()),
            decreases items.len() - i,
        {
            assert(all.skip(i as int).drop_first() =~= all.skip(i + 1));
            assert(all.skip(i as int)[0] == items[i as int]@);
            match self.serialize_element(&items[i]) {
                Ok(()) => {},
                Err(e) => {
                    return Err(e);
                },
            }
            proof {
                let item = encoding(items[i as int]@)->0 + ","@;
                assert(self.output@ =~= head + (done + item));
                if encoding_all(all.skip(i + 1)) is Some {
                    let rest = encoding_all(all.skip(i + 1))->0;
                    assert(done + (item + rest) + Seq::empty() =~= (done + item) + rest
                        + Seq::empty());
                }
                done = done + item;
            }
            i += 1;
        }
        assert(all.skip(i as int) =~= Seq::empty());
        assert(head + done =~= head + (done + Seq::empty() + Seq::empty()));
        Ok(())
    }

    /// Renders the named fields of a struct, in order.
    fn serialize_fields(&mut self, fields: &Vec<Field>) -> (r: Result<(), Error>)
        ensures
            rendered(*old(self), *final(self), encoding_fields(field_lits(fields)), r),
        decreases fields, 0nat,
    {
        let ghost all = field_lits(fields);
        let ghost head = self.output@;
        let ghost done = Seq::<char>::empty();
        let mut i: usize = 0;
        assert(all.skip(0) =~= all);
        while i < fields.len()
            invariant
                i <= fields.len(),
                all == field_lits(fields),
                self.output@ == head + done,
                encoding_fields(all) == enclosed(
                    done,
                    encoding_fields(all.skip(i as int)),
                    Seq::empty(),
                ),
            decreases fields.len() - i,
        {
            assert(all.skip(i as int).drop_first() =~= all.skip(i + 1));
            assert(all.skip(i as int)[0] == fields[i as int]@);
            let field = &fields[i];
            match self.serialize_field(field.key.as_str(), &field.value) {
                Ok(()) => {},
                Err(e) => {
                    return Err(e);
                },
            }
            proof {
                let item = encoding_field(fields[i as int]@)->0;
                assert(self.output@ =~= head + (done + item));
                if encoding_fields(all.skip(i + 1)) is Some {
                    let rest = encoding_fields(all.skip(i + 1))->0;
                    assert(done + (item + rest) + Seq::empty() =~= (done + item) + rest
                        + Seq::empty());
                }
                done = done + item;
            }
            i += 1;
        }
        assert(all.skip(i as int) =~= Seq::empty());
        assert(head + done =~= head + (done + Seq::empty() + Seq::empty()));
        Ok(())
    }

    /// Renders a value of any shape.
    fn serialize_value(&mut self, value: &Datum) -> (r: Result<(), Error>)
        ensures
            rendered(*old(self), *final(self), encoding(value@), r),
        decreases value, 0nat,
    {
        match value {
            Datum::Bool(v) => self.serialize_bool(*v),
            Datum::Signed(v) => self.serialize_i64(*v),
            Datum::Unsigned(v) => self.serialize_u64(*v),
            Datum::Float(text) => self.serialize_float(text.as_str()),
            Datum::Char(v) => self.serialize_char(*v),
            Datum::Str(v) => self.serialize_str(v.as_str()),
            Datum::Bytes(v) => self.serialize_bytes(v),
            Datum::Absent => self.serialize_none(),
            Datum::Present(inner) => self.serialize_some(inner),
            Datum::Unit => self.serialize_unit(),
            Datum::UnitStruct { name } => self.serialize_unit_struct(name.as_str()),
            Datum::UnitVariant { name, variant } => self.serialize_unit_variant(
                name.as_str(),
                variant.as_str(),
            ),
            Datum::NewtypeStruct { name, value: inner } => self.serialize_newtype_struct(
                name.as_str(),
                inner,
            ),
            Datum::NewtypeVariant { name, variant, value: inner } => self.serialize_newtype_variant(
                name.as_str(),
                variant.as_str(),
                inner,
            ),
            Datum::List(items) => {
                let _ = self.serialize_seq();
                match self.serialize_elements(items) {
                    Ok(()) => {},
                    Err(e) => {
                        return Err(e);
                    },
                }
                let _ = self.end_seq();
                assert(self.output@ =~= old(self).output@ + ("&["@ + encoding_all(lits(items))->0
                    + "]"@));
                Ok(())
            },
            Datum::Tuple(items) => {
                let _ = self.serialize_tuple();
                match self.serialize_elements(items) {
                    Ok(()) => {},
                    Err(e) => {
                        return Err(e);
                    },
                }
                let _ = self.end_tuple();
                assert(self.output@ =~= old(self).output@ + ((Seq::empty() + "("@) + encoding_all(
                    lits(items),
                )->0 + ")"@));
                Ok(())
            },
            Datum::TupleStruct { name, elements } => {
                let _ = self.serialize_tuple_struct(name.as_str());
                match self.serialize_elements(elements) {
                    Ok(()) => {},
                    Err(e) => {
                        return Err(e);
                    },
                }
                let _ = self.end_tuple();
                assert(self.output@ =~= old(self).output@ + ((name@ + "("@) + encoding_all(
                    lits(elements),
                )->0 + ")"@));
                Ok(())
            },
            Datum::TupleVariant { name, variant, elements } => {
                let _ = self.serialize_tuple_variant(name.as_str(), variant.as_str());
                match self.serialize_elements(elements) {
                    Ok(()) => {},
                    Err(e) => {
                        return Err(e);
                    },
                }
                let _ = self.end_tuple();
                assert(self.output@ =~= old(self).output@ + ((name@ + "::"@ + variant@ + "("@)
                    + encoding_all(lits(elements))->0 + ")"@));
                Ok(())
            },
            Datum::Mapping => self.serialize_map(),
            Datum::Struct { name, fields } => {
                let _ = self.serialize_struct(name.as_str());
                match self.serialize_fields(fields) {
                    Ok(()) => {},
                    Err(e) => {
                        return Err(e);
                    },
                }
                let _ = self.end_struct();
                assert(self.output@ =~= old(self).output@ + ((name@ + "{"@) + encoding_fields(
                    field_lits(fields),
                )->0 + "}"@));
                Ok(())
            },
            Datum::StructVariant { name, variant, fields } => {
                let _ = self.serialize_struct_variant(name.as_str(), variant.as_str());
                match self.serialize_fields(fields) {
                    Ok(()) => {},
                    Err(e) => {
                        return Err(e);
                    },
                }
                let _ = self.end_struct();
                assert(self.output@ =~= old(self).output@ + ((name@ + "::"@ + variant@ + "{"@)
                    + encoding_fields(field_lits(fields))->0 + "}"@));
                Ok(())
            },
        }
    }
}

/// Renders `value` as the source text of a literal expression.
///
/// Succeeds with exactly the literal text of the value, and fails, with the
/// mapping error, exactly where the value holds a keyed mapping. Where the
/// value reads back, reading the text gives back the value.
pub fn to_string(value: &Datum) -> (r: Result<String, Error>)
    ensures
        match encoding(value@) {
            Some(text) => r matches Ok(s) && s@ == text,
            None => r matches Err(e) && e@ == unsupported(),
        },
        is_plain(value@) ==> (r matches Ok(s) && parse(s@) == Some(value@)),
{
    let mut serializer = Serializer::new();
    match serializer.serialize_value(value) {
        Ok(()) => {},
        Err(e) => {
            proof {
                if is_plain(value@) {
                    lemma_round_trip(value@);
                }
            }
            return Err(e);
        },
    }
    proof {
        assert(serializer.output@ =~= encoding(value@)->0);
        if is_plain(value@) {
            lemma_round_trip(value@);
        }
    }
    Ok(serializer.output)
}

} // verus!
