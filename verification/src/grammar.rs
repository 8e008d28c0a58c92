//! The grammar of the literals that the serializer writes, and the law that
//! reading a literal gives back the value that it was written for.

use crate::number::{decimal, digits};
use crate::ser::{ctor_text, encoding, encoding_all, encoding_field, encoding_fields};
use crate::value::{Ctor, Lit};
use vstd::prelude::*;

verus! {

/// Whether `c` is a decimal digit.
pub open spec fn is_digit(c: char) -> bool {
    '0' <= c <= '9'
}

/// The number that the digit `c` stands for.
pub open spec fn digit_value(c: char) -> int {
    c as int - '0' as int
}

/// The number that a text of digits stands for.
pub open spec fn number_of(text: Seq<char>) -> int
    decreases text.len(),
{
    if text.len() == 0 {
        0
    } else {
        number_of(text.drop_last()) * 10 + digit_value(text.last())
    }
}

/// How many digits `text` begins with.
pub open spec fn leading_digits(text: Seq<char>) -> int
    decreases text.len(),
{
    if text.len() > 0 && is_digit(text[0]) {
        1 + leading_digits(text.drop_first())
    } else {
        0
    }
}

/// Whether `c` can begin a name: a letter, an underscore, or any character
/// beyond ASCII.
pub open spec fn begins_name(c: char) -> bool {
    ('a' <= c <= 'z') || ('A' <= c <= 'Z') || c == '_' || c as int >= 128
}

/// Whether `c` can stand inside a name: what can begin one, or a digit.
pub open spec fn continues_name(c: char) -> bool {
    begins_name(c) || is_digit(c)
}

/// Whether `text` is a name.
pub open spec fn is_name(text: Seq<char>) -> bool {
    &&& text.len() > 0
    &&& begins_name(text[0])
    &&& forall|i: int| 0 <= i < text.len() ==> continues_name(#[trigger] text[i])
}

/// How many characters of a name `text` begins with.
pub open spec fn leading_name(text: Seq<char>) -> int
    decreases text.len(),
{
    if text.len() > 0 && continues_name(text[0]) {
        1 + leading_name(text.drop_first())
    } else {
        0
    }
}

/// The length of the name that `text` begins with, 0 where it begins with
/// none.
pub open spec fn name_length(text: Seq<char>) -> int {
    if text.len() > 0 && begins_name(text[0]) {
        leading_name(text)
    } else {
        0
    }
}

/// Where the first double quote of `text` stands; the length of `text`
/// where it has none.
pub open spec fn first_quote(text: Seq<char>) -> int
    decreases text.len(),
{
    if text.len() == 0 || text[0] == '"' {
        0
    } else {
        1 + first_quote(text.drop_first())
    }
}

/// Whether `c` can stand for itself between single quotes: neither the
/// quote, nor the backslash, nor a line feed, a carriage return or a tab.
pub open spec fn is_plain_char(c: char) -> bool {
    c != '\'' && c != '\\' && c != '\n' && c != '\r' && c != '\t'
}

/// Whether `text` can stand for itself between double quotes: it holds
/// neither the quote, nor the backslash, nor a carriage return.
pub open spec fn is_plain_text(text: Seq<char>) -> bool {
    forall|i: int|
        0 <= i < text.len() ==> (#[trigger] text[i]) != '"' && text[i] != '\\' && text[i] != '\r'
}

/// The digits of a number are digits, and stand for the number.
pub proof fn lemma_digits(n: nat)
    ensures
        digits(n).len() > 0,
        forall|i: int| 0 <= i < digits(n).len() ==> is_digit(#[trigger] digits(n)[i]),
        number_of(digits(n)) == n,
    decreases n,
{
    if n < 10 {
        assert(digits(n).drop_last() =~= Seq::empty());
        assert(number_of(digits(n).drop_last()) == 0);
    } else {
        lemma_digits(n / 10);
        assert(digits(n).drop_last() =~= digits(n / 10));
        assert forall|i: int| 0 <= i < digits(n).len() implies is_digit(
            #[trigger] digits(n)[i],
        ) by {
            if i < digits(n / 10).len() {
                assert(digits(n)[i] == digits(n / 10)[i]);
            }
        }
    }
}

/// Digits followed by something that is no digit are all the digits that
/// the text begins with.
pub proof fn lemma_leading_digits(head: Seq<char>, rest: Seq<char>)
    requires
        forall|i: int| 0 <= i < head.len() ==> is_digit(#[trigger] head[i]),
        rest.len() == 0 || !is_digit(rest[0]),
    ensures
        leading_digits(head + rest) == head.len(),
    decreases head.len(),
{
    if head.len() == 0 {
        assert(head + rest =~= rest);
    } else {
        assert(is_digit(head[0]));
        assert((head + rest).drop_first() =~= head.drop_first() + rest);
        assert forall|i: int| 0 <= i < head.drop_first().len() implies is_digit(
            #[trigger] head.drop_first()[i],
        ) by {
            assert(head.drop_first()[i] == head[i + 1]);
        }
        lemma_leading_digits(head.drop_first(), rest);
    }
}

/// Characters of a name followed by something that continues no name are
/// all the characters of a name that the text begins with.
pub proof fn lemma_leading_name(head: Seq<char>, rest: Seq<char>)
    requires
        forall|i: int| 0 <= i < head.len() ==> continues_name(#[trigger] head[i]),
        rest.len() == 0 || !continues_name(rest[0]),
    ensures
        leading_name(head + rest) == head.len(),
    decreases head.len(),
{
    if head.len() == 0 {
        assert(head + rest =~= rest);
    } else {
        assert(continues_name(head[0]));
        assert((head + rest).drop_first() =~= head.drop_first() + rest);
        assert forall|i: int| 0 <= i < head.drop_first().len() implies continues_name(
            #[trigger] head.drop_first()[i],
        ) by {
            assert(head.drop_first()[i] == head[i + 1]);
        }
        lemma_leading_name(head.drop_first(), rest);
    }
}

/// A plain text followed by a double quote ends at that quote.
pub proof fn lemma_first_quote(head: Seq<char>, rest: Seq<char>)
    requires
        is_plain_text(head),
        rest.len() > 0 && rest[0] == '"',
    ensures
        first_quote(head + rest) == head.len(),
    decreases head.len(),
{
    if head.len() == 0 {
        assert(head + rest =~= rest);
    } else {
        assert(head[0] != '"');
        assert((head + rest).drop_first() =~= head.drop_first() + rest);
        assert forall|i: int| 0 <= i < head.drop_first().len() implies (
        #[trigger] head.drop_first()[i]) != '"' && head.drop_first()[i] != '\\'
            && head.drop_first()[i] != '\r' by {
            assert(head.drop_first()[i] == head[i + 1]);
        }
        lemma_first_quote(head.drop_first(), rest);
    }
}

/// Reads an integer: a minus sign or none, then digits, as many as there are.
#[verifier::opaque]
pub open spec fn parse_integer(text: Seq<char>) -> Option<(Lit, Seq<char>)> {
    let negative = text.len() > 0 && text[0] == '-';
    let body = if negative {
        text.skip(1)
    } else {
        text
    };
    let k = leading_digits(body);
    if k <= 0 || k > body.len() {
        None
    } else {
        let n = number_of(body.take(k));
        Some(
            (
                Lit::Int(
                    if negative {
                        -n
                    } else {
                        n
                    },
                ),
                body.skip(k),
            ),
        )
    }
}

/// Reads a character between single quotes.
#[verifier::opaque]
pub open spec fn parse_char(text: Seq<char>) -> Option<(Lit, Seq<char>)> {
    if text.len() >= 3 && text[0] == '\'' && is_plain_char(text[1]) && text[2] == '\'' {
        Some((Lit::Char(text[1]), text.skip(3)))
    } else {
        None
    }
}

/// Reads a text between double quotes. The text ends at the next double
/// quote, and holds no backslash: escapes are no part of this grammar.
#[verifier::opaque]
pub open spec fn parse_string(text: Seq<char>) -> Option<(Lit, Seq<char>)> {
    if text.len() == 0 || text[0] != '"' {
        None
    } else {
        let body = text.skip(1);
        let k = first_quote(body);
        if k < 0 || k >= body.len() || !is_plain_text(body.take(k)) {
            None
        } else {
            Some((Lit::Str(body.take(k)), body.skip(k + 1)))
        }
    }
}

/// Reads a path: a name, or two names with `::` between them.
#[verifier::opaque]
pub open spec fn parse_path(text: Seq<char>) -> Option<(Ctor, Seq<char>)> {
    let n = name_length(text);
    if n <= 0 || n > text.len() {
        None
    } else {
        let name = text.take(n);
        let rest = text.skip(n);
        if rest.len() >= 2 && rest[0] == ':' && rest[1] == ':' {
            let after = rest.skip(2);
            let m = name_length(after);
            if m <= 0 || m > after.len() {
                None
            } else {
                Some((Ctor { name, variant: Some(after.take(m)) }, after.skip(m)))
            }
        } else {
            Some((Ctor { name, variant: None }, rest))
        }
    }
}

/// Whether a name is one of the words that are literals of their own or
/// belong to one: `true`, `false`, `None`, `Some`.
pub open spec fn is_reserved(name: Seq<char>) -> bool {
    name == "true"@ || name == "false"@ || name == "None"@ || name == "Some"@
}

/// What stands behind `(` after a path: nothing (a tuple struct without
/// fields), one value (a newtype), or values with a comma after each (a
/// tuple struct), and then `)`.
pub open spec fn parse_arguments(c: Ctor, text: Seq<char>) -> Option<(Lit, Seq<char>)>
    decreases text.len(), 2nat,
{
    if text.len() > 0 && text[0] == ')' {
        Some((Lit::Tuple(Some(c), Seq::empty()), text.skip(1)))
    } else {
        match parse_value(text) {
            Some((first, rest)) => if rest.len() == 0 || rest.len() >= text.len() {
                None
            } else if rest[0] == ')' {
                Some((Lit::Newtype(c, Box::new(first)), rest.skip(1)))
            } else if rest[0] == ',' {
                match parse_items(rest.skip(1)) {
                    Some((more, end)) => if end.len() > 0 && end[0] == ')' {
                        Some((Lit::Tuple(Some(c), seq![first] + more), end.skip(1)))
                    } else {
                        None
                    },
                    None => None,
                }
            } else {
                None
            },
            None => None,
        }
    }
}

/// Reads one value from the beginning of `text`, and gives it together
/// with what is left of the text.
pub open spec fn parse_value(text: Seq<char>) -> Option<(Lit, Seq<char>)>
    decreases text.len(), 0nat,
{
    if text.len() == 0 {
        None
    } else if text[0] == '\'' {
        parse_char(text)
    } else if text[0] == '"' {
        parse_string(text)
    } else if text[0] == '-' || is_digit(text[0]) {
        parse_integer(text)
    } else if text[0] == '&' {
        if text.len() >= 2 && text[1] == '[' {
            match parse_items(text.skip(2)) {
                Some((items, end)) => if end.len() > 0 && end[0] == ']' {
                    Some((Lit::List(items), end.skip(1)))
                } else {
                    None
                },
                None => None,
            }
        } else {
            None
        }
    } else if text[0] == '(' {
        let inside = text.skip(1);
        if inside.len() > 0 && inside[0] == ')' {
            Some((Lit::Unit, inside.skip(1)))
        } else {
            match parse_items(inside) {
                Some((items, end)) => if items.len() > 0 && end.len() > 0 && end[0] == ')' {
                    Some((Lit::Tuple(None, items), end.skip(1)))
                } else {
                    None
                },
                None => None,
            }
        }
    } else {
        match parse_path(text) {
            Some((c, rest)) => if rest.len() >= text.len() {
                None
            } else if c.variant is None && c.name == "true"@ {
                Some((Lit::Bool(true), rest))
            } else if c.variant is None && c.name == "false"@ {
                Some((Lit::Bool(false), rest))
            } else if c.variant is None && c.name == "None"@ {
                Some((Lit::Absent, rest))
            } else if c.variant is None && c.name == "Some"@ {
                if rest.len() > 0 && rest[0] == '(' {
                    match parse_value(rest.skip(1)) {
                        Some((inner, end)) => if end.len() > 0 && end[0] == ')' {
                            Some((Lit::Present(Box::new(inner)), end.skip(1)))
                        } else {
                            None
                        },
                        None => None,
                    }
                } else {
                    None
                }
            } else if rest.len() > 0 && rest[0] == '(' {
                parse_arguments(c, rest.skip(1))
            } else if rest.len() > 0 && rest[0] == '{' {
                match parse_fields(rest.skip(1)) {
                    Some((fields, end)) => if end.len() > 0 && end[0] == '}' {
                        Some((Lit::Record(c, fields), end.skip(1)))
                    } else {
                        None
                    },
                    None => None,
                }
            } else {
                Some((Lit::Named(c), rest))
            },
            None => None,
        }
    }
}

/// Reads values with a comma after each, up to a closing bracket or
/// parenthesis or to the end of the text.
pub open spec fn parse_items(text: Seq<char>) -> Option<(Seq<Lit>, Seq<char>)>
    decreases text.len(), 1nat,
{
    if text.len() == 0 || text[0] == ']' || text[0] == ')' {
        Some((Seq::empty(), text))
    } else {
        match parse_value(text) {
            Some((first, rest)) => if rest.len() == 0 || rest.len() >= text.len() || rest[0]
                != ',' {
                None
            } else {
                match parse_items(rest.skip(1)) {
                    Some((more, end)) => Some((seq![first] + more, end)),
                    None => None,
                }
            },
            None => None,
        }
    }
}

/// Reads named fields, each a name, a colon, a value and a comma, up to a
/// closing brace or to the end of the text.
pub open spec fn parse_fields(text: Seq<char>) -> Option<(Seq<(Seq<char>, Lit)>, Seq<char>)>
    decreases text.len(), 1nat,
{
    if text.len() == 0 || text[0] == '}' {
        Some((Seq::empty(), text))
    } else {
        let n = name_length(text);
        if n <= 0 || n >= text.len() || text[n] != ':' {
            None
        } else {
            match parse_value(text.skip(n + 1)) {
                Some((value, rest)) => if rest.len() == 0 || rest.len() >= text.len() || rest[0]
                    != ',' {
                    None
                } else {
                    match parse_fields(rest.skip(1)) {
                        Some((more, end)) => Some((seq![(text.take(n), value)] + more, end)),
                        None => None,
                    }
                },
                None => None,
            }
        }
    }
}

/// Reads `text` as one literal: the value that it denotes, or `None` where
/// the text is no literal of this grammar or more than one.
pub open spec fn parse(text: Seq<char>) -> Option<Lit> {
    match parse_value(text) {
        Some((value, rest)) => if rest.len() == 0 {
            Some(value)
        } else {
            None
        },
        None => None,
    }
}

/// Whether a path reads back as itself: its parts are names, and where it
/// is one name, that is none of the reserved words.
pub open spec fn is_plain_path(c: Ctor) -> bool {
    &&& is_name(c.name)
    &&& match c.variant {
        Some(variant) => is_name(variant),
        None => !is_reserved(c.name),
    }
}

/// Whether the literal text of a value reads back as the value.
///
/// Left out are the values whose text does not: a character or a string
/// that would have needed an escape, a float (its text may be that of an
/// integer), a byte sequence (its text is two expressions), a path that is
/// no path or a reserved word, a tuple without elements (its text is that of
/// the unit), and a keyed mapping, which has no text.
pub open spec fn is_plain(v: Lit) -> bool
    decreases v,
{
    match v {
        Lit::Bool(_) => true,
        Lit::Int(_) => true,
        Lit::Float(_) => false,
        Lit::Char(c) => is_plain_char(c),
        Lit::Str(s) => is_plain_text(s),
        Lit::Bytes(_) => false,
        Lit::Absent => true,
        Lit::Present(inner) => is_plain(*inner),
        Lit::Unit => true,
        Lit::Named(c) => is_plain_path(c),
        Lit::Newtype(c, inner) => is_plain_path(c) && is_plain(*inner),
        Lit::List(items) => all_plain(items),
        Lit::Tuple(c, items) => all_plain(items) && match c {
            Some(c) => is_plain_path(c),
            None => items.len() > 0,
        },
        Lit::Record(c, fields) => is_plain_path(c) && all_plain_fields(fields),
        Lit::Mapping => false,
    }
}

/// Whether every value of a list reads back.
pub open spec fn all_plain(items: Seq<Lit>) -> bool
    decreases items,
{
    forall|i: int| 0 <= i < items.len() ==> is_plain(#[trigger] items[i])
}

/// Whether a named field reads back: its key is a name, and its value reads
/// back.
pub open spec fn is_plain_field(field: (Seq<char>, Lit)) -> bool
    decreases field,
{
    is_name(field.0) && is_plain(field.1)
}

/// Whether every field of a list reads back.
pub open spec fn all_plain_fields(fields: Seq<(Seq<char>, Lit)>) -> bool
    decreases fields,
{
    forall|i: int| 0 <= i < fields.len() ==> is_plain_field(#[trigger] fields[i])
}

/// What may follow a value: the end of the text, a comma, or a closing
/// parenthesis.
pub open spec fn ends_value(rest: Seq<char>) -> bool {
    rest.len() == 0 || rest[0] == ',' || rest[0] == ')'
}

/// What a value may begin with.
pub open spec fn begins_value(c: char) -> bool {
    begins_name(c) || is_digit(c) || c == '-' || c == '\'' || c == '"' || c == '&' || c == '('
}

/// A path followed by something that neither continues a name nor begins
/// with a colon is read as that path.
proof fn lemma_path(c: Ctor, rest: Seq<char>)
    requires
        is_name(c.name),
        c.variant matches Some(variant) ==> is_name(variant),
        rest.len() == 0 || (!continues_name(rest[0]) && rest[0] != ':'),
    ensures
        parse_path(ctor_text(c) + rest) == Some((c, rest)),
        ctor_text(c).len() > 0,
        ctor_text(c)[0] == c.name[0],
{
    reveal(parse_path);
    reveal_strlit("::");
    let text = ctor_text(c) + rest;
    match c.variant {
        None => {
            lemma_leading_name(c.name, rest);
            assert(text.take(c.name.len() as int) =~= c.name);
            assert(text.skip(c.name.len() as int) =~= rest);
        },
        Some(variant) => {
            let tail = "::"@ + variant + rest;
            assert(text =~= c.name + tail);
            lemma_leading_name(c.name, tail);
            assert(text.take(c.name.len() as int) =~= c.name);
            assert(text.skip(c.name.len() as int) =~= tail);
            assert(tail.skip(2) =~= variant + rest);
            lemma_leading_name(variant, rest);
            assert((variant + rest).take(variant.len() as int) =~= variant);
            assert((variant + rest).skip(variant.len() as int) =~= rest);
        },
    }
}

/// The decimal text of an integer, followed by something that is no digit,
/// is read as that integer.
proof fn lemma_integer(n: int, rest: Seq<char>)
    requires
        rest.len() == 0 || !is_digit(rest[0]),
    ensures
        parse_integer(decimal(n) + rest) == Some((Lit::Int(n), rest)),
        decimal(n).len() > 0,
        decimal(n)[0] == '-' || is_digit(decimal(n)[0]),
{
    reveal(parse_integer);
    let text = decimal(n) + rest;
    if n < 0 {
        let body = digits((-n) as nat);
        lemma_digits((-n) as nat);
        assert(text.skip(1) =~= body + rest);
        lemma_leading_digits(body, rest);
        assert((body + rest).take(body.len() as int) =~= body);
        assert((body + rest).skip(body.len() as int) =~= rest);
    } else {
        let body = digits(n as nat);
        lemma_digits(n as nat);
        assert(is_digit(body[0]));
        assert(text[0] != '-');
        lemma_leading_digits(body, rest);
        assert(text.take(body.len() as int) =~= body);
        assert(text.skip(body.len() as int) =~= rest);
    }
}

/// The reserved words are names, and all different.
proof fn lemma_words()
    ensures
        is_name("true"@),
        is_name("false"@),
        is_name("None"@),
        is_name("Some"@),
        "true"@ != "false"@,
        "None"@ != "true"@,
        "None"@ != "false"@,
        "Some"@ != "true"@,
        "Some"@ != "false"@,
        "Some"@ != "None"@,
        "Some("@ == "Some"@ + seq!['('],
{
    reveal_strlit("true");
    reveal_strlit("false");
    reveal_strlit("None");
    reveal_strlit("Some");
    reveal_strlit("Some(");
    assert("None"@[0] != "true"@[0]);
    assert("None"@[0] != "false"@[0]);
    assert("Some"@[0] != "true"@[0]);
    assert("Some"@[0] != "false"@[0]);
    assert("Some"@[0] != "None"@[0]);
    assert("Some("@ =~= "Some"@ + seq!['(']);
}

/// A name begins with what can begin a value, and with nothing that has a
/// meaning of its own.
proof fn lemma_begins_name(c: char)
    requires
        begins_name(c),
    ensures
        begins_value(c),
        !is_digit(c),
        c != '\'' && c != '"' && c != '-' && c != '&' && c != '(' && c != ')' && c != ']' && c
            != '}' && c != ',' && c != ':' && c != '{',
{
}

/// The text of a value is not empty, and begins with what can begin a
/// value.
proof fn lemma_first(v: Lit)
    requires
        is_plain(v),
        encoding(v) is Some,
    ensures
        encoding(v)->0.len() > 0,
        begins_value(encoding(v)->0[0]),
{
    reveal_strlit("true");
    reveal_strlit("false");
    reveal_strlit("'");
    reveal_strlit("\"");
    reveal_strlit("None");
    reveal_strlit("Some(");
    reveal_strlit("()");
    reveal_strlit("(");
    reveal_strlit("&[");
    reveal_strlit("{");
    reveal_strlit("::");
    match v {
        Lit::Int(n) => {
            lemma_integer(n, Seq::empty());
        },
        Lit::Named(c) => {
            lemma_begins_name(c.name[0]);
        },
        Lit::Newtype(c, _) => {
            lemma_begins_name(c.name[0]);
        },
        Lit::Tuple(Some(c), _) => {
            lemma_begins_name(c.name[0]);
        },
        Lit::Record(c, _) => {
            lemma_begins_name(c.name[0]);
        },
        _ => {},
    }
}

/// A word that stands for itself, followed by the end of a value, is read
/// as the path that is this word alone.
proof fn lemma_word(word: Seq<char>, rest: Seq<char>)
    requires
        is_name(word),
        rest.len() == 0 || (!continues_name(rest[0]) && rest[0] != ':'),
    ensures
        parse_path(word + rest) == Some((Ctor { name: word, variant: None }, rest)),
        (word + rest).len() > rest.len(),
        !is_digit((word + rest)[0]),
        (word + rest)[0] != '\'' && (word + rest)[0] != '"' && (word + rest)[0] != '-' && (word
            + rest)[0] != '&' && (word + rest)[0] != '(',
{
    lemma_path(Ctor { name: word, variant: None }, rest);
    lemma_begins_name(word[0]);
}

proof fn case_bool(b: bool, rest: Seq<char>)
    requires
        ends_value(rest),
    ensures
        parse_value(encoding(Lit::Bool(b))->0 + rest) == Some((Lit::Bool(b), rest)),
{
    lemma_words();
    if b {
        lemma_word("true"@, rest);
    } else {
        lemma_word("false"@, rest);
    }
}

proof fn case_absent(rest: Seq<char>)
    requires
        ends_value(rest),
    ensures
        parse_value(encoding(Lit::Absent)->0 + rest) == Some((Lit::Absent, rest)),
{
    lemma_words();
    lemma_word("None"@, rest);
}

proof fn case_unit(rest: Seq<char>)
    requires
        ends_value(rest),
    ensures
        parse_value(encoding(Lit::Unit)->0 + rest) == Some((Lit::Unit, rest)),
{
    reveal_strlit("()");
    let text = "()"@ + rest;
    assert(text.skip(1).skip(1) =~= rest);
}

proof fn case_int(n: int, rest: Seq<char>)
    requires
        ends_value(rest),
    ensures
        parse_value(encoding(Lit::Int(n))->0 + rest) == Some((Lit::Int(n), rest)),
{
    lemma_integer(n, rest);
}

proof fn case_char(c: char, rest: Seq<char>)
    requires
        is_plain_char(c),
    ensures
        parse_value(encoding(Lit::Char(c))->0 + rest) == Some((Lit::Char(c), rest)),
{
    reveal(parse_char);
    reveal_strlit("'");
    let text = "'"@.push(c) + "'"@ + rest;
    assert(text.skip(3) =~= rest);
}

proof fn case_str(s: Seq<char>, rest: Seq<char>)
    requires
        is_plain_text(s),
    ensures
        parse_value(encoding(Lit::Str(s))->0 + rest) == Some((Lit::Str(s), rest)),
{
    reveal(parse_string);
    reveal_strlit("\"");
    let text = "\""@ + s + "\""@ + rest;
    let tail = "\""@ + rest;
    assert(text.skip(1) =~= s + tail);
    lemma_first_quote(s, tail);
    assert((s + tail).take(s.len() as int) =~= s);
    assert((s + tail).skip(s.len() as int + 1) =~= rest);
}

proof fn case_named(c: Ctor, rest: Seq<char>)
    requires
        is_plain_path(c),
        ends_value(rest),
    ensures
        parse_value(encoding(Lit::Named(c))->0 + rest) == Some((Lit::Named(c), rest)),
{
    lemma_path(c, rest);
    lemma_begins_name(c.name[0]);
}

proof fn case_present(inner: Lit, rest: Seq<char>)
    requires
        ends_value(rest),
        encoding(inner) is Some,
        parse_value(encoding(inner)->0 + (seq![')'] + rest)) == Some((inner, seq![')'] + rest)),
    ensures
        parse_value(encoding(Lit::Present(Box::new(inner)))->0 + rest) == Some(
            (Lit::Present(Box::new(inner)), rest),
        ),
{
    lemma_words();
    reveal_strlit(")");
    let body = encoding(inner)->0;
    let text = "Some("@ + body + ")"@ + rest;
    let tail = seq!['('] + body + seq![')'] + rest;
    assert(text =~= "Some"@ + tail);
    lemma_word("Some"@, tail);
    assert(tail.skip(1) =~= body + (seq![')'] + rest));
    assert((seq![')'] + rest).skip(1) =~= rest);
}

proof fn case_newtype(c: Ctor, inner: Lit, rest: Seq<char>)
    requires
        is_plain_path(c),
        is_plain(inner),
        ends_value(rest),
        encoding(inner) is Some,
        parse_value(encoding(inner)->0 + (seq![')'] + rest)) == Some((inner, seq![')'] + rest)),
    ensures
        parse_value(encoding(Lit::Newtype(c, Box::new(inner)))->0 + rest) == Some(
            (Lit::Newtype(c, Box::new(inner)), rest),
        ),
{
    reveal_strlit("(");
    reveal_strlit(")");
    let body = encoding(inner)->0;
    let text = ctor_text(c) + "("@ + body + ")"@ + rest;
    let tail = seq!['('] + body + seq![')'] + rest;
    assert(text =~= ctor_text(c) + tail);
    lemma_path(c, tail);
    lemma_begins_name(c.name[0]);
    lemma_first(inner);
    let inside = body + (seq![')'] + rest);
    assert(tail.skip(1) =~= inside);
    assert(inside[0] == body[0]);
    assert((seq![')'] + rest).skip(1) =~= rest);
    assert(parse_arguments(c, inside) == Some((Lit::Newtype(c, Box::new(inner)), rest)));
}

proof fn case_list(items: Seq<Lit>, rest: Seq<char>)
    requires
        ends_value(rest),
        encoding_all(items) is Some,
        parse_items(encoding_all(items)->0 + (seq![']'] + rest)) == Some(
            (items, seq![']'] + rest),
        ),
    ensures
        parse_value(encoding(Lit::List(items))->0 + rest) == Some((Lit::List(items), rest)),
{
    reveal_strlit("&[");
    reveal_strlit("]");
    let body = encoding_all(items)->0;
    let text = "&["@ + body + "]"@ + rest;
    assert(text.skip(2) =~= body + (seq![']'] + rest));
    assert((seq![']'] + rest).skip(1) =~= rest);
}

proof fn case_tuple(items: Seq<Lit>, rest: Seq<char>)
    requires
        ends_value(rest),
        items.len() > 0,
        is_plain(items[0]),
        encoding_all(items) is Some,
        parse_items(encoding_all(items)->0 + (seq![')'] + rest)) == Some(
            (items, seq![')'] + rest),
        ),
    ensures
        parse_value(encoding(Lit::Tuple(None, items))->0 + rest) == Some(
            (Lit::Tuple(None, items), rest),
        ),
{
    reveal_strlit("(");
    reveal_strlit(")");
    reveal_strlit(",");
    let body = encoding_all(items)->0;
    let text = Seq::<char>::empty() + "("@ + body + ")"@ + rest;
    let inside = body + (seq![')'] + rest);
    assert(text.skip(1) =~= inside);
    lemma_first(items[0]);
    assert(inside[0] == encoding(items[0])->0[0]);
    assert((seq![')'] + rest).skip(1) =~= rest);
}

proof fn case_tuple_struct(c: Ctor, items: Seq<Lit>, rest: Seq<char>)
    requires
        is_plain_path(c),
        ends_value(rest),
        encoding_all(items) is Some,
        parse_items(encoding_all(items)->0 + (seq![')'] + rest)) == Some(
            (items, seq![')'] + rest),
        ),
        items.len() > 0 ==> is_plain(items[0]) && encoding(items[0]) is Some && encoding_all(
            items.drop_first(),
        ) is Some && parse_value(encoding_all(items)->0 + (seq![')'] + rest)) == Some(
            (
                items[0],
                seq![','] + encoding_all(items.drop_first())->0 + (seq![')'] + rest),
            ),
        ) && parse_items(encoding_all(items.drop_first())->0 + (seq![')'] + rest)) == Some(
            (items.drop_first(), seq![')'] + rest),
        ),
    ensures
        parse_value(encoding(Lit::Tuple(Some(c), items))->0 + rest) == Some(
            (Lit::Tuple(Some(c), items), rest),
        ),
{
    reveal_strlit("(");
    reveal_strlit(")");
    reveal_strlit(",");
    let body = encoding_all(items)->0;
    let text = ctor_text(c) + "("@ + body + ")"@ + rest;
    let close = seq![')'] + rest;
    let tail = seq!['('] + body + close;
    assert(text =~= ctor_text(c) + tail);
    lemma_path(c, tail);
    lemma_begins_name(c.name[0]);
    let inside = body + close;
    assert(tail.skip(1) =~= inside);
    assert(close.skip(1) =~= rest);
    if items.len() == 0 {
        assert(inside =~= close);
        assert(items =~= Seq::empty());
    } else {
        lemma_first(items[0]);
        let first = encoding(items[0])->0;
        let more = encoding_all(items.drop_first())->0;
        assert(body == first + ","@ + more);
        assert(inside[0] == first[0]);
        let after = seq![','] + more + close;
        assert(after.skip(1) =~= more + close);
        assert(after.len() < inside.len());
        assert(seq![items[0]] + items.drop_first() =~= items);
    }
    assert(parse_arguments(c, inside) == Some((Lit::Tuple(Some(c), items), rest)));
}

proof fn case_record(c: Ctor, fields: Seq<(Seq<char>, Lit)>, rest: Seq<char>)
    requires
        is_plain_path(c),
        ends_value(rest),
        encoding_fields(fields) is Some,
        parse_fields(encoding_fields(fields)->0 + (seq!['}'] + rest)) == Some(
            (fields, seq!['}'] + rest),
        ),
    ensures
        parse_value(encoding(Lit::Record(c, fields))->0 + rest) == Some(
            (Lit::Record(c, fields), rest),
        ),
{
    reveal_strlit("{");
    reveal_strlit("}");
    let body = encoding_fields(fields)->0;
    let text = ctor_text(c) + "{"@ + body + "}"@ + rest;
    let close = seq!['}'] + rest;
    let tail = seq!['{'] + body + close;
    assert(text =~= ctor_text(c) + tail);
    lemma_path(c, tail);
    lemma_begins_name(c.name[0]);
    assert(tail.skip(1) =~= body + close);
    assert(close.skip(1) =~= rest);
}

/// A value that reads back, followed by the end of a value, is read as
/// itself, and what follows is left.
proof fn lemma_value(v: Lit, rest: Seq<char>)
    requires
        is_plain(v),
        ends_value(rest),
    ensures
        encoding(v) is Some,
        parse_value(encoding(v)->0 + rest) == Some((v, rest)),
    decreases v,
{
    match v {
        Lit::Bool(b) => {
            case_bool(b, rest);
        },
        Lit::Int(n) => {
            case_int(n, rest);
        },
        Lit::Float(_) => {},
        Lit::Char(c) => {
            case_char(c, rest);
        },
        Lit::Str(s) => {
            case_str(s, rest);
        },
        Lit::Bytes(_) => {},
        Lit::Absent => {
            case_absent(rest);
        },
        Lit::Present(inner) => {
            lemma_value(*inner, seq![')'] + rest);
            case_present(*inner, rest);
        },
        Lit::Unit => {
            case_unit(rest);
        },
        Lit::Named(c) => {
            case_named(c, rest);
        },
        Lit::Newtype(c, inner) => {
            lemma_value(*inner, seq![')'] + rest);
            case_newtype(c, *inner, rest);
        },
        Lit::List(items) => {
            lemma_items(items, seq![']'] + rest);
            case_list(items, rest);
        },
        Lit::Tuple(None, items) => {
            lemma_items(items, seq![')'] + rest);
            case_tuple(items, rest);
        },
        Lit::Tuple(Some(c), items) => {
            lemma_items(items, seq![')'] + rest);
            case_tuple_struct(c, items, rest);
        },
        Lit::Record(c, fields) => {
            lemma_fields(fields, seq!['}'] + rest);
            case_record(c, fields, rest);
        },
        Lit::Mapping => {},
    }
}

/// Values that read back, each followed by a comma, and then a closing
/// bracket or parenthesis, are read as themselves up to that closing.
proof fn lemma_items(items: Seq<Lit>, rest: Seq<char>)
    requires
        all_plain(items),
        rest.len() > 0 && (rest[0] == ']' || rest[0] == ')'),
    ensures
        encoding_all(items) is Some,
        parse_items(encoding_all(items)->0 + rest) == Some((items, rest)),
        items.len() > 0 ==> is_plain(items[0]) && encoding(items[0]) is Some && encoding_all(
            items.drop_first(),
        ) is Some && parse_value(encoding_all(items)->0 + rest) == Some(
            (items[0], seq![','] + encoding_all(items.drop_first())->0 + rest),
        ) && parse_items(encoding_all(items.drop_first())->0 + rest) == Some(
            (items.drop_first(), rest),
        ),
    decreases items,
{
    reveal_strlit(",");
    if items.len() == 0 {
        assert(Seq::<char>::empty() + rest =~= rest);
        assert(items =~= Seq::empty());
    } else {
        let tail = items.subrange(1, items.len() as int);
        assert(tail =~= items.drop_first());
        assert(all_plain(tail)) by {
            assert forall|i: int| 0 <= i < tail.len() implies is_plain(#[trigger] tail[i]) by {
                assert(tail[i] == items[i + 1]);
            }
        }
        assert(is_plain(items[0]));
        lemma_items(tail, rest);
        let more = encoding_all(tail)->0;
        let after = seq![','] + more + rest;
        lemma_value(items[0], after);
        lemma_first(items[0]);
        let first = encoding(items[0])->0;
        let text = encoding_all(items)->0 + rest;
        assert(text =~= first + after);
        assert(text[0] == first[0]);
        assert(after.skip(1) =~= more + rest);
        assert(seq![items[0]] + tail =~= items);
    }
}

/// A field that reads back, followed by the end of a value, is read as its
/// value once its key and the colon have been taken.
proof fn lemma_field(field: (Seq<char>, Lit), rest: Seq<char>)
    requires
        is_plain_field(field),
        ends_value(rest),
    ensures
        encoding(field.1) is Some,
        parse_value(encoding(field.1)->0 + rest) == Some((field.1, rest)),
    decreases field,
{
    lemma_value(field.1, rest);
}

/// Fields that read back, and then a closing brace, are read as themselves
/// up to that brace.
proof fn lemma_fields(fields: Seq<(Seq<char>, Lit)>, rest: Seq<char>)
    requires
        all_plain_fields(fields),
        rest.len() > 0 && rest[0] == '}',
    ensures
        encoding_fields(fields) is Some,
        parse_fields(encoding_fields(fields)->0 + rest) == Some((fields, rest)),
    decreases fields,
{
    reveal_strlit(",");
    reveal_strlit(":");
    if fields.len() == 0 {
        assert(Seq::<char>::empty() + rest =~= rest);
        assert(fields =~= Seq::empty());
    } else {
        let tail = fields.subrange(1, fields.len() as int);
        assert(tail =~= fields.drop_first());
        assert(all_plain_fields(tail)) by {
            assert forall|i: int| 0 <= i < tail.len() implies is_plain_field(
                #[trigger] tail[i],
            ) by {
                assert(tail[i] == fields[i + 1]);
            }
        }
        assert(is_plain_field(fields[0]));
        lemma_fields(tail, rest);
        let key = fields[0].0;
        let value = fields[0].1;
        let more = encoding_fields(tail)->0;
        let after = seq![','] + more + rest;
        lemma_field(fields[0], after);
        let body = encoding(value)->0;
        let behind = seq![':'] + body + after;
        let text = encoding_fields(fields)->0 + rest;
        assert(encoding_field(fields[0]) == Some(key + ":"@ + body + ","@));
        assert(text =~= key + behind);
        lemma_begins_name(key[0]);
        lemma_leading_name(key, behind);
        assert(text.take(key.len() as int) =~= key);
        assert(text.skip(key.len() as int + 1) =~= body + after);
        assert(after.skip(1) =~= more + rest);
        assert(seq![(key, value)] + tail =~= fields);
    }
}

/// Reading the literal text of a value gives back the value: for every
/// value that reads back, the text exists, is one literal, and denotes the
/// value.
pub proof fn lemma_round_trip(v: Lit)
    requires
        is_plain(v),
    ensures
        encoding(v) matches Some(text) && parse(text) == Some(v),
{
    lemma_value(v, Seq::empty());
    assert(encoding(v)->0 + Seq::<char>::empty() =~= encoding(v)->0);
}

} // verus!
