//! Rewriting the entry file of the sandbox, so that the sandboxed program
//! prints the value of every declared initializer.

use crate::decl::{spliced, with_literal, ConstDecl, FinalDecl};
use crate::text::{joined, push_line, push_text, same_text, texts};
use quote::ToTokens;
use vstd::prelude::*;

verus! {

/// A top-level item of a source file: its source text, and its name where it
/// is a function.
#[derive(Debug)]
pub struct SourceItem {
    pub text: String,
    pub function: Option<String>,
}

/// A source file, taken apart: the shebang line if it has one, its
/// top-level attributes and its items, in order.
#[derive(Debug)]
pub struct SourceFile {
    pub shebang: Option<String>,
    pub attrs: Vec<String>,
    pub items: Vec<SourceItem>,
}

/// Why an entry file could not be rewritten.
#[derive(Debug)]
pub enum EntryError {
    /// The file does not parse as a source file.
    NotSource,
}

/// Whether `item` is an entry function: a function named `main`.
pub open spec fn is_entry_function(item: SourceItem) -> bool {
    item.function matches Some(name) && name@ == "main"@
}

/// The texts of the items that are kept, in order: all but the entry
/// functions.
pub open spec fn kept(items: Seq<SourceItem>) -> Seq<Seq<char>>
    decreases items.len(),
{
    if items.len() == 0 {
        Seq::empty()
    } else if is_entry_function(items.last()) {
        kept(items.drop_last())
    } else {
        kept(items.drop_last()).push(items.last().text@)
    }
}

/// The statement that evaluates `init` and prints the literal text of its
/// value on a line of its own, or stops the program where the value has none.
pub open spec fn print_statement(init: Seq<char>) -> Seq<char> {
    "    println!(\"{}\", serde_rust::to_string(&("@ + init
        + ")).expect(\"serde_rust failed\"));"@
}

/// One print statement for each declaration, in the order of the
/// declarations.
pub open spec fn print_statements(decls: Seq<ConstDecl>) -> Seq<Seq<char>> {
    decls.map_values(|decl: ConstDecl| print_statement(decl.init@))
}

/// The shebang line of a file, as a list of no line or one.
pub open spec fn shebang_line(shebang: Option<String>) -> Seq<Seq<char>> {
    match shebang {
        Some(line) => seq![line@],
        None => Seq::empty(),
    }
}

/// The lines of the rewritten entry file: the shebang line, the attributes,
/// the items without the entry functions, and a new entry function that
/// holds the print statements.
pub open spec fn entry_lines(file: SourceFile, decls: Seq<ConstDecl>) -> Seq<Seq<char>> {
    shebang_line(file.shebang) + texts(file.attrs@) + kept(file.items@) + seq!["fn main() {"@]
        + print_statements(decls) + seq!["}"@]
}

/// The outline of a source file: its shebang line, the number of its
/// top-level attributes, and for each of its items the name of the function
/// that it is, if it is one.
pub struct Outline {
    pub shebang: Option<Seq<char>>,
    pub attrs: nat,
    pub functions: Seq<Option<Seq<char>>>,
}

/// The name of the function that an item is, if it is one.
pub open spec fn function_name(item: SourceItem) -> Option<Seq<char>> {
    match item.function {
        Some(name) => Some(name@),
        None => None,
    }
}

/// The outline of a source file that has been taken apart.
pub open spec fn outline(file: SourceFile) -> Outline {
    Outline {
        shebang: match file.shebang {
            Some(line) => Some(line@),
            None => None,
        },
        attrs: file.attrs@.len(),
        functions: file.items@.map_values(|item: SourceItem| function_name(item)),
    }
}

/// The outline of the source file that `source` is, or `None` where
/// `source` does not parse as a source file of the host language.
pub uninterp spec fn parsed_outline(source: Seq<char>) -> Option<Outline>;

/// Whether `source` parses as a source file of the host language.
pub open spec fn is_source_file(source: Seq<char>) -> bool {
    parsed_outline(source) is Some
}

/// Takes a source file apart.
///
/// Calls `syn::parse_file`, which gives the shebang line, the top-level
/// attributes and the items of the file, or fails on a text that is no source
/// file; what it gives depends on the text alone. Each attribute and item
/// is handed on as the text that its tokens print as, a function also with
/// the identifier of its signature. Nothing is claimed of the printed texts.
#[verifier::external_body]
fn parse_source(source: &str) -> (r: Option<SourceFile>)
    ensures
        match parsed_outline(source@) {
            Some(shape) => r matches Some(file) && outline(file) == shape,
            None => r is None,
        },
{
    let file = syn::parse_file(source).ok()?;
    let attrs = file.attrs.iter().map(|attr| attr.to_token_stream().to_string()).collect();
    let items = file.items.iter().map(|item| SourceItem {
        text: item.to_token_stream().to_string(),
        function: match item {
            syn::Item::Fn(function) => Some(function.sig.ident.to_string()),
            _ => None,
        },
    }).collect();
    Some(SourceFile { shebang: file.shebang, attrs, items })
}

impl SourceItem {
    /// Whether the item is an entry function.
    pub fn is_entry(&self) -> (entry: bool)
        ensures
            entry == is_entry_function(*self),
    {
        match &self.function {
            Some(name) => same_text(name.as_str(), "main"),
            None => false,
        }
    }
}

/// Writes the entry file anew: what `file` holds, without its entry
/// functions, followed by an entry function that prints the value of each
/// declared initializer, one per line and in the order of the declarations.
pub fn rewrite_entry(file: &SourceFile, decls: &Vec<ConstDecl>) -> (text: String)
    ensures
        text@ == joined(entry_lines(*file, decls@)),
{
    let mut out = String::new();
    let ghost mut written: Seq<Seq<char>> = Seq::empty();
    match &file.shebang {
        Some(line) => {
            push_line(&mut out, line.as_str(), Ghost(written));
            proof {
                written = written.push(line@);
            }
        },
        None => {},
    }
    assert(written =~= shebang_line(file.shebang));
    let mut i: usize = 0;
    while i < file.attrs.len()
        invariant
            i <= file.attrs.len(),
            out@ == joined(written),
            written == shebang_line(file.shebang) + texts(file.attrs@.take(i as int)),
        decreases file.attrs.len() - i,
    {
        push_line(&mut out, file.attrs[i].as_str(), Ghost(written));
        proof {
            assert(texts(file.attrs@.take(i + 1)) =~= texts(file.attrs@.take(i as int)).push(
                file.attrs[i as int]@,
            ));
            written = written.push(file.attrs[i as int]@);
        }
        i += 1;
    }
    assert(file.attrs@.take(i as int) =~= file.attrs@);
    let ghost head = written;
    let mut k: usize = 0;
    assert(file.items@.take(0) =~= Seq::empty());
    while k < file.items.len()
        invariant
            k <= file.items.len(),
            out@ == joined(written),
            written == head + kept(file.items@.take(k as int)),
        decreases file.items.len() - k,
    {
        let item = &file.items[k];
        assert(file.items@.take(k + 1).drop_last() =~= file.items@.take(k as int));
        if !item.is_entry() {
            push_line(&mut out, item.text.as_str(), Ghost(written));
            proof {
                written = written.push(item.text@);
            }
        }
        k += 1;
    }
    assert(file.items@.take(k as int) =~= file.items@);
    push_line(&mut out, "fn main() {", Ghost(written));
    proof {
        written = written.push("fn main() {"@);
    }
    let ghost body = written;
    let mut n: usize = 0;
    while n < decls.len()
        invariant
            n <= decls.len(),
            out@ == joined(written),
            written == body + print_statements(decls@.take(n as int)),
        decreases decls.len() - n,
    {
        let mut statement = String::new();
        push_text(&mut statement, "    println!(\"{}\", serde_rust::to_string(&(");
        push_text(&mut statement, decls[n].init.as_str());
        push_text(&mut statement, ")).expect(\"serde_rust failed\"));");
        assert(statement@ =~= print_statement(decls[n as int].init@));
        push_line(&mut out, statement.as_str(), Ghost(written));
        proof {
            assert(print_statements(decls@.take(n + 1)) =~= print_statements(
                decls@.take(n as int),
            ).push(statement@));
            written = written.push(statement@);
        }
        n += 1;
    }
    assert(decls@.take(n as int) =~= decls@);
    push_line(&mut out, "}", Ghost(written));
    proof {
        written = written.push("}"@);
        assert(written =~= entry_lines(*file, decls@));
    }
    out
}

/// Rewrites the text of an entry file.
///
/// Fails exactly where `source` is no source file. Otherwise the result is
/// what [`rewrite_entry`] makes of `decls` and of the parts of the file: a
/// file of the outline of `source`, whose attributes and items are printed
/// from their tokens.
pub fn rewrite_entry_point(source: &str, decls: &Vec<ConstDecl>) -> (r: Result<String, EntryError>)
    ensures
        match parsed_outline(source@) {
            Some(shape) => r matches Ok(text) && exists|file: SourceFile|
                outline(file) == shape && text@ == joined(entry_lines(file, decls@)),
            None => r is Err,
        },
{
    match parse_source(source) {
        Some(file) => Ok(rewrite_entry(&file, decls)),
        None => Err(EntryError::NotSource),
    }
}

/// Where the print statements begin among the lines of the rewritten entry
/// file.
pub open spec fn statements_start(file: SourceFile) -> int {
    (shebang_line(file.shebang).len() + file.attrs@.len() + kept(file.items@).len() + 1) as int
}

/// Results go to declarations by position: the statement at place `i` of
/// the new entry function evaluates the initializer of declaration `i` and
/// nothing else, so line `i` of the output is the value of that initializer;
/// and declaration `i` gets line `i` as its literal, and keeps its
/// visibility, its name and its type.
pub proof fn lemma_order_preserved(
    file: SourceFile,
    decls: Seq<ConstDecl>,
    lines: Seq<(Seq<char>, bool)>,
    finals: Vec<FinalDecl>,
    i: int,
)
    requires
        spliced(decls, lines, Ok(finals)),
        0 <= i < decls.len(),
    ensures
        entry_lines(file, decls).len() == statements_start(file) + decls.len() + 1,
        entry_lines(file, decls)[statements_start(file) + i] == print_statement(decls[i].init@),
        i < lines.len(),
        finals.len() == decls.len(),
        finals[i]@ == with_literal(decls[i]@, lines[i].0),
{
    let head = shebang_line(file.shebang) + texts(file.attrs@) + kept(file.items@) + seq![
        "fn main() {"@,
    ];
    assert(head.len() == statements_start(file));
    assert(entry_lines(file, decls) == head + print_statements(decls) + seq!["}"@]);
    assert(lines[i].1);
    assert(finals[i]@ == with_literal(decls[i]@, lines[i].0));
}

/// No declaration sees the result of another: the final declaration at
/// place `i` is the same for any two expansions that agree on declaration
/// `i` and on line `i` of the output, whatever the other declarations and
/// lines are.
pub proof fn lemma_results_independent(
    decls: Seq<ConstDecl>,
    lines: Seq<(Seq<char>, bool)>,
    finals: Vec<FinalDecl>,
    other_decls: Seq<ConstDecl>,
    other_lines: Seq<(Seq<char>, bool)>,
    other_finals: Vec<FinalDecl>,
    i: int,
)
    requires
        spliced(decls, lines, Ok(finals)),
        spliced(other_decls, other_lines, Ok(other_finals)),
        0 <= i < decls.len(),
        i < other_decls.len(),
        decls[i]@ == other_decls[i]@,
        lines[i].0 == other_lines[i].0,
    ensures
        finals[i]@ == other_finals[i]@,
        print_statements(decls)[i] == print_statements(other_decls)[i],
{
    assert(finals[i]@ == with_literal(decls[i]@, lines[i].0));
    assert(other_finals[i]@ == with_literal(other_decls[i]@, other_lines[i].0));
}

} // verus!
