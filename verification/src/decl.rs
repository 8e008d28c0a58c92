//! Constant declarations, and how the captured output of the sandboxed
//! program is spliced back into them.

use crate::text::{lines, push_text, split_lines, texts};
use vstd::prelude::*;

verus! {

/// A declared constant, each part as source text: `visibility` may be empty,
/// `init` is the initializer expression to evaluate.
#[derive(Debug)]
pub struct ConstDecl {
    pub visibility: String,
    pub name: String,
    pub ty: String,
    pub init: String,
}

/// A constant whose initializer has been replaced by a literal.
#[derive(Debug)]
pub struct FinalDecl {
    pub visibility: String,
    pub name: String,
    pub ty: String,
    pub literal: String,
}

/// The model of a declaration: its four parts as texts. For a [`ConstDecl`]
/// `value` is the initializer, for a [`FinalDecl`] the literal.
pub struct Decl {
    pub visibility: Seq<char>,
    pub name: Seq<char>,
    pub ty: Seq<char>,
    pub value: Seq<char>,
}

impl View for ConstDecl {
    type V = Decl;

    open spec fn view(&self) -> Decl {
        Decl { visibility: self.visibility@, name: self.name@, ty: self.ty@, value: self.init@ }
    }
}

impl View for FinalDecl {
    type V = Decl;

    open spec fn view(&self) -> Decl {
        Decl { visibility: self.visibility@, name: self.name@, ty: self.ty@, value: self.literal@ }
    }
}

/// One line of the captured output, with the verdict of the expression
/// parser on it.
#[derive(Debug)]
pub struct OutputLine {
    pub text: String,
    pub is_expression: bool,
}

/// Why the captured output could not be spliced into the declarations. The
/// index is that of the first declaration that went without a literal.
#[derive(Debug)]
pub enum SpliceError {
    /// The output has no line for the declaration at `index`.
    MissingLine { index: usize },
    /// The line for the declaration at `index` is not an expression.
    NotAnExpression { index: usize },
}

/// `decl` with `literal` in place of its initializer.
pub open spec fn with_literal(decl: Decl, literal: Seq<char>) -> Decl {
    Decl { visibility: decl.visibility, name: decl.name, ty: decl.ty, value: literal }
}

/// The source text of a final declaration:
/// `<visibility> const <name>: <type> = <literal>;`, without the leading
/// space where the visibility is empty.
pub open spec fn declaration_text(decl: Decl) -> Seq<char> {
    let head = if decl.visibility.len() == 0 {
        Seq::empty()
    } else {
        decl.visibility + " "@
    };
    head + "const "@ + decl.name + ": "@ + decl.ty + " = "@ + decl.value + ";"@
}

impl View for OutputLine {
    type V = (Seq<char>, bool);

    open spec fn view(&self) -> (Seq<char>, bool) {
        (self.text@, self.is_expression)
    }
}

/// The models of a list of judged lines, in order.
pub open spec fn judged_lines(lines: Seq<OutputLine>) -> Seq<(Seq<char>, bool)> {
    lines.map_values(|line: OutputLine| line@)
}

/// Every one of the first `n` lines is there and is an expression.
pub open spec fn accepted_up_to(lines: Seq<(Seq<char>, bool)>, n: int) -> bool {
    forall|j: int| 0 <= j < n ==> j < lines.len() && (#[trigger] lines[j]).1
}

/// What splicing `lines` into `decls` gives: line `i` becomes the literal of
/// declaration `i`, and the first declaration whose line is missing or is
/// not an expression decides the error.
pub open spec fn spliced(
    decls: Seq<ConstDecl>,
    lines: Seq<(Seq<char>, bool)>,
    r: Result<Vec<FinalDecl>, SpliceError>,
) -> bool {
    match r {
        Ok(finals) => {
            &&& finals.len() == decls.len()
            &&& accepted_up_to(lines, decls.len() as int)
            &&& forall|i: int|
                0 <= i < decls.len() ==> (#[trigger] finals[i])@ == with_literal(
                    decls[i]@,
                    lines[i].0,
                )
        },
        Err(SpliceError::MissingLine { index }) => {
            &&& index < decls.len()
            &&& index == lines.len()
            &&& accepted_up_to(lines, index as int)
        },
        Err(SpliceError::NotAnExpression { index }) => {
            &&& index < decls.len()
            &&& index < lines.len()
            &&& !lines[index as int].1
            &&& accepted_up_to(lines, index as int)
        },
    }
}

/// Whether `line` parses as one expression of the host language.
pub uninterp spec fn is_expression(line: Seq<char>) -> bool;

/// Asks the expression parser whether `line` is one expression.
///
/// Calls `syn::parse_str::<syn::Expr>`, which parses the whole text as one
/// expression and fails on anything else, what is left over included. The
/// verdict depends on the text alone.
#[verifier::external_body]
fn parses_as_expression(line: &str) -> (ok: bool)
    ensures
        ok == is_expression(line@),
{
    syn::parse_str::<syn::Expr>(line).is_ok()
}

impl FinalDecl {
    /// The declaration as source text.
    pub fn render(&self) -> (text: String)
        ensures
            text@ == declaration_text(self@),
    {
        let mut text = String::new();
        if self.visibility.as_str().unicode_len() > 0 {
            push_text(&mut text, self.visibility.as_str());
            push_text(&mut text, " ");
        }
        let ghost head = text@;
        push_text(&mut text, "const ");
        push_text(&mut text, self.name.as_str());
        push_text(&mut text, ": ");
        push_text(&mut text, self.ty.as_str());
        push_text(&mut text, " = ");
        push_text(&mut text, self.literal.as_str());
        push_text(&mut text, ";");
        assert(head =~= if self@.visibility.len() == 0 {
            Seq::empty()
        } else {
            self@.visibility + " "@
        });
        assert(text@ =~= declaration_text(self@));
        text
    }
}

/// Gives each declaration the line at its own position as its literal.
///
/// `lines` holds the lines of the output together with the parser's verdict
/// on each; lines beyond the last declaration are not looked at.
pub fn splice_lines(decls: &Vec<ConstDecl>, lines: &Vec<OutputLine>) -> (r: Result<
    Vec<FinalDecl>,
    SpliceError,
>)
    ensures
        spliced(decls@, judged_lines(lines@), r),
{
    let ghost judged = judged_lines(lines@);
    let mut finals: Vec<FinalDecl> = Vec::new();
    let mut i: usize = 0;
    while i < decls.len()
        invariant
            i <= decls.len(),
            finals.len() == i,
            judged == judged_lines(lines@),
            accepted_up_to(judged, i as int),
            forall|k: int|
                0 <= k < i ==> (#[trigger] finals[k])@ == with_literal(decls[k]@, judged[k].0),
        decreases decls.len() - i,
    {
        if i >= lines.len() {
            assert(i == lines.len()) by {
                if i > 0 {
                    assert(judged[i - 1].1);
                }
            }
            return Err(SpliceError::MissingLine { index: i });
        }
        let line = &lines[i];
        assert(judged[i as int] == line@);
        if !line.is_expression {
            return Err(SpliceError::NotAnExpression { index: i });
        }
        let decl = &decls[i];
        finals.push(
            FinalDecl {
                visibility: decl.visibility.clone(),
                name: decl.name.clone(),
                ty: decl.ty.clone(),
                literal: line.text.clone(),
            },
        );
        i += 1;
    }
    Ok(finals)
}

/// Each line with the verdict of the expression parser on it.
pub open spec fn judge(lines: Seq<Seq<char>>) -> Seq<(Seq<char>, bool)> {
    lines.map_values(|line: Seq<char>| (line, is_expression(line)))
}

/// Lines that agree on their first `n` places are accepted up to `n`
/// together.
proof fn lemma_accepted_prefix(
    part: Seq<(Seq<char>, bool)>,
    full: Seq<(Seq<char>, bool)>,
    n: int,
)
    requires
        accepted_up_to(part, n),
        part.len() <= full.len(),
        forall|j: int| 0 <= j < part.len() ==> #[trigger] part[j] == full[j],
    ensures
        accepted_up_to(full, n),
        n <= part.len(),
{
    assert forall|j: int| 0 <= j < n implies j < full.len() && (#[trigger] full[j]).1 by {
        assert(part[j].1);
    }
    if n > 0 {
        assert(part[n - 1].1);
    }
}

/// Splices the captured output of the sandboxed program into the
/// declarations: the line at position `i` of `stdout` is parsed as an
/// expression and becomes the literal of declaration `i`.
///
/// The result is that of [`splice_lines`] on the lines of `stdout`, each
/// judged by the expression parser.
pub fn splice(decls: &Vec<ConstDecl>, stdout: &str) -> (r: Result<Vec<FinalDecl>, SpliceError>)
    ensures
        spliced(decls@, judge(lines(stdout@)), r),
{
    let all = split_lines(stdout);
    let ghost full = judge(lines(stdout@));
    let mut checked: Vec<OutputLine> = Vec::new();
    let mut i: usize = 0;
    let mut good = true;
    while good && i < decls.len() && i < all.len()
        invariant
            i <= decls.len(),
            i <= all.len(),
            texts(all@) == lines(stdout@),
            full == judge(lines(stdout@)),
            checked.len() == i,
            forall|j: int| 0 <= j < i ==> (#[trigger] checked[j])@ == full[j],
            !good ==> i > 0 && !checked[i - 1].is_expression,
        decreases all.len() - i,
    {
        let text = all[i].clone();
        assert(text@ == texts(all@)[i as int]);
        good = parses_as_expression(text.as_str());
        checked.push(OutputLine { text, is_expression: good });
        i += 1;
    }
    let r = splice_lines(decls, &checked);
    proof {
        let part = judged_lines(checked@);
        assert(part.len() == i);
        assert(forall|j: int| 0 <= j < i ==> #[trigger] part[j] == full[j]);
        assert(full.len() == all.len());
        match &r {
            Ok(_) => {
                lemma_accepted_prefix(part, full, decls.len() as int);
            },
            Err(SpliceError::MissingLine { index }) => {
                lemma_accepted_prefix(part, full, *index as int);
                assert(good) by {
                    if !good {
                        assert(part[i - 1].1);
                    }
                }
            },
            Err(SpliceError::NotAnExpression { index }) => {
                lemma_accepted_prefix(part, full, *index as int);
            },
        }
    }
    r
}

} // verus!
