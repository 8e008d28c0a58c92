//! The rules of the sandbox: what is staged, which variables of the
//! environment are scrubbed, in which order the phases of an expansion run,
//! and how the output of the sandboxed program is taken back.

use crate::decl::{
    is_expression, judge, splice, spliced, with_literal, ConstDecl, FinalDecl, SpliceError,
};
use crate::grammar::{is_plain, lemma_round_trip, parse};
use crate::ser::encoding;
use crate::text::{is_one_line, joined, lemma_lines_of_joined, lines, push_text, same_text};
use crate::value::Lit;
use vstd::prelude::*;
use vstd::utf8::{decode_utf8, valid_utf8};

verus! {

/// What an entry of a directory is, once links have been followed.
#[derive(Debug, Clone, Copy, PartialEq, Eq)]
pub enum EntryKind {
    Directory,
    File,
    /// Neither of the two: a link that leads nowhere, a socket, a device.
    Other,
}

/// What the stager does with an entry of the directory that it copies.
#[derive(Debug, Clone, Copy, PartialEq, Eq)]
pub enum StageAction {
    /// Leave the entry out.
    Skip,
    /// Create the directory in the sandbox, then stage what it holds.
    CreateDirectory,
    /// Copy the file, byte for byte.
    CopyFile,
}

/// Whether an entry of this name is left out of the sandbox: the directory
/// of build outputs and that of the version control.
pub open spec fn is_excluded(name: Seq<char>) -> bool {
    name == "target"@ || name == ".git"@
}

/// What is done with an entry: nothing where its name is excluded,
/// otherwise what its kind asks for.
pub open spec fn staged(name: Seq<char>, kind: EntryKind) -> StageAction {
    if is_excluded(name) {
        StageAction::Skip
    } else {
        match kind {
            EntryKind::Directory => StageAction::CreateDirectory,
            EntryKind::File => StageAction::CopyFile,
            EntryKind::Other => StageAction::Skip,
        }
    }
}

/// Decides what the stager does with the entry `name` of kind `kind`.
pub fn stage_action(name: &str, kind: EntryKind) -> (action: StageAction)
    ensures
        action == staged(name@, kind),
{
    if same_text(name, "target") || same_text(name, ".git") {
        StageAction::Skip
    } else {
        match kind {
            EntryKind::Directory => StageAction::CreateDirectory,
            EntryKind::File => StageAction::CopyFile,
            EntryKind::Other => StageAction::Skip,
        }
    }
}

/// Whether `text` begins with `prefix`.
pub open spec fn has_prefix(text: Seq<char>, prefix: Seq<char>) -> bool {
    text.len() >= prefix.len() && text.subrange(0, prefix.len() as int) == prefix
}

/// Whether a variable of the environment tells the build tool that it runs
/// inside a build: the variable `CARGO`, and every one whose name begins
/// with `CARGO_`.
pub open spec fn is_toolchain_variable(key: Seq<char>) -> bool {
    key == "CARGO"@ || has_prefix(key, "CARGO_"@)
}

/// Decides whether the variable `key` is removed from the environment of
/// the sandboxed build and run.
pub fn scrubs(key: &str) -> (scrubbed: bool)
    ensures
        scrubbed == is_toolchain_variable(key@),
{
    proof {
        reveal_strlit("CARGO_");
    }
    if same_text(key, "CARGO") {
        true
    } else if key.unicode_len() >= 6 {
        same_text(key.substring_char(0, 6), "CARGO_")
    } else {
        false
    }
}

/// A phase of an expansion, in the order in which the phases run.
#[derive(Debug, Clone, Copy, PartialEq, Eq)]
pub enum Phase {
    /// Remove what an earlier expansion left at the sandbox root.
    Clean,
    /// Create the sandbox root.
    CreateRoot,
    /// Copy the project into the sandbox.
    Stage,
    /// Rewrite the build descriptor.
    Manifest,
    /// Rewrite the entry file.
    Entry,
    /// Build the sandboxed program.
    Build,
    /// Run the sandboxed program and capture what it prints.
    Run,
    /// Splice the captured output into the declarations.
    Splice,
}

/// What follows a phase.
#[derive(Debug, Clone, Copy, PartialEq, Eq)]
pub enum Next {
    /// Go on with this phase.
    Go(Phase),
    /// The expansion is complete.
    Finish,
    /// The expansion is given up, and the build with it.
    Abort,
}

/// The place of a phase in the order of the phases.
pub open spec fn rank(phase: Phase) -> nat {
    match phase {
        Phase::Clean => 0,
        Phase::CreateRoot => 1,
        Phase::Stage => 2,
        Phase::Manifest => 3,
        Phase::Entry => 4,
        Phase::Build => 5,
        Phase::Run => 6,
        Phase::Splice => 7,
    }
}

/// Whether a failure of the phase ends the expansion. Cleaning may fail
/// (there may be nothing to clean), and so may the build, whose failure
/// shows when the program is run.
pub open spec fn is_fatal(phase: Phase) -> bool {
    phase != Phase::Clean && phase != Phase::Build
}

/// What follows `phase`, which has succeeded or not: the phase of the next
/// rank, or the end after the last one; nothing after a fatal failure.
pub open spec fn following(phase: Phase, succeeded: bool) -> Next {
    if !succeeded && is_fatal(phase) {
        Next::Abort
    } else {
        match phase {
            Phase::Clean => Next::Go(Phase::CreateRoot),
            Phase::CreateRoot => Next::Go(Phase::Stage),
            Phase::Stage => Next::Go(Phase::Manifest),
            Phase::Manifest => Next::Go(Phase::Entry),
            Phase::Entry => Next::Go(Phase::Build),
            Phase::Build => Next::Go(Phase::Run),
            Phase::Run => Next::Go(Phase::Splice),
            Phase::Splice => Next::Finish,
        }
    }
}

/// The phase with which an expansion begins.
pub fn first_phase() -> (phase: Phase)
    ensures
        phase == Phase::Clean,
{
    Phase::Clean
}

/// Decides what follows `phase`, given whether it succeeded.
pub fn next_phase(phase: Phase, succeeded: bool) -> (next: Next)
    ensures
        next == following(phase, succeeded),
{
    match phase {
        Phase::Clean => Next::Go(Phase::CreateRoot),
        Phase::Build => Next::Go(Phase::Run),
        _ => if !succeeded {
            Next::Abort
        } else {
            match phase {
                Phase::CreateRoot => Next::Go(Phase::Stage),
                Phase::Stage => Next::Go(Phase::Manifest),
                Phase::Manifest => Next::Go(Phase::Entry),
                Phase::Entry => Next::Go(Phase::Build),
                Phase::Run => Next::Go(Phase::Splice),
                _ => Next::Finish,
            }
        },
    }
}

/// No phase runs twice and none is skipped: what follows a phase is the
/// phase of the next rank, and only the last phase is followed by the end.
pub proof fn lemma_phases_in_order(phase: Phase, succeeded: bool)
    ensures
        following(phase, succeeded) matches Next::Go(next) ==> rank(next) == rank(phase) + 1,
        following(phase, succeeded) == Next::Finish <==> succeeded && phase == Phase::Splice,
        following(phase, succeeded) == Next::Abort <==> !succeeded && is_fatal(phase),
{
}

/// Why an expansion has no result.
#[derive(Debug)]
pub enum EvalError {
    /// The sandboxed program failed. The message holds what it wrote to its
    /// standard error.
    Failed { message: String },
    /// What the sandboxed program printed is not UTF-8.
    NotUtf8,
    /// What the sandboxed program printed does not fit the declarations.
    Splice(SpliceError),
}

/// The text that bytes are read as when every ill-formed part of them is
/// replaced by the replacement character.
pub uninterp spec fn lossy_text(bytes: Seq<u8>) -> Seq<char>;

/// Reads bytes as text, whatever they hold.
///
/// Calls `String::from_utf8_lossy`, which replaces what is not UTF-8 by the
/// replacement character, and so hands well-formed bytes on as the text that
/// they encode.
#[verifier::external_body]
fn read_lossy(bytes: &[u8]) -> (text: String)
    ensures
        text@ == lossy_text(bytes@),
        valid_utf8(bytes@) ==> text@ == decode_utf8(bytes@),
{
    String::from_utf8_lossy(bytes).into_owned()
}

/// Reads bytes as text, where they are UTF-8.
///
/// Calls `std::str::from_utf8`, which succeeds exactly on well-formed
/// UTF-8 and then gives the text that the bytes encode.
#[verifier::external_body]
fn read_utf8(bytes: &[u8]) -> (r: Option<&str>)
    ensures
        r is Some <==> valid_utf8(bytes@),
        r matches Some(text) ==> text@ == decode_utf8(bytes@),
{
    std::str::from_utf8(bytes).ok()
}

/// The message of a failed evaluation: the diagnostics of the program,
/// word for word, behind a heading.
pub open spec fn failure_message(diagnostics: Seq<char>) -> Seq<char> {
    "\nError: "@ + diagnostics
}

/// Whether `r` is the failure of the sandboxed program, with `message`.
pub open spec fn failed_with(r: Result<Vec<FinalDecl>, EvalError>, message: Seq<char>) -> bool {
    r matches Err(EvalError::Failed { message: held }) && held@ == message
}

/// The error for a sandboxed program that failed with `diagnostics` on its
/// standard error.
pub fn evaluation_failure(diagnostics: &str) -> (e: EvalError)
    ensures
        failed_with(Err::<Vec<FinalDecl>, EvalError>(e), failure_message(diagnostics@)),
{
    let mut message = String::new();
    push_text(&mut message, "\nError: ");
    push_text(&mut message, diagnostics);
    assert(message@ =~= failure_message(diagnostics@));
    EvalError::Failed { message }
}

/// Takes the outcome of the run of the sandboxed program back.
///
/// A run that did not succeed gives the failure with what the program wrote
/// to its standard error. Otherwise the output has to be UTF-8, and its
/// lines are spliced into the declarations.
pub fn collect(decls: &Vec<ConstDecl>, succeeded: bool, stdout: &[u8], stderr: &[u8]) -> (r:
    Result<Vec<FinalDecl>, EvalError>)
    ensures
        !succeeded ==> failed_with(r, failure_message(lossy_text(stderr@))),
        succeeded && !valid_utf8(stdout@) ==> r matches Err(EvalError::NotUtf8),
        succeeded && valid_utf8(stdout@) ==> match r {
            Ok(finals) => spliced(
                decls@,
                judge(lines(decode_utf8(stdout@))),
                Ok::<Vec<FinalDecl>, SpliceError>(finals),
            ),
            Err(EvalError::Splice(e)) => spliced(
                decls@,
                judge(lines(decode_utf8(stdout@))),
                Err::<Vec<FinalDecl>, SpliceError>(e),
            ),
            Err(_) => false,
        },
{
    if !succeeded {
        let diagnostics = read_lossy(stderr);
        return Err(evaluation_failure(diagnostics.as_str()));
    }
    match read_utf8(stdout) {
        Some(text) => {
            match splice(decls, text) {
                Ok(finals) => Ok(finals),
                Err(e) => Err(EvalError::Splice(e)),
            }
        },
        None => Err(EvalError::NotUtf8),
    }
}

/// The literal texts of values, in order.
pub open spec fn literals(values: Seq<Lit>) -> Seq<Seq<char>> {
    values.map_values(|value: Lit| encoding(value)->0)
}

/// Each declaration gets the value of its own initializer. Let the
/// sandboxed program print, for the declarations in order, the literal text
/// of one value each, every text on a line of its own and accepted by the
/// expression parser. Then splicing succeeds, and the final declaration at
/// place `i` holds the literal of value `i`, which reads back as that value.
pub proof fn lemma_evaluated_in_order(
    decls: Seq<ConstDecl>,
    values: Seq<Lit>,
    r: Result<Vec<FinalDecl>, SpliceError>,
    i: int,
)
    requires
        values.len() == decls.len(),
        forall|k: int|
            0 <= k < values.len() ==> is_plain(#[trigger] values[k]) && is_one_line(
                literals(values)[k],
            ) && is_expression(literals(values)[k]),
        spliced(decls, judge(lines(joined(literals(values)))), r),
        0 <= i < decls.len(),
    ensures
        r is Ok,
        r->Ok_0.len() == decls.len(),
        r->Ok_0[i]@ == with_literal(decls[i]@, encoding(values[i])->0),
        parse(r->Ok_0[i]@.value) == Some(values[i]),
{
    let written = literals(values);
    assert forall|k: int| 0 <= k < written.len() implies is_one_line(#[trigger] written[k]) by {
        assert(is_plain(values[k]));
    }
    lemma_lines_of_joined(written);
    let judged = judge(written);
    assert forall|k: int| 0 <= k < judged.len() implies (#[trigger] judged[k]).1 by {
        assert(is_plain(values[k]));
    }
    match r {
        Ok(finals) => {
            assert(judged[i].1);
            assert(finals[i]@ == with_literal(decls[i]@, judged[i].0));
        },
        Err(SpliceError::MissingLine { index }) => {
            assert(index as int == judged.len());
        },
        Err(SpliceError::NotAnExpression { index }) => {
            assert(judged[index as int].1);
        },
    }
    lemma_round_trip(values[i]);
}

} // verus!
