//! Build-time evaluation of constant initializers.
//!
//! Two halves live here: the literal-syntax serializer, which renders a
//! structured value as the source text of a literal expression, and the pure
//! rules of the sandboxed evaluator (what to stage, how to rewrite the build
//! descriptor and the entry file, how to read the captured output back).

pub mod decl;
pub mod entry;
pub mod grammar;
pub mod manifest;
pub mod number;
pub mod sandbox;
pub mod ser;
pub mod text;
pub mod toml_doc;
pub mod value;

pub use decl::{splice, splice_lines, ConstDecl, FinalDecl, OutputLine, SpliceError};
pub use entry::{rewrite_entry, rewrite_entry_point, EntryError, SourceFile, SourceItem};
pub use manifest::{relative_paths, rewrite_manifest, starts_at_root, ManifestError, ResolvedPath};
pub use number::push_number;
pub use sandbox::{
    collect, evaluation_failure, first_phase, next_phase, scrubs, stage_action, EntryKind,
    EvalError, Next, Phase, StageAction,
};
pub use ser::{to_string, Error};
pub use value::{Datum, Field};
