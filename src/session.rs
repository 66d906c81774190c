//! The decisions of the interactive session: which path a typed line stands
//! for, and whether a load is good enough to go on to the export.

use vstd::prelude::*;
use crate::loader::{Lan, LoadError};
use crate::text::{blank, is_blank, is_trim_of, trimmed};

verus! {

/// Where the session stands.
#[derive(PartialEq, Eq, Structural, Clone, Copy, Debug)]
pub enum Stage {
    /// Asking for the directory of language files.
    AwaitingDirectory,
    /// Asking where to write the sheet.
    AwaitingOutputPath,
}

/// The path that a typed line stands for: the line without surrounding
/// whitespace, or, when nothing but whitespace was typed, the default
/// without surrounding whitespace.
pub fn resolve_input(line: &str, default: &str) -> (r: String)
    ensures
        !blank(line@) ==> is_trim_of(r@, line@),
        blank(line@) ==> is_trim_of(r@, default@),
{
    if is_blank(line) {
        trimmed(default)
    } else {
        trimmed(line)
    }
}

/// The stage that follows an attempt to load a directory: the session moves
/// on only when at least one language was loaded, and asks again otherwise.
pub fn stage_after_load(loaded: &Result<Vec<Lan>, LoadError>) -> (s: Stage)
    ensures
        s == (if loaded is Ok && loaded->Ok_0@.len() > 0 {
            Stage::AwaitingOutputPath
        } else {
            Stage::AwaitingDirectory
        }),
{
    match loaded {
        Ok(langs) => if langs.len() > 0 {
            Stage::AwaitingOutputPath
        } else {
            Stage::AwaitingDirectory
        },
        Err(_) => Stage::AwaitingDirectory,
    }
}

} // verus!
