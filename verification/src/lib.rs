//! A tree-walking interpreter for a small dynamically typed scripting
//! language: a scanner, a recursive-descent parser, a value model with its
//! operators, and an execution engine with lexically scoped environments.
//!
//! The library performs no input or output and no floating-point
//! arithmetic. A number is carried as the bit pattern of its IEEE 754
//! double; whatever has to be computed on doubles is handed to the host as
//! a question, and the host's answer is taken back as a plain value.

pub mod interp;
pub mod lex;
pub mod parse;
pub mod util;

use vstd::prelude::*;
use vstd::string::StringExecFns;
use std::path::PathBuf;

verus! {

/// `std::io::Error`. Opaque: the library only carries it.
#[verifier::external_type_specification]
#[verifier::external_body]
pub struct ExIoError(std::io::Error);

/// `std::path::PathBuf`. Opaque: the library only carries it.
#[verifier::external_type_specification]
#[verifier::external_body]
pub struct ExPathBuf(PathBuf);

/// Why a source could not be run.
#[derive(Debug)]
pub enum LoxError {
    /// The source could not be read.
    IoError(std::io::Error),
    /// The source has lexical errors; this is one of them.
    LexError(lex::LexError),
    /// The file at this path is empty.
    EmptyError(PathBuf),
}

/// The source text of a file that was read from `path`: `contents`, with a
/// line break at its end if it had none. An empty file is no source.
pub fn source_text(contents: String, path: PathBuf) -> (result: Result<String, LoxError>)
    ensures
        match result {
            Ok(source) => contents@.len() > 0 && source@ == if contents@.last() == '\n' {
                contents@
            } else {
                contents@.push('\n')
            },
            Err(error) => contents@.len() == 0 && error == LoxError::EmptyError(path),
        },
{
    let chars = util::to_chars(contents.as_str());
    if chars.len() == 0 {
        return Err(LoxError::EmptyError(path));
    }
    if chars[chars.len() - 1] == '\n' {
        Ok(contents)
    } else {
        let mut source = contents;
        proof {
            reveal_strlit("\n");
        }
        source.append("\n");
        assert(source@ =~= contents@.push('\n'));
        Ok(source)
    }
}

} // verus!
