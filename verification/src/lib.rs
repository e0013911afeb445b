//! Deterministic re-rendering of textual debug output.
//!
//! The crate parses the conventional nested-structure debug syntax into a
//! [`value::Value`] tree, reorders the entries of every map in the tree into
//! a deterministic order (recursing through structs, tuples, lists and sets
//! without touching their order), and renders the tree back to text, so
//! that two logically equal values always yield byte-identical text.

use vstd::prelude::*;

pub mod canon;
pub mod laws;
pub mod order;
pub mod parser;
pub mod render;
pub mod value;

use crate::canon::{canon, sort_maps};
use crate::parser::{p_text, parse_text};
use crate::render::{render, spec_render};
use crate::value::Value;

verus! {

/// The text did not conform to the supported debug grammar: unbalanced
/// delimiters, an unterminated string, or an unexpected token. The
/// canonicalizing comparison cannot proceed on such input.
#[derive(Clone, Copy, Debug, PartialEq, Eq, Structural)]
pub struct ParseError;

impl ParseError {
    /// A human-readable description of the failure.
    pub fn message(&self) -> (m: String)
        ensures
            m@ == "debug text does not conform to the supported grammar"@,
    {
        let m = "debug text does not conform to the supported grammar";
        m.to_owned()
    }
}

/// Parses a whole debug text into a value tree; `Err` exactly when the
/// text does not match the grammar.
pub fn parse_debug_text(s: &str) -> (r: Result<Value, ParseError>)
    ensures
        match r {
            Result::Ok(v) => parse_text(s@) == Option::Some(v@),
            Result::Err(_) => parse_text(s@) is None,
        },
{
    match p_text(s) {
        Option::None => Result::Err(ParseError),
        Option::Some(v) => Result::Ok(v),
    }
}

/// Wrapper around one debug text, holding its canonical rendering: the
/// same tree re-rendered with every map's entries in sorted order.
pub struct SortedDebug {
    text: String,
}

impl SortedDebug {
    /// The canonical text this wrapper carries.
    pub closed spec fn spec_text(&self) -> Seq<char> {
        self.text@
    }

    /// Runs the whole pipeline on a debug text: parse, canonicalize,
    /// re-render. `Err` exactly when the text does not match the grammar.
    pub fn new(debug_text: &str) -> (r: Result<SortedDebug, ParseError>)
        ensures
            match r {
                Result::Ok(sd) => parse_text(debug_text@) matches Option::Some(v)
                    && sd.spec_text() == spec_render(canon(v), ""@),
                Result::Err(_) => parse_text(debug_text@) is None,
            },
    {
        match parse_debug_text(debug_text) {
            Result::Err(e) => Result::Err(e),
            Result::Ok(v) => {
                let mut v = v;
                sort_maps(&mut v);
                Result::Ok(SortedDebug { text: render(&v) })
            },
        }
    }

    /// The canonical text, as a string.
    pub fn text(&self) -> (t: String)
        ensures
            t@ == self.spec_text(),
    {
        self.text.clone()
    }
}

} // verus!
