//! Documents the decorators of annotated declarations.
//!
//! The library reads a source file line by line, gathers the decorators that
//! stand above a field or class declaration, and writes a guarded comment block
//! that summarises them above the decorators. Before a rewritten text is
//! accepted, a line diff against the original must show that no line was lost.
use vstd::prelude::*;

pub mod engine;
pub mod safety;
pub mod shapes;
pub mod text;

use crate::engine::{annotate, annotated};
use crate::safety::{DestructiveEditError, has_removal, line_diff, verify_insertions};
use crate::shapes::Patterns;
use crate::text::{join_lines, joined_lines, kept_in_order, text_lines, views};

verus! {

/// Rewrites the lines of one file with a comment block above each decorated
/// declaration, and accepts the result only where it loses no line of the
/// original text (each line followed by a newline).
pub fn transform(p: &Patterns, lines: &Vec<String>) -> (r: Result<String, DestructiveEditError>)
    ensures
        r is Ok <==> !has_removal(line_diff(joined_lines(views(lines@)), annotated(views(lines@)))),
        r matches Ok(t) ==> t@ == annotated(views(lines@)),
        r matches Ok(t) ==> kept_in_order(text_lines(joined_lines(views(lines@))), text_lines(t@)),
        r matches Err(e) ==> text_lines(joined_lines(views(lines@))).contains(e.line@),
{
    let rewritten = annotate(p, lines);
    let original = join_lines(lines);
    match verify_insertions(&original, &rewritten) {
        Ok(()) => Ok(rewritten),
        Err(e) => Err(e),
    }
}

} // verus!
