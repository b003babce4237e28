//! The compiler's error value.

use vstd::prelude::*;
use crate::ast::Span;
use crate::text::string_push_str;

verus! {

/// A compile-time error with its human-readable message and the source
/// location it points at (the empty span at offset 0 when there is none).
#[derive(Debug, Clone)]
pub struct CompileError {
    pub message: String,
    pub span: Span,
}

/// The span of an error that points at no source.
pub open spec fn no_span() -> Span {
    Span { start: 0, end: 0 }
}

impl CompileError {
    /// An error carrying `message` at `span`.
    pub fn new(message: String, span: Span) -> (e: CompileError)
        ensures
            e.message@ == message@,
            e.span == span,
    {
        CompileError { message, span }
    }

    /// An error carrying `message` and no source location.
    pub fn without_span(message: String) -> (e: CompileError)
        ensures
            e.message@ == message@,
            e.span == no_span(),
    {
        CompileError { message, span: Span { start: 0, end: 0 } }
    }

    /// An error whose message is the text of `message`.
    pub fn from_str_message(message: &str) -> (e: CompileError)
        ensures
            e.message@ == message@,
            e.span == no_span(),
    {
        let mut s = String::new();
        string_push_str(&mut s, message);
        assert(s@ =~= message@);
        CompileError { message: s, span: Span { start: 0, end: 0 } }
    }
}

} // verus!
