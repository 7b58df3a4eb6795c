use vstd::prelude::*;

use crate::span::Span;
use crate::text::{decimal_string, decimal_text};

verus! {

/// A compile error: an optional source position and a message.
#[derive(Debug)]
pub struct CompileError {
    pub span: Option<Span>,
    pub msg: String,
}

/// The mathematical value of a [`CompileError`].
pub struct ErrorV {
    pub span: Option<Span>,
    pub msg: Seq<char>,
}

impl View for CompileError {
    type V = ErrorV;

    open spec fn view(&self) -> ErrorV {
        ErrorV { span: self.span, msg: self.msg@ }
    }
}

/// An error without a position.
pub open spec fn err_plain(msg: Seq<char>) -> ErrorV {
    ErrorV { span: None, msg }
}

/// An error reported at `span`.
pub open spec fn err_at(span: Span, msg: Seq<char>) -> ErrorV {
    ErrorV { span: Some(span), msg }
}

/// How an error is shown to the user: `LINE:COL: error: MSG`, or
/// `error: MSG` when it has no position.
pub open spec fn render_text(e: ErrorV) -> Seq<char> {
    match e.span {
        Some(s) => decimal_text(s.line as nat) + seq![':'] + decimal_text(s.col as nat)
            + ": error: "@ + e.msg,
        None => "error: "@ + e.msg,
    }
}

impl CompileError {
    pub fn new(msg: String) -> (e: CompileError)
        ensures
            e@ == err_plain(msg@),
    {
        CompileError { span: None, msg }
    }

    pub fn at(span: Span, msg: String) -> (e: CompileError)
        ensures
            e@ == err_at(span, msg@),
    {
        CompileError { span: Some(span), msg }
    }

    /// A copy of this error.
    pub fn duplicate(&self) -> (e: CompileError)
        ensures
            e@ == self@,
    {
        CompileError { span: self.span, msg: self.msg.clone() }
    }

    /// The error as text, the way it is displayed.
    pub fn render(&self) -> (s: String)
        ensures
            s@ == render_text(self@),
    {
        match self.span {
            Some(sp) => {
                let mut s = decimal_string(sp.line as u64);
                s.append(":");
                let col = decimal_string(sp.col as u64);
                s.append(col.as_str());
                s.append(": error: ");
                s.append(self.msg.as_str());
                proof {
                    reveal_strlit(":");
                }
                s
            },
            None => {
                let mut s = String::from_str("error: ");
                s.append(self.msg.as_str());
                s
            },
        }
    }
}

impl From<String> for CompileError {
    fn from(s: String) -> (e: CompileError) {
        CompileError { span: None, msg: s }
    }
}

impl vstd::std_specs::convert::FromSpecImpl<String> for CompileError {
    open spec fn obeys_from_spec() -> bool {
        true
    }

    open spec fn from_spec(s: String) -> CompileError {
        CompileError { span: None, msg: s }
    }
}

impl<'a> From<&'a str> for CompileError {
    fn from(s: &'a str) -> (e: CompileError)
        ensures
            e@ == err_plain(s@),
    {
        CompileError { span: None, msg: String::from_str(s) }
    }
}

impl<'a> vstd::std_specs::convert::FromSpecImpl<&'a str> for CompileError {
    open spec fn obeys_from_spec() -> bool {
        false
    }

    open spec fn from_spec(s: &'a str) -> CompileError {
        CompileError { span: None, msg: arbitrary() }
    }
}

} // verus!
