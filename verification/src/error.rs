//! Fatal error model: a lex or parse failure, tagged with the source span
//! it points at. Collecting and rendering errors is the formatter's job.

use vstd::prelude::*;
use crate::formatter::{Formatter, line_end, line_start};
use crate::token::TokenSpan;

verus! {

/// Severity of a reported problem.
#[derive(Clone, Copy, Debug, PartialEq, Eq, Structural)]
pub enum ErrorClass {
    Warning,
    Error,
}

/// The two fatal error kinds: a failure while scanning tokens, and a failure
/// while assembling the expression tree. Each carries a short message.
#[derive(Clone, Debug)]
pub enum ErrorKind {
    LexError(String),
    ParseError(String),
}

/// A single reported error: severity, kind, and the inclusive byte span of
/// the offending source text.
#[derive(Clone, Debug)]
pub struct SkError {
    pub class: ErrorClass,
    pub kind: ErrorKind,
    pub span: TokenSpan,
}

/// Collects the errors reported against one source text and renders each
/// through the formatter.
pub struct Errors<'a> {
    errs: Vec<SkError>,
    fmt: &'a Formatter,
}

impl<'a> Errors<'a> {
    /// The errors recorded so far, in report order.
    pub closed spec fn recorded(&self) -> Seq<SkError> {
        self.errs@
    }

    /// The formatter these errors are rendered through.
    pub closed spec fn formatter(&self) -> Formatter {
        *self.fmt
    }

    /// An empty error collection rendered through `fmt`.
    pub fn initialize(fmt: &'a Formatter) -> (r: Errors<'a>)
        ensures
            r.recorded() == Seq::<SkError>::empty(),
            r.formatter() == *fmt,
    {
        Errors { errs: Vec::new(), fmt }
    }

    /// Records one more error whose span covers the bytes `start..=end`.
    pub fn new(&mut self, class: ErrorClass, kind: ErrorKind, start: usize, end: usize)
        ensures
            final(self).recorded() == old(self).recorded().push(
                SkError { class, kind, span: TokenSpan { 0: start, 1: end } },
            ),
            final(self).formatter() == old(self).formatter(),
    {
        self.errs.push(SkError { class, kind, span: TokenSpan(start, end) })
    }

    /// How many errors are recorded.
    pub fn count(&self) -> (n: usize)
        ensures
            n == self.recorded().len(),
    {
        self.errs.len()
    }

    /// Renders one error: the source line its span starts on, and the caret
    /// underline that marks the span's bytes within that line.
    pub fn print_error(&self, err: &SkError) -> (r: (Vec<u8>, Vec<u8>))
        requires
            err.span.0 <= self.formatter().src().len(),
        ensures
            ({
                let src = self.formatter().src();
                let s = line_start(src, err.span.0 as int);
                let e = line_end(src, err.span.0 as int);
                &&& r.0@ == src.subrange(s, e)
                &&& r.1@.len() == r.0@.len()
                &&& forall|k: int|
                    0 <= k < r.1@.len() ==> r.1@[k] == if err.span.0 <= s + k <= err.span.1 {
                        94u8
                    } else {
                        32u8
                    }
            }),
    {
        let (line, s, _e) = self.fmt.get_line(err.span.0);
        let underline = Formatter::get_underline(&line, s, err.span.0, err.span.1);
        (line, underline)
    }
}

} // verus!
