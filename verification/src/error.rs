//! Tracking errors through queries.
//!
//! Queries that can report errors return `WithError<T>`; the errors in it
//! were discovered while running that query. `WithError` always carries a
//! value (possibly an error sentinel), so a caller may ignore the errors
//! and go on. `Result<T, ErrorReported>` marks a value that could not be
//! produced because of an error reported elsewhere.
use vstd::prelude::*;

use crate::span::Span;

verus! {

/// Unit type used in `Result` to indicate a value derived from another
/// value for which an error was already reported.
#[derive(Copy, Clone, Debug, PartialEq, Eq, Structural, Hash, PartialOrd, Ord)]
pub struct ErrorReported;

/// Types with a value that stands in for a result that could not be
/// computed because of an error.
pub trait ErrorSentinel<Cx>: Sized {
    /// The sentinel that `error_sentinel` builds from `cx`.
    spec fn sentinel_of(cx: Cx) -> Self;

    fn error_sentinel(cx: Cx) -> (r: Self)
        ensures
            r == Self::sentinel_of(cx),
    ;
}

impl<T, Cx> ErrorSentinel<Cx> for Result<T, ErrorReported> {
    open spec fn sentinel_of(cx: Cx) -> Self {
        Err(ErrorReported)
    }

    fn error_sentinel(cx: Cx) -> (r: Self) {
        Err(ErrorReported)
    }
}

/// A value together with the errors reported while computing it.
pub struct WithError<T> {
    pub value: T,
    pub errors: Vec<Span>,
}

impl<T> WithError<T> {
    /// A result with no error at all.
    pub fn ok(value: T) -> (r: WithError<T>)
        ensures
            r.value == value,
            r.errors@ == Seq::<Span>::empty(),
    {
        WithError { value, errors: Vec::new() }
    }

    /// A result reporting one new error at `span`; the value is the error
    /// sentinel.
    pub fn report_error<Cx>(cx: Cx, span: Span) -> (r: WithError<T>) where T: ErrorSentinel<Cx>
        ensures
            r.value == T::sentinel_of(cx),
            r.errors@ == seq![span],
    {
        let mut errors = Vec::new();
        errors.push(span);
        WithError { value: T::error_sentinel(cx), errors }
    }

    /// A result whose value is the error sentinel, for an error that was
    /// already reported elsewhere (so no error is recorded here).
    pub fn error_sentinel<Cx>(cx: Cx) -> (r: WithError<T>) where T: ErrorSentinel<Cx>
        ensures
            r.value == T::sentinel_of(cx),
            r.errors@ == Seq::<Span>::empty(),
    {
        WithError::ok(T::error_sentinel(cx))
    }

    /// Appends the errors to `vec` and returns the value.
    pub fn accumulate_errors_into(self, vec: &mut Vec<Span>) -> (r: T)
        ensures
            r == self.value,
            final(vec)@ == old(vec)@ + self.errors@,
    {
        let mut errors = self.errors;
        vec.append(&mut errors);
        self.value
    }

    pub fn into_value(self) -> (r: T)
        ensures
            r == self.value,
    {
        self.value
    }

    /// `Err` exactly when some error was reported.
    pub fn into_result(self) -> (r: Result<T, ErrorReported>)
        ensures
            self.errors@.len() > 0 ==> r == Err::<T, ErrorReported>(ErrorReported),
            self.errors@.len() == 0 ==> r == Ok::<T, ErrorReported>(self.value),
    {
        if self.errors.len() != 0 {
            Err(ErrorReported)
        } else {
            Ok(self.value)
        }
    }
}

} // verus!
