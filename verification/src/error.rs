//! Central error type of the query engine.

use vstd::prelude::*;

verus! {

/// Errors that can occur while parsing, planning, executing, or reading storage.
#[derive(Debug)]
pub enum ArborError {
    /// SQL parsing failed.
    Parse(String),
    /// Logical planning failed (e.g. unknown relation or invalid types).
    Plan(String),
    /// Runtime execution failed.
    Execution(String),
    /// Parquet or catalog I/O failed.
    Storage(String),
    /// Type coercion or mismatch.
    Type(String),
}

/// What an [`ArborError`] says: its kind and its text.
pub enum ErrorView {
    Parse(Seq<char>),
    Plan(Seq<char>),
    Execution(Seq<char>),
    Storage(Seq<char>),
    Type(Seq<char>),
}

impl View for ArborError {
    type V = ErrorView;

    open spec fn view(&self) -> ErrorView {
        match self {
            ArborError::Parse(s) => ErrorView::Parse(s@),
            ArborError::Plan(s) => ErrorView::Plan(s@),
            ArborError::Execution(s) => ErrorView::Execution(s@),
            ArborError::Storage(s) => ErrorView::Storage(s@),
            ArborError::Type(s) => ErrorView::Type(s@),
        }
    }
}

impl ErrorView {
    /// The words an error is reported with: the kind, a colon, the text.
    pub open spec fn message(self) -> Seq<char> {
        match self {
            ErrorView::Parse(s) => "parse error: "@ + s,
            ErrorView::Plan(s) => "plan error: "@ + s,
            ErrorView::Execution(s) => "execution error: "@ + s,
            ErrorView::Storage(s) => "storage error: "@ + s,
            ErrorView::Type(s) => "type error: "@ + s,
        }
    }
}

impl ArborError {
    /// The words this error is reported with.
    pub fn message(&self) -> (r: String)
        ensures
            r@ == self@.message(),
    {
        match self {
            ArborError::Parse(s) => "parse error: ".to_string().concat(s.as_str()),
            ArborError::Plan(s) => "plan error: ".to_string().concat(s.as_str()),
            ArborError::Execution(s) => "execution error: ".to_string().concat(s.as_str()),
            ArborError::Storage(s) => "storage error: ".to_string().concat(s.as_str()),
            ArborError::Type(s) => "type error: ".to_string().concat(s.as_str()),
        }
    }
}

/// A result by the views of its value and its error.
pub open spec fn result_view<T: View>(r: Result<T, ArborError>) -> Result<T::V, ErrorView> {
    match r {
        Ok(v) => Ok(v@),
        Err(e) => Err(e@),
    }
}

/// A planning error with the given text.
pub fn plan_error(text: &str) -> (r: ArborError)
    ensures
        r@ == ErrorView::Plan(text@),
{
    ArborError::Plan(text.to_string())
}

} // verus!
