//! The error that every fallible operation of the library reports.

use vstd::prelude::*;

use crate::text::string_of;

verus! {

/// An error: either a rejected input (with a stable machine-readable `code`,
/// a human-readable `message` and an optional `suggestion`), or a problem
/// with the archive itself.
#[derive(Debug)]
pub enum ComposeError {
    InvalidInput { code: String, message: String, suggestion: Option<String> },
    Catalog(String),
}

/// What an error holds, as character sequences.
pub enum ErrorView {
    InvalidInput { code: Seq<char>, message: Seq<char>, suggestion: Option<Seq<char>> },
    Catalog(Seq<char>),
}

pub open spec fn opt_string_view(s: Option<String>) -> Option<Seq<char>> {
    match s {
        Some(x) => Some(x@),
        None => None,
    }
}

impl View for ComposeError {
    type V = ErrorView;

    open spec fn view(&self) -> ErrorView {
        match self {
            ComposeError::InvalidInput { code, message, suggestion } => ErrorView::InvalidInput {
                code: code@,
                message: message@,
                suggestion: opt_string_view(*suggestion),
            },
            ComposeError::Catalog(m) => ErrorView::Catalog(m@),
        }
    }
}

/// A rejected input without a suggestion.
pub open spec fn invalid_err(code: Seq<char>, message: Seq<char>) -> ErrorView {
    ErrorView::InvalidInput { code, message, suggestion: None }
}

/// The text that the error displays: the message of a rejected input, or the
/// archive problem behind `catalog error: `.
pub open spec fn display_text(e: ErrorView) -> Seq<char> {
    match e {
        ErrorView::InvalidInput { message, .. } => message,
        ErrorView::Catalog(m) => "catalog error: "@ + m,
    }
}

impl ComposeError {
    /// A rejected input with the given code and message, and no suggestion.
    pub fn invalid(code: &str, message: String) -> (e: Self)
        ensures
            e@ == invalid_err(code@, message@),
    {
        ComposeError::InvalidInput { code: code.to_owned(), message, suggestion: None }
    }

    /// A rejected input with the given code, message and suggestion.
    pub fn invalid_suggest(code: &str, message: String, suggestion: String) -> (e: Self)
        ensures
            e@ == (ErrorView::InvalidInput {
                code: code@,
                message: message@,
                suggestion: Some(suggestion@),
            }),
    {
        ComposeError::InvalidInput { code: code.to_owned(), message, suggestion: Some(suggestion) }
    }

    /// The text that the error displays.
    pub fn to_string(&self) -> (s: String)
        ensures
            s@ == display_text(self@),
    {
        match self {
            ComposeError::InvalidInput { message, .. } => message.clone(),
            ComposeError::Catalog(m) => {
                let mut v: Vec<char> = Vec::new();
                crate::text::push_str(&mut v, "catalog error: ");
                crate::text::push_str(&mut v, m.as_str());
                string_of(&v)
            },
        }
    }
}

} // verus!
