//! The closed set of domain error kinds, and the pure mapping from a kind
//! to the transport-level status code and message.

use vstd::prelude::*;

verus! {

/// Everything that can go wrong while validating a request or operating on
/// the store. Every failing library operation reports one of these kinds;
/// the transport layer maps the kind to a response exactly once, at the edge.
#[derive(Debug, Clone, Copy, PartialEq, Eq, Structural)]
pub enum Error {
    /// A pagination value or an identifier could not be parsed.
    NotParsable,
    /// Only one half of the pagination pair was supplied.
    MissingParameter,
    /// The addressed question is not in the store.
    QuestionNotFound,
    /// The addressed answer is not in the store.
    AnswerNotFound,
    /// An answer body without content (or with empty content).
    ContentNotGiven,
    /// An insert with an identifier that is already taken.
    DuplicateId,
    /// A pagination window that reaches beyond the collection.
    OutOfRange,
    /// The backing store could not be reached or failed mid-query.
    BackendUnavailable,
}

/// The HTTP status code that a given error kind maps to.
pub open spec fn spec_status_of(e: Error) -> u16 {
    match e {
        Error::NotParsable => 422,
        Error::MissingParameter => 400,
        Error::QuestionNotFound => 404,
        Error::AnswerNotFound => 404,
        Error::ContentNotGiven => 422,
        Error::DuplicateId => 422,
        Error::OutOfRange => 400,
        Error::BackendUnavailable => 404,
    }
}

impl Error {
    /// The status code for this error kind: 400 for malformed pagination,
    /// 404 for a missing record (and, matching the observed fallback, for a
    /// backend failure), 422 for an unparsable body or identifier.
    pub fn status(&self) -> (r: u16)
        ensures
            r == spec_status_of(*self),
    {
        match self {
            Error::NotParsable => 422,
            Error::MissingParameter => 400,
            Error::QuestionNotFound => 404,
            Error::AnswerNotFound => 404,
            Error::ContentNotGiven => 422,
            Error::DuplicateId => 422,
            Error::OutOfRange => 400,
            Error::BackendUnavailable => 404,
        }
    }

    /// The client-visible message for this error kind.
    pub fn message(&self) -> (r: String)
        ensures
            self is NotParsable ==> r@ == "Parse Error!"@,
            self is MissingParameter ==> r@ == "Only one of them is sent!"@,
            self is QuestionNotFound ==> r@ == "Question Not found!"@,
            self is AnswerNotFound ==> r@ == "Answer Not found!"@,
            self is ContentNotGiven ==> r@ == "Content Not Given!"@,
            self is DuplicateId ==> r@ == "Id Already Taken!"@,
            self is OutOfRange ==> r@ == "Range Out Of Bounds!"@,
            self is BackendUnavailable ==> r@ == "Backend Unavailable!"@,
    {
        match self {
            Error::NotParsable => "Parse Error!".to_owned(),
            Error::MissingParameter => "Only one of them is sent!".to_owned(),
            Error::QuestionNotFound => "Question Not found!".to_owned(),
            Error::AnswerNotFound => "Answer Not found!".to_owned(),
            Error::ContentNotGiven => "Content Not Given!".to_owned(),
            Error::DuplicateId => "Id Already Taken!".to_owned(),
            Error::OutOfRange => "Range Out Of Bounds!".to_owned(),
            Error::BackendUnavailable => "Backend Unavailable!".to_owned(),
        }
    }
}

} // verus!
