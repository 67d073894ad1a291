//! Answer records and their identifiers.
//!
//! An answer holds a foreign reference to the question it belongs to; the
//! store checks that reference at creation time and never afterwards.

use vstd::prelude::*;

use crate::question::QuestionId;

verus! {

/// The mathematical value of an [`Answer`].
pub ghost struct AnswerView {
    pub id: Seq<char>,
    pub content: Seq<char>,
    pub question_id: Seq<char>,
}

/// An opaque answer identifier, compared and hashed by value.
#[derive(Debug, PartialEq, Eq, Hash)]
pub struct AnswerId(pub String);

impl View for AnswerId {
    type V = Seq<char>;

    open spec fn view(&self) -> Seq<char> {
        self.0@
    }
}

impl DeepView for AnswerId {
    type V = Seq<char>;

    open spec fn deep_view(&self) -> Seq<char> {
        self@
    }
}

impl Clone for AnswerId {
    fn clone(&self) -> (r: Self)
        ensures
            r@ == self@,
    {
        AnswerId(self.0.clone())
    }
}

/// An answer record: an identifier, a content body, and the identifier of
/// the question it answers.
#[derive(Debug, PartialEq, Eq, Hash)]
pub struct Answer {
    pub id: AnswerId,
    pub content: String,
    pub question_id: QuestionId,
}

impl View for Answer {
    type V = AnswerView;

    open spec fn view(&self) -> AnswerView {
        AnswerView { id: self.id@, content: self.content@, question_id: self.question_id@ }
    }
}

impl DeepView for Answer {
    type V = AnswerView;

    open spec fn deep_view(&self) -> AnswerView {
        self@
    }
}

impl Clone for Answer {
    fn clone(&self) -> (r: Self)
        ensures
            r@ == self@,
    {
        Answer {
            id: self.id.clone(),
            content: self.content.clone(),
            question_id: self.question_id.clone(),
        }
    }
}

impl Answer {
    /// Builds an answer record from its parts.
    pub fn new(id: &str, content: &str, question_id: QuestionId) -> (r: Self)
        ensures
            r@ == (AnswerView { id: id@, content: content@, question_id: question_id@ }),
    {
        Answer { id: AnswerId(id.to_owned()), content: content.to_owned(), question_id }
    }
}

} // verus!
