//! Question records and their identifiers.
//!
//! A `QuestionId` is an opaque string identifier; parsing one only checks
//! that the raw input is non-empty. Questions are immutable value objects;
//! all sharing and mutation goes through the store.

use vstd::prelude::*;

use crate::errors::Error;

verus! {

/// The mathematical value of a [`Question`]: every contract in this crate
/// speaks of questions through this view.
pub ghost struct QuestionView {
    pub id: Seq<char>,
    pub title: Seq<char>,
    pub content: Seq<char>,
    pub tags: Option<Seq<Seq<char>>>,
}

/// An opaque question identifier, compared and hashed by value.
#[derive(Debug, PartialEq, Eq, Hash)]
pub struct QuestionId(pub String);

impl View for QuestionId {
    type V = Seq<char>;

    open spec fn view(&self) -> Seq<char> {
        self.0@
    }
}

impl DeepView for QuestionId {
    type V = Seq<char>;

    open spec fn deep_view(&self) -> Seq<char> {
        self@
    }
}

impl Clone for QuestionId {
    fn clone(&self) -> (r: Self)
        ensures
            r@ == self@,
    {
        QuestionId(self.0.clone())
    }
}

impl QuestionId {
    /// Parses a raw path segment into an identifier; the only rule is that
    /// the input must be non-empty.
    pub fn from_str(id: &str) -> (r: Result<QuestionId, Error>)
        ensures
            id@.len() > 0 ==> r is Ok && r.unwrap()@ == id@,
            id@.len() == 0 ==> r == Err::<QuestionId, Error>(Error::NotParsable),
    {
        if id.is_empty() {
            Err(Error::NotParsable)
        } else {
            Ok(QuestionId(id.to_owned()))
        }
    }
}

/// A question record: an identifier, a title, a content body, and an
/// optional ordered list of tags.
#[derive(Debug, PartialEq, Eq, Hash)]
pub struct Question {
    pub id: QuestionId,
    pub title: String,
    pub content: String,
    pub tags: Option<Vec<String>>,
}

impl View for Question {
    type V = QuestionView;

    open spec fn view(&self) -> QuestionView {
        QuestionView {
            id: self.id@,
            title: self.title@,
            content: self.content@,
            tags: self.tags.deep_view(),
        }
    }
}

impl DeepView for Question {
    type V = QuestionView;

    open spec fn deep_view(&self) -> QuestionView {
        self@
    }
}

impl Clone for Question {
    fn clone(&self) -> (r: Self)
        ensures
            r@ == self@,
    {
        Question {
            id: self.id.clone(),
            title: self.title.clone(),
            content: self.content.clone(),
            tags: clone_tags(&self.tags),
        }
    }
}

/// Clones an optional tag list, preserving its view.
fn clone_tags(tags: &Option<Vec<String>>) -> (r: Option<Vec<String>>)
    ensures
        r.deep_view() == tags.deep_view(),
{
    match tags {
        None => None,
        Some(v) => {
            let c = v.clone();
            proof {
                assert(c.deep_view() =~= v.deep_view());
            }
            Some(c)
        },
    }
}

impl Question {
    /// Builds a question record from its parts.
    pub fn new(id: QuestionId, title: String, content: String, tags: Option<Vec<String>>) -> (r:
        Self)
        ensures
            r@ == (QuestionView { id: id@, title: title@, content: content@, tags: tags.deep_view() }),
    {
        Question { id, title, content, tags }
    }
}

/// The body of a question create or replace request: everything a question
/// holds except its identifier.
#[derive(Debug, PartialEq, Eq, Hash)]
pub struct NewQuestion {
    pub title: String,
    pub content: String,
    pub tags: Option<Vec<String>>,
}

impl Clone for NewQuestion {
    fn clone(&self) -> (r: Self)
        ensures
            r.title@ == self.title@,
            r.content@ == self.content@,
            r.tags.deep_view() == self.tags.deep_view(),
    {
        NewQuestion {
            title: self.title.clone(),
            content: self.content.clone(),
            tags: clone_tags(&self.tags),
        }
    }
}

impl NewQuestion {
    /// Attaches an identifier to a request body, yielding the full record.
    pub fn into_question(self, id: QuestionId) -> (r: Question)
        ensures
            r@ == (QuestionView {
                id: id@,
                title: self.title@,
                content: self.content@,
                tags: self.tags.deep_view(),
            }),
    {
        Question { id, title: self.title, content: self.content, tags: self.tags }
    }
}

} // verus!
