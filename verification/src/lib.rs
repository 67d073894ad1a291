//! A small Q&A board library: questions, answers, pagination and the
//! validation and error rules around a concurrency-agnostic store.
//!
//! The store itself is a plain value; callers that serve many requests at
//! once wrap it in a lock and perform each operation under exclusive access.

pub mod answer;
pub mod codec;
pub mod errors;
pub mod pagination;
pub mod question;
pub mod store;

pub use answer::{Answer, AnswerId};
pub use codec::{decode_question, encode_question};
pub use errors::Error;
pub use pagination::{extract_pagination, Pagination};
pub use question::{NewQuestion, Question, QuestionId};
pub use store::Store;
