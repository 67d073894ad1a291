//! The store: the single source of truth for questions and answers.
//!
//! The store is a plain value with no interior locking; every operation is
//! a whole-value read or `&mut` write, so a caller that serves concurrent
//! requests wraps the store in a reader/writer lock and holds it for the
//! duration of one operation. Under that discipline each operation is
//! atomic: no partially applied write is ever visible.
//!
//! Records are kept in insertion order; the contracts expose both the
//! ordered sequence (which listing slices) and the derived key-to-record
//! map (which lookups and the uniqueness invariant speak of).

use vstd::prelude::*;

use crate::answer::{Answer, AnswerId, AnswerView};
use crate::errors::Error;
use crate::pagination::Pagination;
use crate::question::{NewQuestion, Question, QuestionId, QuestionView};

verus! {

/// The key a question is stored under.
pub open spec fn question_key() -> spec_fn(QuestionView) -> Seq<char> {
    |q: QuestionView| q.id
}

/// The key an answer is stored under.
pub open spec fn answer_key() -> spec_fn(AnswerView) -> Seq<char> {
    |a: AnswerView| a.id
}

/// Whether no two records in `s` share a key.
pub open spec fn unique_keys<V>(s: Seq<V>, key: spec_fn(V) -> Seq<char>) -> bool {
    forall|i: int, j: int| 0 <= i < j < s.len() ==> key(#[trigger] s[i]) != key(#[trigger] s[j])
}

/// Whether some record in `s` is stored under `id`.
pub open spec fn has_key<V>(s: Seq<V>, key: spec_fn(V) -> Seq<char>, id: Seq<char>) -> bool {
    exists|i: int| 0 <= i < s.len() && key(#[trigger] s[i]) == id
}

/// The index of the record stored under `id` (unique when keys are unique).
pub open spec fn key_index<V>(s: Seq<V>, key: spec_fn(V) -> Seq<char>, id: Seq<char>) -> int {
    choose|i: int| 0 <= i < s.len() && key(#[trigger] s[i]) == id
}

/// The key-to-record map that an ordered record sequence denotes; a later
/// record shadows an earlier one with the same key, so that on a sequence
/// with unique keys the map holds exactly the records of the sequence.
pub open spec fn keyed_map<V>(s: Seq<V>, key: spec_fn(V) -> Seq<char>) -> Map<Seq<char>, V>
    decreases s.len(),
{
    if s.len() == 0 {
        Map::empty()
    } else {
        keyed_map(s.drop_last(), key).insert(key(s.last()), s.last())
    }
}

/// The map's domain is exactly the set of keys present in the sequence,
/// and it is finite.
pub proof fn lemma_keyed_map_dom<V>(s: Seq<V>, key: spec_fn(V) -> Seq<char>)
    ensures
        keyed_map(s, key).dom().finite(),
        forall|id: Seq<char>|
            #[trigger] keyed_map(s, key).dom().contains(id) <==> has_key(s, key, id),
    decreases s.len(),
{
    if s.len() == 0 {
        assert(forall|id: Seq<char>| !has_key(s, key, id));
    } else {
        lemma_keyed_map_dom(s.drop_last(), key);
        assert forall|id: Seq<char>| #[trigger]
            keyed_map(s, key).dom().contains(id) <==> has_key(s, key, id) by {
            if keyed_map(s, key).dom().contains(id) {
                if id == key(s.last()) {
                    assert(key(s[s.len() - 1]) == id);
                } else {
                    let i = key_index(s.drop_last(), key, id);
                    assert(key(s.drop_last()[i]) == id);
                    assert(s.drop_last()[i] == s[i]);
                }
            }
            if has_key(s, key, id) {
                let i = key_index(s, key, id);
                if i == s.len() - 1 {
                } else {
                    assert(s.drop_last()[i] == s[i]);
                    assert(has_key(s.drop_last(), key, id));
                }
            }
        }
    }
}

/// On a sequence with unique keys, the map sends the key of the record at
/// index `i` to exactly that record.
pub proof fn lemma_keyed_map_index<V>(s: Seq<V>, key: spec_fn(V) -> Seq<char>, i: int)
    requires
        unique_keys(s, key),
        0 <= i < s.len(),
    ensures
        keyed_map(s, key).dom().contains(key(s[i])),
        keyed_map(s, key)[key(s[i])] == s[i],
    decreases s.len(),
{
    if i == s.len() - 1 {
    } else {
        assert(s.drop_last()[i] == s[i]);
        lemma_keyed_map_index(s.drop_last(), key, i);
        assert(key(s[i]) != key(s[s.len() - 1]));
    }
}

/// Appending a record with a key updates the map at that key alone.
pub proof fn lemma_keyed_map_push<V>(s: Seq<V>, key: spec_fn(V) -> Seq<char>, v: V)
    ensures
        keyed_map(s.push(v), key) == keyed_map(s, key).insert(key(v), v),
{
    assert(s.push(v).drop_last() =~= s);
    assert(s.push(v).last() == v);
}

/// Replacing the record at index `i` with one of the same key updates the
/// map at that key alone.
pub proof fn lemma_keyed_map_update<V>(s: Seq<V>, key: spec_fn(V) -> Seq<char>, i: int, v: V)
    requires
        unique_keys(s, key),
        0 <= i < s.len(),
        key(v) == key(s[i]),
    ensures
        keyed_map(s.update(i, v), key) == keyed_map(s, key).insert(key(v), v),
    decreases s.len(),
{
    let t = s.update(i, v);
    if i == s.len() - 1 {
        assert(t.drop_last() =~= s.drop_last());
        assert(t.last() == v);
        assert(keyed_map(t, key) == keyed_map(s.drop_last(), key).insert(key(v), v));
        assert(keyed_map(s.drop_last(), key).insert(key(s.last()), s.last()).insert(key(v), v)
            =~= keyed_map(s.drop_last(), key).insert(key(v), v));
    } else {
        assert(t.drop_last() =~= s.drop_last().update(i, v));
        assert(t.last() == s.last());
        assert(s.drop_last()[i] == s[i]);
        lemma_keyed_map_update(s.drop_last(), key, i, v);
        assert(key(v) != key(s.last()));
        assert(keyed_map(s.drop_last(), key).insert(key(v), v).insert(key(s.last()), s.last())
            =~= keyed_map(s.drop_last(), key).insert(key(s.last()), s.last()).insert(key(v), v));
    }
}

/// Removing the record at index `i` removes its key from the map and
/// nothing else.
pub proof fn lemma_keyed_map_remove<V>(s: Seq<V>, key: spec_fn(V) -> Seq<char>, i: int)
    requires
        unique_keys(s, key),
        0 <= i < s.len(),
    ensures
        keyed_map(s.remove(i), key) == keyed_map(s, key).remove(key(s[i])),
    decreases s.len(),
{
    let t = s.remove(i);
    if i == s.len() - 1 {
        assert(t =~= s.drop_last());
        lemma_keyed_map_dom(s.drop_last(), key);
        assert(!has_key(s.drop_last(), key, key(s[i]))) by {
            if has_key(s.drop_last(), key, key(s[i])) {
                let j = key_index(s.drop_last(), key, key(s[i]));
                assert(key(s[j]) == key(s[i]));
            }
        }
        assert(keyed_map(s.drop_last(), key).insert(key(s.last()), s.last()).remove(key(s.last()))
            =~= keyed_map(s.drop_last(), key));
    } else {
        assert(t.drop_last() =~= s.drop_last().remove(i));
        assert(t.last() == s.last());
        assert(s.drop_last()[i] == s[i]);
        lemma_keyed_map_remove(s.drop_last(), key, i);
        assert(key(s[i]) != key(s.last()));
        assert(keyed_map(s.drop_last(), key).remove(key(s[i])).insert(key(s.last()), s.last())
            =~= keyed_map(s.drop_last(), key).insert(key(s.last()), s.last()).remove(key(s[i])));
    }
}

/// On a sequence with unique keys the map has exactly one entry per record.
pub proof fn lemma_keyed_map_len<V>(s: Seq<V>, key: spec_fn(V) -> Seq<char>)
    requires
        unique_keys(s, key),
    ensures
        keyed_map(s, key).dom().finite(),
        keyed_map(s, key).dom().len() == s.len(),
    decreases s.len(),
{
    lemma_keyed_map_dom(s, key);
    if s.len() > 0 {
        lemma_keyed_map_len(s.drop_last(), key);
        lemma_keyed_map_dom(s.drop_last(), key);
        assert(!has_key(s.drop_last(), key, key(s.last()))) by {
            if has_key(s.drop_last(), key, key(s.last())) {
                let j = key_index(s.drop_last(), key, key(s.last()));
                assert(key(s[j]) == key(s[s.len() - 1]));
            }
        }
        assert(keyed_map(s, key).dom() =~= keyed_map(s.drop_last(), key).dom().insert(
            key(s.last()),
        ));
    }
}

/// Appending a record whose key is absent keeps keys unique.
pub proof fn lemma_unique_push<V>(s: Seq<V>, key: spec_fn(V) -> Seq<char>, v: V)
    requires
        unique_keys(s, key),
        !has_key(s, key, key(v)),
    ensures
        unique_keys(s.push(v), key),
{
    let t = s.push(v);
    assert forall|i: int, j: int| 0 <= i < j < t.len() implies key(#[trigger] t[i]) != key(
        #[trigger] t[j],
    ) by {
        if j == s.len() {
            assert(t[i] == s[i]);
            if key(s[i]) == key(v) {
                assert(has_key(s, key, key(v)));
            }
        } else {
            assert(t[i] == s[i]);
            assert(t[j] == s[j]);
        }
    }
}

/// Replacing a record with one of the same key keeps keys unique.
pub proof fn lemma_unique_update<V>(s: Seq<V>, key: spec_fn(V) -> Seq<char>, i: int, v: V)
    requires
        unique_keys(s, key),
        0 <= i < s.len(),
        key(v) == key(s[i]),
    ensures
        unique_keys(s.update(i, v), key),
{
    let t = s.update(i, v);
    assert forall|a: int, b: int| 0 <= a < b < t.len() implies key(#[trigger] t[a]) != key(
        #[trigger] t[b],
    ) by {
        assert(key(t[a]) == key(s[a]));
        assert(key(t[b]) == key(s[b]));
    }
}

/// Removing a record keeps keys unique.
pub proof fn lemma_unique_remove<V>(s: Seq<V>, key: spec_fn(V) -> Seq<char>, i: int)
    requires
        unique_keys(s, key),
        0 <= i < s.len(),
    ensures
        unique_keys(s.remove(i), key),
{
    let t = s.remove(i);
    assert forall|a: int, b: int| 0 <= a < b < t.len() implies key(#[trigger] t[a]) != key(
        #[trigger] t[b],
    ) by {
        let a0: int = if a < i { a } else { a + 1 };
        let b0: int = if b < i { b } else { b + 1 };
        assert(t[a] == s[a0]);
        assert(t[b] == s[b0]);
        assert(key(s[a0]) != key(s[b0]));
    }
}

/// The concurrency-agnostic container of questions and answers.
///
/// Both collections keep their records in insertion order and never hold
/// two records with the same identifier. Deleting a question does not
/// cascade to its answers: an answer outlives the question it references.
#[derive(Debug)]
pub struct Store {
    questions: Vec<Question>,
    answers: Vec<Answer>,
}

impl Store {
    /// The stored questions, in insertion order.
    pub closed spec fn qs(self) -> Seq<QuestionView> {
        self.questions.deep_view()
    }

    /// The stored answers, in insertion order.
    pub closed spec fn ans(self) -> Seq<AnswerView> {
        self.answers.deep_view()
    }

    /// The store's invariant: identifiers are unique within each collection.
    pub open spec fn wf(self) -> bool {
        unique_keys(self.qs(), question_key()) && unique_keys(self.ans(), answer_key())
    }

    /// The questions as a map from identifier to record.
    pub open spec fn qmap(self) -> Map<Seq<char>, QuestionView> {
        keyed_map(self.qs(), question_key())
    }

    /// The answers as a map from identifier to record.
    pub open spec fn amap(self) -> Map<Seq<char>, AnswerView> {
        keyed_map(self.ans(), answer_key())
    }

    /// Whether a question with the given identifier is stored.
    pub open spec fn has_question(self, id: Seq<char>) -> bool {
        has_key(self.qs(), question_key(), id)
    }

    /// Whether an answer with the given identifier is stored.
    pub open spec fn has_answer(self, id: Seq<char>) -> bool {
        has_key(self.ans(), answer_key(), id)
    }

    /// An empty store.
    pub fn new() -> (s: Store)
        ensures
            s.qs() == Seq::<QuestionView>::empty(),
            s.ans() == Seq::<AnswerView>::empty(),
            s.wf(),
    {
        let s = Store { questions: Vec::new(), answers: Vec::new() };
        proof {
            assert(s.qs() =~= Seq::<QuestionView>::empty());
            assert(s.ans() =~= Seq::<AnswerView>::empty());
        }
        s
    }

    /// The index of the question stored under `id`, if any.
    fn find_question(&self, id: &String) -> (r: Option<usize>)
        ensures
            match r {
                Some(i) => i < self.qs().len() && question_key()(self.qs()[i as int]) == id@,
                None => !self.has_question(id@),
            },
    {
        let mut i: usize = 0;
        while i < self.questions.len()
            invariant
                i <= self.questions.len(),
                self.qs().len() == self.questions.len(),
                forall|j: int|
                    0 <= j < i ==> question_key()(#[trigger] self.qs()[j]) != id@,
            decreases self.questions.len() - i,
        {
            if self.questions[i].id.0 == *id {
                return Some(i);
            }
            i = i + 1;
        }
        None
    }

    /// The index of the answer stored under `id`, if any.
    fn find_answer(&self, id: &String) -> (r: Option<usize>)
        ensures
            match r {
                Some(i) => i < self.ans().len() && answer_key()(self.ans()[i as int]) == id@,
                None => !self.has_answer(id@),
            },
    {
        let mut i: usize = 0;
        while i < self.answers.len()
            invariant
                i <= self.answers.len(),
                self.ans().len() == self.answers.len(),
                forall|j: int| 0 <= j < i ==> answer_key()(#[trigger] self.ans()[j]) != id@,
            decreases self.answers.len() - i,
        {
            if self.answers[i].id.0 == *id {
                return Some(i);
            }
            i = i + 1;
        }
        None
    }

    /// Looks a question up by identifier; fails with `QuestionNotFound` if
    /// no question is stored under it.
    pub fn get_question(&self, id: &QuestionId) -> (r: Result<Question, Error>)
        requires
            self.wf(),
        ensures
            self.has_question(id@) ==> r is Ok && r.unwrap()@ == self.qmap()[id@],
            !self.has_question(id@) ==> r == Err::<Question, Error>(Error::QuestionNotFound),
    {
        match self.find_question(&id.0) {
            Some(i) => {
                proof {
                    lemma_keyed_map_index(self.qs(), question_key(), i as int);
                }
                Ok(self.questions[i].clone())
            },
            None => Err(Error::QuestionNotFound),
        }
    }

    /// Returns the window `[start, end)` of the stored questions; the whole
    /// collection when the window is unbounded. Fails with `OutOfRange`
    /// when the window's start lies past its end or its end past the
    /// collection size — it never clamps.
    pub fn get_questions(&self, pagination: &Pagination) -> (r: Result<Vec<Question>, Error>)
        requires
            self.wf(),
        ensures
            ({
                let e = match pagination.end {
                    None => self.qs().len() as int,
                    Some(e) => e as int,
                };
                &&& (r is Ok <==> pagination.start <= e && e <= self.qs().len())
                &&& r is Ok ==> r.unwrap().deep_view() == self.qs().subrange(
                    pagination.start as int,
                    e,
                )
                &&& r is Err ==> r == Err::<Vec<Question>, Error>(Error::OutOfRange)
            }),
    {
        let n = self.questions.len();
        let end = match pagination.end {
            None => n,
            Some(e) => e,
        };
        if pagination.start > end || end > n {
            return Err(Error::OutOfRange);
        }
        let mut out: Vec<Question> = Vec::new();
        let mut i: usize = pagination.start;
        proof {
            assert(out.deep_view() =~= self.qs().subrange(
                pagination.start as int,
                pagination.start as int,
            ));
        }
        while i < end
            invariant
                pagination.start <= i <= end,
                end <= self.questions.len(),
                self.qs().len() == self.questions.len(),
                out.deep_view() == self.qs().subrange(pagination.start as int, i as int),
            decreases end - i,
        {
            let ghost prev = out.deep_view();
            let q = self.questions[i].clone();
            out.push(q);
            proof {
                assert(out.deep_view() =~= prev.push(q@));
                assert(self.qs().subrange(pagination.start as int, i + 1) =~= prev.push(
                    self.qs()[i as int],
                ));
            }
            i = i + 1;
        }
        Ok(out)
    }

    /// All stored answers whose foreign reference names the given question,
    /// in insertion order.
    pub fn get_answers(&self, question_id: &QuestionId) -> (r: Vec<Answer>)
        ensures
            r.deep_view() == self.ans().filter(belongs_to(question_id@)),
    {
        let mut out: Vec<Answer> = Vec::new();
        let mut i: usize = 0;
        proof {
            reveal(Seq::filter);
            assert(self.ans().take(0).filter(belongs_to(question_id@)) =~= Seq::<
                AnswerView,
            >::empty());
            assert(out.deep_view() =~= Seq::<AnswerView>::empty());
        }
        while i < self.answers.len()
            invariant
                i <= self.answers.len(),
                self.ans().len() == self.answers.len(),
                out.deep_view() == self.ans().take(i as int).filter(belongs_to(question_id@)),
            decreases self.answers.len() - i,
        {
            let ghost prev = out.deep_view();
            proof {
                reveal(Seq::filter);
                assert(self.ans().take(i + 1).drop_last() =~= self.ans().take(i as int));
                assert(self.ans().take(i + 1).last() == self.ans()[i as int]);
            }
            if self.answers[i].question_id.0 == question_id.0 {
                let a = self.answers[i].clone();
                out.push(a);
                proof {
                    assert(belongs_to(question_id@)(self.ans()[i as int]));
                    assert(out.deep_view() =~= prev.push(a@));
                }
            } else {
                proof {
                    assert(!belongs_to(question_id@)(self.ans()[i as int]));
                }
            }
            i = i + 1;
        }
        proof {
            assert(self.ans().take(self.ans().len() as int) =~= self.ans());
        }
        out
    }

    /// Inserts a caller-identified question; fails with `DuplicateId` when
    /// the identifier is already taken, leaving the store unchanged.
    /// Returns the stored record.
    pub fn add_question(&mut self, question: Question) -> (r: Result<Question, Error>)
        requires
            old(self).wf(),
        ensures
            final(self).wf(),
            final(self).ans() == old(self).ans(),
            old(self).has_question(question@.id) ==> r == Err::<Question, Error>(
                Error::DuplicateId,
            ) && final(self).qs() == old(self).qs(),
            !old(self).has_question(question@.id) ==> ({
                &&& r is Ok
                &&& r.unwrap()@ == question@
                &&& final(self).qs() == old(self).qs().push(question@)
                &&& final(self).qmap() == old(self).qmap().insert(question@.id, question@)
            }),
    {
        match self.find_question(&question.id.0) {
            Some(_) => Err(Error::DuplicateId),
            None => {
                let ret = question.clone();
                let ghost qv = question@;
                self.questions.push(question);
                proof {
                    assert(self.qs() =~= old(self).qs().push(qv));
                    assert(question_key()(qv) == qv.id);
                    lemma_unique_push(old(self).qs(), question_key(), qv);
                    lemma_keyed_map_push(old(self).qs(), question_key(), qv);
                }
                Ok(ret)
            },
        }
    }

    /// Replaces the question stored under `id` in full with the given body,
    /// keeping the identifier and the record's position; fails with
    /// `QuestionNotFound` when no question is stored under `id`. Returns
    /// the stored record.
    pub fn update_question(&mut self, id: &QuestionId, new: NewQuestion) -> (r: Result<
        Question,
        Error,
    >)
        requires
            old(self).wf(),
        ensures
            final(self).wf(),
            final(self).ans() == old(self).ans(),
            !old(self).has_question(id@) ==> r == Err::<Question, Error>(Error::QuestionNotFound)
                && final(self).qs() == old(self).qs(),
            old(self).has_question(id@) ==> ({
                let q = QuestionView {
                    id: id@,
                    title: new.title@,
                    content: new.content@,
                    tags: new.tags.deep_view(),
                };
                &&& r is Ok
                &&& r.unwrap()@ == q
                &&& final(self).qs() == old(self).qs().update(
                    key_index(old(self).qs(), question_key(), id@),
                    q,
                )
                &&& final(self).qmap() == old(self).qmap().insert(id@, q)
            }),
    {
        match self.find_question(&id.0) {
            None => Err(Error::QuestionNotFound),
            Some(i) => {
                let stored = Question {
                    id: id.clone(),
                    title: new.title,
                    content: new.content,
                    tags: new.tags,
                };
                let ret = stored.clone();
                let ghost qv = stored@;
                self.questions.set(i, stored);
                proof {
                    assert(self.qs() =~= old(self).qs().update(i as int, qv));
                    let ki = key_index(old(self).qs(), question_key(), id@);
                    assert(0 <= ki < old(self).qs().len() && question_key()(
                        old(self).qs()[ki],
                    ) == id@);
                    assert(ki == i);
                    lemma_unique_update(old(self).qs(), question_key(), i as int, qv);
                    lemma_keyed_map_update(old(self).qs(), question_key(), i as int, qv);
                }
                Ok(ret)
            },
        }
    }

    /// Removes the question stored under `id`; fails with
    /// `QuestionNotFound` when there is none. Answers referencing the
    /// question are kept: deletion does not cascade.
    pub fn delete_question(&mut self, id: &QuestionId) -> (r: Result<(), Error>)
        requires
            old(self).wf(),
        ensures
            final(self).wf(),
            final(self).ans() == old(self).ans(),
            !old(self).has_question(id@) ==> r == Err::<(), Error>(Error::QuestionNotFound)
                && final(self).qs() == old(self).qs(),
            old(self).has_question(id@) ==> ({
                &&& r is Ok
                &&& final(self).qs() == old(self).qs().remove(
                    key_index(old(self).qs(), question_key(), id@),
                )
                &&& final(self).qmap() == old(self).qmap().remove(id@)
            }),
    {
        match self.find_question(&id.0) {
            None => Err(Error::QuestionNotFound),
            Some(i) => {
                self.questions.remove(i);
                proof {
                    assert(self.qs() =~= old(self).qs().remove(i as int));
                    let ki = key_index(old(self).qs(), question_key(), id@);
                    assert(0 <= ki < old(self).qs().len() && question_key()(
                        old(self).qs()[ki],
                    ) == id@);
                    assert(ki == i);
                    lemma_unique_remove(old(self).qs(), question_key(), i as int);
                    lemma_keyed_map_remove(old(self).qs(), question_key(), i as int);
                }
                Ok(())
            },
        }
    }

    /// Inserts an answer under a caller-supplied identifier. The body must
    /// carry non-empty content (else `ContentNotGiven`) and the referenced
    /// question must exist (else `QuestionNotFound`); a failing call leaves
    /// the store unchanged. An identifier collision replaces the colliding
    /// record, as a keyed insert does. Returns the stored record.
    pub fn add_answer_with_id(
        &mut self,
        question_id: &QuestionId,
        content: Option<&str>,
        id: AnswerId,
    ) -> (r: Result<Answer, Error>)
        requires
            old(self).wf(),
        ensures
            final(self).wf(),
            final(self).qs() == old(self).qs(),
            content is None || content.unwrap()@.len() == 0 ==> r == Err::<Answer, Error>(
                Error::ContentNotGiven,
            ) && final(self).ans() == old(self).ans(),
            content is Some && content.unwrap()@.len() > 0 && !old(self).has_question(
                question_id@,
            ) ==> r == Err::<Answer, Error>(Error::QuestionNotFound) && final(self).ans() == old(
                self,
            ).ans(),
            content is Some && content.unwrap()@.len() > 0 && old(self).has_question(
                question_id@,
            ) ==> ({
                let a = AnswerView { id: id@, content: content.unwrap()@, question_id: question_id@ };
                &&& r is Ok
                &&& r.unwrap()@ == a
                &&& final(self).amap() == old(self).amap().insert(id@, a)
                &&& final(self).ans() == if old(self).has_answer(id@) {
                    old(self).ans().update(key_index(old(self).ans(), answer_key(), id@), a)
                } else {
                    old(self).ans().push(a)
                }
            }),
    {
        let c = match content {
            None => {
                return Err(Error::ContentNotGiven);
            },
            Some(c) => c,
        };
        if c.is_empty() {
            return Err(Error::ContentNotGiven);
        }
        if self.find_question(&question_id.0).is_none() {
            return Err(Error::QuestionNotFound);
        }
        let slot = self.find_answer(&id.0);
        let answer = Answer { id, content: c.to_owned(), question_id: question_id.clone() };
        let ret = answer.clone();
        let ghost av = answer@;
        match slot {
            Some(j) => {
                self.answers.set(j, answer);
                proof {
                    assert(self.ans() =~= old(self).ans().update(j as int, av));
                    let ki = key_index(old(self).ans(), answer_key(), av.id);
                    assert(0 <= ki < old(self).ans().len() && answer_key()(
                        old(self).ans()[ki],
                    ) == av.id);
                    assert(ki == j);
                    lemma_unique_update(old(self).ans(), answer_key(), j as int, av);
                    lemma_keyed_map_update(old(self).ans(), answer_key(), j as int, av);
                }
            },
            None => {
                self.answers.push(answer);
                proof {
                    assert(self.ans() =~= old(self).ans().push(av));
                    lemma_unique_push(old(self).ans(), answer_key(), av);
                    lemma_keyed_map_push(old(self).ans(), answer_key(), av);
                }
            },
        }
        Ok(ret)
    }

    /// Inserts an answer under a freshly allocated random identifier, as
    /// [`Store::add_answer_with_id`] does. Distinct calls draw their
    /// identifiers independently, so nothing relates the new identifier to
    /// the stored ones beyond its length.
    pub fn add_answer(&mut self, question_id: &QuestionId, content: Option<&str>) -> (r: Result<
        Answer,
        Error,
    >)
        requires
            old(self).wf(),
        ensures
            final(self).wf(),
            final(self).qs() == old(self).qs(),
            content is None || content.unwrap()@.len() == 0 ==> r == Err::<Answer, Error>(
                Error::ContentNotGiven,
            ) && final(self).ans() == old(self).ans(),
            content is Some && content.unwrap()@.len() > 0 && !old(self).has_question(
                question_id@,
            ) ==> r == Err::<Answer, Error>(Error::QuestionNotFound) && final(self).ans() == old(
                self,
            ).ans(),
            content is Some && content.unwrap()@.len() > 0 && old(self).has_question(
                question_id@,
            ) ==> ({
                &&& r is Ok
                &&& r.unwrap()@.content == content.unwrap()@
                &&& r.unwrap()@.question_id == question_id@
                &&& r.unwrap()@.id.len() == 36
                &&& final(self).amap() == old(self).amap().insert(r.unwrap()@.id, r.unwrap()@)
            }),
    {
        let id = fresh_answer_id();
        self.add_answer_with_id(question_id, content, AnswerId(id))
    }
}

/// Relies on `uuid::Uuid::new_v4` and the `Display` impl of `Uuid`: a
/// fresh random version-4 UUID, formatted in the hyphenated form of
/// exactly 36 characters. The identifier is random; no two calls are
/// related, so nothing more is assumed of the result.
#[verifier::external_body]
fn fresh_answer_id() -> (r: String)
    ensures
        r@.len() == 36,
{
    uuid::Uuid::new_v4().to_string()
}

/// Whether an answer references the question with the given identifier.
pub open spec fn belongs_to(question_id: Seq<char>) -> spec_fn(AnswerView) -> bool {
    |a: AnswerView| a.question_id == question_id
}

impl Store {
    /// Presence in the collections and membership in the derived maps
    /// agree: `has_question` holds exactly of the identifiers the question
    /// map binds, and likewise for answers.
    pub proof fn lemma_presence_agrees(self)
        ensures
            forall|id: Seq<char>|
                self.has_question(id) <==> #[trigger] self.qmap().dom().contains(id),
            forall|id: Seq<char>|
                self.has_answer(id) <==> #[trigger] self.amap().dom().contains(id),
    {
        lemma_keyed_map_dom(self.qs(), question_key());
        lemma_keyed_map_dom(self.ans(), answer_key());
    }

    /// A listing without pagination has exactly one entry per stored
    /// identifier: additions and deletions are counted, and duplicates are
    /// impossible, so the sequence the listing returns and the question
    /// map are the same size.
    pub proof fn lemma_listing_counts_questions(self)
        requires
            self.wf(),
        ensures
            self.qs().len() == self.qmap().dom().len(),
    {
        lemma_keyed_map_len(self.qs(), question_key());
    }
}

/// After a write that bound `id` to `q` — an insert or a full replacement
/// — a lookup of `id` sees exactly `q`, and every other identifier is
/// bound exactly as it was before the write: the last successful write to
/// an identifier is what a later read reflects.
pub proof fn lemma_last_write_wins(
    pre: Map<Seq<char>, QuestionView>,
    post: Map<Seq<char>, QuestionView>,
    id: Seq<char>,
    q: QuestionView,
)
    requires
        post == pre.insert(id, q),
    ensures
        post.dom().contains(id),
        post[id] == q,
        forall|other: Seq<char>|
            other != id ==> (#[trigger] post.dom().contains(other) <==> pre.dom().contains(other)),
        forall|other: Seq<char>|
            other != id && pre.dom().contains(other) ==> #[trigger] post[other] == pre[other],
{
}

/// After a delete of `id`, a lookup of `id` finds nothing — it fails with
/// `QuestionNotFound` — and every other identifier is bound exactly as it
/// was before the delete.
pub proof fn lemma_delete_wins(
    pre: Map<Seq<char>, QuestionView>,
    post: Map<Seq<char>, QuestionView>,
    id: Seq<char>,
)
    requires
        post == pre.remove(id),
    ensures
        !post.dom().contains(id),
        forall|other: Seq<char>|
            other != id ==> (#[trigger] post.dom().contains(other) <==> pre.dom().contains(other)),
        forall|other: Seq<char>|
            other != id && pre.dom().contains(other) ==> #[trigger] post[other] == pre[other],
{
}

/// Answer inserts under the store's exclusive-write discipline run one
/// after the other; when the two draw distinct identifiers, neither update
/// is lost: both records stand in the final answer map.
pub proof fn lemma_no_lost_answer(m: Map<Seq<char>, AnswerView>, a1: AnswerView, a2: AnswerView)
    requires
        a1.id != a2.id,
    ensures
        m.insert(a1.id, a1).insert(a2.id, a2).dom().contains(a1.id),
        m.insert(a1.id, a1).insert(a2.id, a2).dom().contains(a2.id),
        m.insert(a1.id, a1).insert(a2.id, a2)[a1.id] == a1,
        m.insert(a1.id, a1).insert(a2.id, a2)[a2.id] == a2,
{
}

} // verus!
