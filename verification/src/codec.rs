//! The JSON wire form of a question record.
//!
//! The store's records cross the transport boundary as JSON text. This
//! module frames a record as a JSON object with fixed field order —
//! `{"id":…,"title":…,"content":…,"tags":…}`, tags either `null` or an
//! array of strings, quotes and backslashes escaped with a backslash —
//! and parses exactly that shape back. Encoding and decoding are written
//! against one spec-level grammar, and decoding an encoded record is
//! proved to yield the record itself.

use vstd::prelude::*;
use vstd::string::{StrSliceExecFns, StringExecFns};

use crate::question::{Question, QuestionId, QuestionView};

verus! {

/// Relies on `String::push`: appends the given character to the end of
/// the string.
#[verifier::external_body]
fn push_char(s: &mut String, c: char)
    ensures
        final(s)@ == old(s)@.push(c),
{
    s.push(c);
}

/// The escaped form of one character inside a string literal.
pub open spec fn esc_char(c: char) -> Seq<char> {
    if c == '"' || c == '\\' {
        seq!['\\', c]
    } else {
        seq![c]
    }
}

/// The escaped form of a string's characters.
pub open spec fn esc(s: Seq<char>) -> Seq<char>
    decreases s.len(),
{
    if s.len() == 0 {
        Seq::empty()
    } else {
        esc_char(s[0]) + esc(s.skip(1))
    }
}

/// A string literal: the escaped characters between double quotes.
pub open spec fn quoted(s: Seq<char>) -> Seq<char> {
    seq!['"'] + esc(s) + seq!['"']
}

/// The encoding of a tag list: `null` when absent, else a JSON array of
/// string literals.
pub open spec fn enc_tags(tags: Option<Seq<Seq<char>>>) -> Seq<char> {
    match tags {
        None => "null"@,
        Some(ts) => seq!['['] + enc_elems(ts) + seq![']'],
    }
}

/// The comma-separated string literals of a tag array.
pub open spec fn enc_elems(ts: Seq<Seq<char>>) -> Seq<char>
    decreases ts.len(),
{
    if ts.len() == 0 {
        Seq::empty()
    } else if ts.len() == 1 {
        quoted(ts[0])
    } else {
        quoted(ts[0]) + seq![','] + enc_elems(ts.skip(1))
    }
}

/// The full encoding of a question record.
pub open spec fn enc_question(v: QuestionView) -> Seq<char> {
    "{\"id\":"@ + quoted(v.id) + ",\"title\":"@ + quoted(v.title) + ",\"content\":"@ + quoted(
        v.content,
    ) + ",\"tags\":"@ + enc_tags(v.tags) + "}"@
}

/// Consumes the body of a string literal after its opening quote:
/// the unescaped characters up to the closing quote, and the rest of the
/// text after it.
pub open spec fn parse_body(t: Seq<char>) -> Option<(Seq<char>, Seq<char>)>
    decreases t.len(),
{
    if t.len() == 0 {
        None
    } else if t[0] == '"' {
        Some((Seq::empty(), t.skip(1)))
    } else if t[0] == '\\' {
        if t.len() < 2 {
            None
        } else {
            match parse_body(t.skip(2)) {
                Some((v, r)) => Some((seq![t[1]] + v, r)),
                None => None,
            }
        }
    } else {
        match parse_body(t.skip(1)) {
            Some((v, r)) => Some((seq![t[0]] + v, r)),
            None => None,
        }
    }
}

/// Consumes one string literal, opening quote included.
pub open spec fn dec_string(t: Seq<char>) -> Option<(Seq<char>, Seq<char>)> {
    if t.len() > 0 && t[0] == '"' {
        parse_body(t.skip(1))
    } else {
        None
    }
}

/// Consumes the literal text `p`.
pub open spec fn expect(t: Seq<char>, p: Seq<char>) -> Option<Seq<char>> {
    if t.len() >= p.len() && t.take(p.len() as int) == p {
        Some(t.skip(p.len() as int))
    } else {
        None
    }
}

/// Consumes the elements of a non-empty tag array up to and including the
/// closing bracket. The length guard mirrors that a string literal is
/// never empty text, keeping the recursion well-founded.
pub open spec fn dec_list(t: Seq<char>) -> Option<(Seq<Seq<char>>, Seq<char>)>
    decreases t.len(),
{
    match dec_string(t) {
        None => None,
        Some((v, r)) => {
            if r.len() >= 1 && r[0] == ']' {
                Some((seq![v], r.skip(1)))
            } else if r.len() >= 1 && r[0] == ',' && r.len() < t.len() {
                match dec_list(r.skip(1)) {
                    Some((vs, rr)) => Some((seq![v] + vs, rr)),
                    None => None,
                }
            } else {
                None
            }
        },
    }
}

/// Consumes a tag list: `null`, an empty array, or a non-empty array.
pub open spec fn dec_tags(t: Seq<char>) -> Option<(Option<Seq<Seq<char>>>, Seq<char>)> {
    if expect(t, "null"@) is Some {
        Some((None, expect(t, "null"@).unwrap()))
    } else if t.len() >= 1 && t[0] == '[' {
        if t.len() >= 2 && t[1] == ']' {
            Some((Some(Seq::empty()), t.skip(2)))
        } else {
            match dec_list(t.skip(1)) {
                Some((vs, r)) => Some((Some(vs), r)),
                None => None,
            }
        }
    } else {
        None
    }
}

/// Parses a full question record; the whole text must be consumed.
pub open spec fn dec_question(t: Seq<char>) -> Option<QuestionView> {
    match expect(t, "{\"id\":"@) {
        None => None,
        Some(t1) => match dec_string(t1) {
            None => None,
            Some((id, t2)) => match expect(t2, ",\"title\":"@) {
                None => None,
                Some(t3) => match dec_string(t3) {
                    None => None,
                    Some((title, t4)) => match expect(t4, ",\"content\":"@) {
                        None => None,
                        Some(t5) => match dec_string(t5) {
                            None => None,
                            Some((content, t6)) => match expect(t6, ",\"tags\":"@) {
                                None => None,
                                Some(t7) => match dec_tags(t7) {
                                    None => None,
                                    Some((tags, t8)) => match expect(t8, "}"@) {
                                        None => None,
                                        Some(t9) => if t9.len() == 0 {
                                            Some(QuestionView { id, title, content, tags })
                                        } else {
                                            None
                                        },
                                    },
                                },
                            },
                        },
                    },
                },
            },
        },
    }
}

/// Escaping one more character extends the escaped text at its end.
proof fn lemma_esc_snoc(a: Seq<char>, c: char)
    ensures
        esc(a.push(c)) == esc(a) + esc_char(c),
    decreases a.len(),
{
    let t = a.push(c);
    if a.len() == 0 {
        assert(t[0] == c);
        assert(t.skip(1) =~= Seq::<char>::empty());
        assert(esc(Seq::<char>::empty()) =~= Seq::<char>::empty());
        assert(esc(t) == esc_char(t[0]) + esc(t.skip(1)));
        assert(esc(t) =~= esc(a) + esc_char(c));
    } else {
        assert(t[0] == a[0]);
        assert(t.skip(1) =~= a.skip(1).push(c));
        lemma_esc_snoc(a.skip(1), c);
        assert(esc_char(a[0]) + (esc(a.skip(1)) + esc_char(c)) =~= (esc_char(a[0]) + esc(
            a.skip(1),
        )) + esc_char(c));
    }
}

/// Encoding one more tag extends the element text with a comma and the
/// tag's literal.
proof fn lemma_enc_elems_snoc(ts: Seq<Seq<char>>, v: Seq<char>)
    requires
        ts.len() >= 1,
    ensures
        enc_elems(ts.push(v)) == enc_elems(ts) + seq![','] + quoted(v),
    decreases ts.len(),
{
    let t = ts.push(v);
    if ts.len() == 1 {
        assert(t[0] == ts[0]);
        assert(t.skip(1) =~= seq![v]);
        assert(enc_elems(seq![v]) == quoted(v));
        assert(quoted(ts[0]) + seq![','] + quoted(v) =~= (quoted(ts[0]) + seq![',']) + quoted(v));
    } else {
        assert(t[0] == ts[0]);
        assert(t.skip(1) =~= ts.skip(1).push(v));
        lemma_enc_elems_snoc(ts.skip(1), v);
        assert(quoted(ts[0]) + seq![','] + (enc_elems(ts.skip(1)) + seq![','] + quoted(v)) =~= (
        quoted(ts[0]) + seq![','] + enc_elems(ts.skip(1))) + seq![','] + quoted(v));
    }
}

/// Appends the escaped characters of `s`.
fn append_escaped(out: &mut String, s: &str)
    ensures
        final(out)@ == old(out)@ + esc(s@),
{
    let n = s.unicode_len();
    let mut i: usize = 0;
    proof {
        assert(s@.take(0) =~= Seq::<char>::empty());
        assert(out@ =~= old(out)@ + esc(s@.take(0)));
    }
    while i < n
        invariant
            i <= n,
            n == s@.len(),
            out@ == old(out)@ + esc(s@.take(i as int)),
        decreases n - i,
    {
        let c = s.get_char(i);
        if c == '"' || c == '\\' {
            push_char(out, '\\');
        }
        push_char(out, c);
        proof {
            assert(s@.take(i + 1) =~= s@.take(i as int).push(c));
            lemma_esc_snoc(s@.take(i as int), c);
            assert(out@ =~= old(out)@ + esc(s@.take(i + 1)));
        }
        i = i + 1;
    }
    proof {
        assert(s@.take(n as int) =~= s@);
    }
}

/// Appends `s` as a quoted string literal.
fn append_quoted(out: &mut String, s: &str)
    ensures
        final(out)@ == old(out)@ + quoted(s@),
{
    push_char(out, '"');
    append_escaped(out, s);
    push_char(out, '"');
    proof {
        assert(out@ =~= old(out)@ + quoted(s@));
    }
}

/// Encodes a question record as JSON text.
pub fn encode_question(q: &Question) -> (r: String)
    ensures
        r@ == enc_question(q@),
{
    let mut out = String::new();
    out.append("{\"id\":");
    append_quoted(&mut out, q.id.0.as_str());
    out.append(",\"title\":");
    append_quoted(&mut out, q.title.as_str());
    out.append(",\"content\":");
    append_quoted(&mut out, q.content.as_str());
    out.append(",\"tags\":");
    match &q.tags {
        None => {
            out.append("null");
        },
        Some(ts) => {
            out.append("[");
            let ghost base = out@;
            let ghost dv = ts.deep_view();
            let mut k: usize = 0;
            proof {
                assert(dv.take(0) =~= Seq::<Seq<char>>::empty());
            }
            while k < ts.len()
                invariant
                    k <= ts.len(),
                    dv == ts.deep_view(),
                    dv.len() == ts.len(),
                    out@ == base + enc_elems(dv.take(k as int)),
                decreases ts.len() - k,
            {
                if k > 0 {
                    out.append(",");
                }
                append_quoted(&mut out, ts[k].as_str());
                proof {
                    reveal_strlit(",");
                    assert(ts[k as int]@ == dv[k as int]);
                    assert(dv.take(k + 1) =~= dv.take(k as int).push(dv[k as int]));
                    if k == 0 {
                        assert(enc_elems(dv.take(1)) == quoted(dv.take(1)[0]));
                        assert(out@ =~= base + enc_elems(dv.take(1)));
                    } else {
                        lemma_enc_elems_snoc(dv.take(k as int), dv[k as int]);
                        assert(out@ =~= base + enc_elems(dv.take(k + 1)));
                    }
                }
                k = k + 1;
            }
            out.append("]");
            proof {
                assert(dv.take(ts.len() as int) =~= dv);
            }
        },
    }
    out.append("}");
    proof {
        reveal_strlit("[");
        reveal_strlit("]");
        assert(out@ =~= enc_question(q@));
    }
    out
}

/// Consuming a literal from text that starts with it yields the rest.
proof fn lemma_expect_prefix(p: Seq<char>, rest: Seq<char>)
    ensures
        expect(p + rest, p) == Some(rest),
{
    assert((p + rest).take(p.len() as int) =~= p);
    assert((p + rest).skip(p.len() as int) =~= rest);
}

/// Parsing an escaped string body recovers the string and the rest.
proof fn lemma_parse_body_esc(s: Seq<char>, rest: Seq<char>)
    ensures
        parse_body(esc(s) + seq!['"'] + rest) == Some((s, rest)),
    decreases s.len(),
{
    let t = esc(s) + seq!['"'] + rest;
    if s.len() == 0 {
        assert(t =~= seq!['"'] + rest);
        assert(t[0] == '"');
        assert(t.skip(1) =~= rest);
        assert(s =~= Seq::<char>::empty());
    } else {
        let c = s[0];
        let s2 = s.skip(1);
        lemma_parse_body_esc(s2, rest);
        if c == '"' || c == '\\' {
            assert(t =~= seq!['\\', c] + (esc(s2) + seq!['"'] + rest));
            assert(t[0] == '\\');
            assert(t.len() >= 2);
            assert(t[1] == c);
            assert(t.skip(2) =~= esc(s2) + seq!['"'] + rest);
            assert(seq![c] + s2 =~= s);
        } else {
            assert(t =~= seq![c] + (esc(s2) + seq!['"'] + rest));
            assert(t[0] == c);
            assert(t.skip(1) =~= esc(s2) + seq!['"'] + rest);
            assert(seq![c] + s2 =~= s);
        }
    }
}

/// Parsing a quoted string literal recovers the string and the rest.
proof fn lemma_dec_string_quoted(s: Seq<char>, rest: Seq<char>)
    ensures
        dec_string(quoted(s) + rest) == Some((s, rest)),
        (quoted(s) + rest).len() >= rest.len() + 2,
        (quoted(s) + rest)[0] == '"',
{
    let t = quoted(s) + rest;
    assert(t[0] == '"');
    assert(t.skip(1) =~= esc(s) + seq!['"'] + rest);
    lemma_parse_body_esc(s, rest);
}

/// Parsing the encoded elements of a non-empty tag array recovers the
/// array and the rest.
proof fn lemma_dec_list_elems(ts: Seq<Seq<char>>, rest: Seq<char>)
    requires
        ts.len() >= 1,
    ensures
        dec_list(enc_elems(ts) + seq![']'] + rest) == Some((ts, rest)),
    decreases ts.len(),
{
    let t = enc_elems(ts) + seq![']'] + rest;
    if ts.len() == 1 {
        assert(t =~= quoted(ts[0]) + (seq![']'] + rest));
        lemma_dec_string_quoted(ts[0], seq![']'] + rest);
        let r = seq![']'] + rest;
        assert(r[0] == ']');
        assert(r.skip(1) =~= rest);
        assert(seq![ts[0]] =~= ts);
    } else {
        let ts2 = ts.skip(1);
        let tail = seq![','] + enc_elems(ts2) + seq![']'] + rest;
        assert(t =~= quoted(ts[0]) + tail);
        lemma_dec_string_quoted(ts[0], tail);
        assert(tail[0] == ',');
        assert(tail.len() < t.len());
        assert(tail.skip(1) =~= enc_elems(ts2) + seq![']'] + rest);
        lemma_dec_list_elems(ts2, rest);
        assert(seq![ts[0]] + ts2 =~= ts);
    }
}

/// Parsing an encoded tag list recovers the list and the rest.
proof fn lemma_dec_tags(tags: Option<Seq<Seq<char>>>, rest: Seq<char>)
    ensures
        dec_tags(enc_tags(tags) + rest) == Some((tags, rest)),
{
    reveal_strlit("null");
    let t = enc_tags(tags) + rest;
    match tags {
        None => {
            lemma_expect_prefix("null"@, rest);
        },
        Some(ts) => {
            assert(t[0] == '[');
            assert(expect(t, "null"@) is None) by {
                if expect(t, "null"@) is Some {
                    assert(t.take(4)[0] == t[0]);
                    assert("null"@[0] == 'n');
                }
            }
            if ts.len() == 0 {
                assert(t =~= seq!['[', ']'] + rest);
                assert(t[1] == ']');
                assert(t.skip(2) =~= rest);
                assert(Seq::<Seq<char>>::empty() =~= ts);
            } else {
                let inner = enc_elems(ts) + seq![']'] + rest;
                assert(t.skip(1) =~= inner);
                lemma_dec_list_elems(ts, rest);
                assert(quoted(ts[0])[0] == '"');
                assert(enc_elems(ts)[0] == '"');
                assert(t[1] == '"');
                assert(t.len() >= 2);
            }
        },
    }
}

/// Consumes the literal `p` at position `i`, yielding the position after
/// it.
fn expect_lit(s: &str, i: usize, p: &str) -> (r: Option<usize>)
    requires
        i <= s@.len(),
    ensures
        match r {
            Some(j) => i <= j <= s@.len() && expect(s@.skip(i as int), p@) == Some(
                s@.skip(j as int),
            ),
            None => expect(s@.skip(i as int), p@) is None,
        },
{
    let n = s.unicode_len();
    let m = p.unicode_len();
    if n - i < m {
        return None;
    }
    let mut k: usize = 0;
    while k < m
        invariant
            k <= m,
            m == p@.len(),
            n == s@.len(),
            i + m <= n,
            forall|x: int| 0 <= x < k ==> s@[i + x] == p@[x],
        decreases m - k,
    {
        if s.get_char(i + k) != p.get_char(k) {
            proof {
                let t = s@.skip(i as int);
                if t.len() >= p@.len() && t.take(p@.len() as int) == p@ {
                    assert(t.take(p@.len() as int)[k as int] == p@[k as int]);
                    assert(t[k as int] == s@[i + k]);
                }
            }
            return None;
        }
        k = k + 1;
    }
    proof {
        let t = s@.skip(i as int);
        assert(t.take(m as int) =~= p@);
        assert(t.skip(m as int) =~= s@.skip(i + m));
    }
    Some(i + m)
}

/// Consumes one string literal at position `i`, yielding its unescaped
/// characters and the position after the closing quote.
fn parse_string_at(s: &str, i: usize) -> (r: Option<(String, usize)>)
    requires
        i <= s@.len(),
    ensures
        match r {
            Some(p) => i < p.1 <= s@.len() && dec_string(s@.skip(i as int)) == Some(
                (p.0@, s@.skip(p.1 as int)),
            ),
            None => dec_string(s@.skip(i as int)) is None,
        },
{
    let n = s.unicode_len();
    if i >= n || s.get_char(i) != '"' {
        return None;
    }
    let mut acc = String::new();
    let mut j: usize = i + 1;
    proof {
        assert(s@.skip(i as int)[0] == '"');
        assert(s@.skip(i as int).skip(1) =~= s@.skip(i + 1));
    }
    while j < n
        invariant
            i + 1 <= j <= n,
            n == s@.len(),
            dec_string(s@.skip(i as int)) == parse_body(s@.skip(i + 1)),
            match parse_body(s@.skip(j as int)) {
                Some(p) => parse_body(s@.skip(i + 1)) == Some((acc@ + p.0, p.1)),
                None => parse_body(s@.skip(i + 1)) is None,
            },
        decreases n - j,
    {
        let c = s.get_char(j);
        let ghost t = s@.skip(j as int);
        proof {
            assert(t[0] == c);
        }
        if c == '"' {
            proof {
                assert(t.skip(1) =~= s@.skip(j + 1));
                assert(parse_body(t) == Some((Seq::<char>::empty(), s@.skip(j + 1))));
                assert(acc@ + Seq::<char>::empty() =~= acc@);
            }
            return Some((acc, j + 1));
        } else if c == '\\' {
            if j + 1 >= n {
                proof {
                    assert(t.len() < 2);
                }
                return None;
            }
            let c2 = s.get_char(j + 1);
            let ghost prev = acc@;
            push_char(&mut acc, c2);
            proof {
                assert(t.len() >= 2);
                assert(t[1] == c2);
                assert(t.skip(2) =~= s@.skip(j + 2));
                match parse_body(s@.skip(j + 2)) {
                    Some(p) => {
                        assert(parse_body(t) == Some((seq![c2] + p.0, p.1)));
                        assert(prev + (seq![c2] + p.0) =~= acc@ + p.0);
                    },
                    None => {},
                }
            }
            j = j + 2;
        } else {
            let ghost prev = acc@;
            push_char(&mut acc, c);
            proof {
                assert(t.skip(1) =~= s@.skip(j + 1));
                match parse_body(s@.skip(j + 1)) {
                    Some(p) => {
                        assert(parse_body(t) == Some((seq![c] + p.0, p.1)));
                        assert(prev + (seq![c] + p.0) =~= acc@ + p.0);
                    },
                    None => {},
                }
            }
            j = j + 1;
        }
    }
    proof {
        assert(s@.skip(j as int).len() == 0);
    }
    None
}

/// Consumes a tag list at position `i`, yielding the tags and the
/// position after them.
fn parse_tags_at(s: &str, i: usize) -> (r: Option<(Option<Vec<String>>, usize)>)
    requires
        i <= s@.len(),
    ensures
        match r {
            Some(p) => i <= p.1 <= s@.len() && dec_tags(s@.skip(i as int)) == Some(
                (p.0.deep_view(), s@.skip(p.1 as int)),
            ),
            None => dec_tags(s@.skip(i as int)) is None,
        },
{
    let n = s.unicode_len();
    match expect_lit(s, i, "null") {
        Some(j) => {
            proof {
                assert(Option::<Vec<String>>::None.deep_view() =~= Option::<
                    Seq<Seq<char>>,
                >::None);
            }
            return Some((None, j));
        },
        None => {},
    }
    if i >= n || s.get_char(i) != '[' {
        return None;
    }
    let ghost t = s@.skip(i as int);
    proof {
        assert(t[0] == '[');
    }
    if i + 1 < n && s.get_char(i + 1) == ']' {
        let out: Vec<String> = Vec::new();
        proof {
            assert(t.len() >= 2 && t[1] == ']');
            assert(t.skip(2) =~= s@.skip(i + 2));
            assert(Some(out).deep_view() =~= Some(Seq::<Seq<char>>::empty()));
        }
        return Some((Some(out), i + 2));
    }
    proof {
        assert(!(t.len() >= 2 && t[1] == ']')) by {
            if i + 1 < n {
                assert(t[1] == s@[i + 1]);
            }
        }
        assert(t.skip(1) =~= s@.skip(i + 1));
    }
    let mut out: Vec<String> = Vec::new();
    let mut j: usize = i + 1;
    proof {
        assert(out.deep_view() =~= Seq::<Seq<char>>::empty());
    }
    while j < n
        invariant
            i + 1 <= j <= n,
            n == s@.len(),
            dec_tags(s@.skip(i as int)) == (match dec_list(s@.skip(i + 1)) {
                Some(p) => Some((Some(p.0), p.1)),
                None => None::<(Option<Seq<Seq<char>>>, Seq<char>)>,
            }),
            match dec_list(s@.skip(j as int)) {
                Some(p) => dec_list(s@.skip(i + 1)) == Some((out.deep_view() + p.0, p.1)),
                None => dec_list(s@.skip(i + 1)) is None,
            },
        decreases n - j,
    {
        let ghost u = s@.skip(j as int);
        match parse_string_at(s, j) {
            None => {
                return None;
            },
            Some((v, j2)) => {
                proof {
                    assert(dec_string(u) == Some((v@, s@.skip(j2 as int))));
                }
                if j2 >= n {
                    proof {
                        assert(s@.skip(j2 as int).len() == 0);
                    }
                    return None;
                }
                let c = s.get_char(j2);
                let ghost rr = s@.skip(j2 as int);
                proof {
                    assert(rr[0] == c);
                    assert(rr.len() < u.len());
                }
                if c == ']' {
                    let ghost prev = out.deep_view();
                    out.push(v);
                    proof {
                        assert(rr.skip(1) =~= s@.skip(j2 + 1));
                        assert(dec_list(u) == Some((seq![v@], s@.skip(j2 + 1))));
                        assert(out.deep_view() =~= prev.push(v@));
                        assert(prev + seq![v@] =~= out.deep_view());
                    }
                    return Some((Some(out), j2 + 1));
                } else if c == ',' {
                    let ghost prev = out.deep_view();
                    out.push(v);
                    proof {
                        assert(rr.skip(1) =~= s@.skip(j2 + 1));
                        assert(out.deep_view() =~= prev.push(v@));
                        match dec_list(s@.skip(j2 + 1)) {
                            Some(p) => {
                                assert(dec_list(u) == Some((seq![v@] + p.0, p.1)));
                                assert(prev + (seq![v@] + p.0) =~= out.deep_view() + p.0);
                            },
                            None => {},
                        }
                    }
                    j = j2 + 1;
                } else {
                    return None;
                }
            },
        }
    }
    proof {
        assert(s@.skip(j as int).len() == 0);
    }
    None
}

/// Parses JSON text as one full question record; yields `None` on any
/// text the encoder cannot have produced.
pub fn decode_question(s: &str) -> (r: Option<Question>)
    ensures
        match r {
            Some(q) => dec_question(s@) == Some(q@),
            None => dec_question(s@) is None,
        },
{
    let n = s.unicode_len();
    proof {
        assert(s@.skip(0) =~= s@);
    }
    let j1 = match expect_lit(s, 0, "{\"id\":") {
        None => {
            return None;
        },
        Some(j) => j,
    };
    let (id, j2) = match parse_string_at(s, j1) {
        None => {
            return None;
        },
        Some(p) => p,
    };
    let j3 = match expect_lit(s, j2, ",\"title\":") {
        None => {
            return None;
        },
        Some(j) => j,
    };
    let (title, j4) = match parse_string_at(s, j3) {
        None => {
            return None;
        },
        Some(p) => p,
    };
    let j5 = match expect_lit(s, j4, ",\"content\":") {
        None => {
            return None;
        },
        Some(j) => j,
    };
    let (content, j6) = match parse_string_at(s, j5) {
        None => {
            return None;
        },
        Some(p) => p,
    };
    let j7 = match expect_lit(s, j6, ",\"tags\":") {
        None => {
            return None;
        },
        Some(j) => j,
    };
    let (tags, j8) = match parse_tags_at(s, j7) {
        None => {
            return None;
        },
        Some(p) => p,
    };
    let j9 = match expect_lit(s, j8, "}") {
        None => {
            return None;
        },
        Some(j) => j,
    };
    if j9 != n {
        return None;
    }
    let q = Question { id: QuestionId(id), title, content, tags };
    proof {
        assert(s@.skip(j9 as int).len() == 0);
    }
    Some(q)
}

/// Round trip: parsing an encoded question record yields the record
/// itself — identifier, title, content and tags all preserved, absent
/// tags included.
#[verifier::rlimit(60)]
pub proof fn lemma_question_round_trip(v: QuestionView)
    ensures
        dec_question(enc_question(v)) == Some(v),
{
    let t = enc_question(v);
    let r1 = quoted(v.id) + ",\"title\":"@ + quoted(v.title) + ",\"content\":"@ + quoted(v.content)
        + ",\"tags\":"@ + enc_tags(v.tags) + "}"@;
    assert(t =~= "{\"id\":"@ + r1);
    lemma_expect_prefix("{\"id\":"@, r1);
    let r2 = ",\"title\":"@ + quoted(v.title) + ",\"content\":"@ + quoted(v.content) + ",\"tags\":"@
        + enc_tags(v.tags) + "}"@;
    assert(r1 =~= quoted(v.id) + r2);
    lemma_dec_string_quoted(v.id, r2);
    let r3 = quoted(v.title) + ",\"content\":"@ + quoted(v.content) + ",\"tags\":"@ + enc_tags(
        v.tags,
    ) + "}"@;
    assert(r2 =~= ",\"title\":"@ + r3);
    lemma_expect_prefix(",\"title\":"@, r3);
    let r4 = ",\"content\":"@ + quoted(v.content) + ",\"tags\":"@ + enc_tags(v.tags) + "}"@;
    assert(r3 =~= quoted(v.title) + r4);
    lemma_dec_string_quoted(v.title, r4);
    let r5 = quoted(v.content) + ",\"tags\":"@ + enc_tags(v.tags) + "}"@;
    assert(r4 =~= ",\"content\":"@ + r5);
    lemma_expect_prefix(",\"content\":"@, r5);
    let r6 = ",\"tags\":"@ + enc_tags(v.tags) + "}"@;
    assert(r5 =~= quoted(v.content) + r6);
    lemma_dec_string_quoted(v.content, r6);
    let r7 = enc_tags(v.tags) + "}"@;
    assert(r6 =~= ",\"tags\":"@ + r7);
    lemma_expect_prefix(",\"tags\":"@, r7);
    let r8 = "}"@;
    assert(r7 =~= enc_tags(v.tags) + r8);
    lemma_dec_tags(v.tags, r8);
    assert(r8 =~= "}"@ + Seq::<char>::empty());
    lemma_expect_prefix("}"@, Seq::<char>::empty());
}

} // verus!
