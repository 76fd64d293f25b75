//! One question record: a domain name, a 16-bit type and a 16-bit class.

use vstd::prelude::*;
use crate::error::DnsError;
use crate::header::{be16_hi, be16_lo};
use crate::name::{
    encode_name_into, labels_ascii, lemma_parse_name_bounds, lemma_parse_name_encodes,
    parse_name_at, spec_encode_name, spec_label_strings, spec_parse_name, wf_name,
};

verus! {

/// The 16-bit value stored big-endian at bytes `i..i + 2` of `s`.
pub open spec fn spec_be16_at(s: Seq<u8>, i: int) -> u16 {
    (s[i] * 256 + s[i + 1]) as u16
}

/// Reads one question from `s` starting at `pos`: the raw name labels, the
/// type, the class, and the position just past the record.  `None` when the
/// name is incomplete or fewer than four bytes follow it.
pub open spec fn spec_parse_question(s: Seq<u8>, pos: int) -> Option<(Seq<Seq<u8>>, u16, u16, int)> {
    match spec_parse_name(s, pos) {
        None => None,
        Some((labels, nend)) => if nend + 4 > s.len() {
            None
        } else {
            Some((labels, spec_be16_at(s, nend), spec_be16_at(s, nend + 2), nend + 4))
        },
    }
}

/// A question of the question section: a name, a type and a class, together
/// with the number of bytes its wire form occupied, so that the caller can
/// locate the record that follows it.
pub struct Question {
    length: usize,
    names: Vec<String>,
    typ: u16,
    class: u16,
}

/// A question's wire form: its name, then type and class big-endian.
pub open spec fn spec_encode_question(q: Question) -> Seq<u8> {
    spec_encode_name(q.spec_names()) + seq![
        be16_hi(q.spec_typ()),
        be16_lo(q.spec_typ()),
        be16_hi(q.spec_class()),
        be16_lo(q.spec_class()),
    ]
}

impl Question {
    /// The name's labels, each as its character sequence.
    pub closed spec fn spec_names(self) -> Seq<Seq<char>> {
        self.names.deep_view()
    }

    /// The consumed wire length recorded at parse time.
    pub closed spec fn spec_length(self) -> usize {
        self.length
    }

    /// The 16-bit question type.
    pub closed spec fn spec_typ(self) -> u16 {
        self.typ
    }

    /// The 16-bit question class.
    pub closed spec fn spec_class(self) -> u16 {
        self.class
    }

    /// The name is fit for encoding: every label has 1 to 255 characters,
    /// all ASCII.
    pub open spec fn wf(self) -> bool {
        wf_name(self.spec_names())
    }

    /// Reads one question from `raw` starting at `pos`.
    pub(crate) fn parse_at(raw: &[u8], pos: usize) -> (r: Result<Question, DnsError>)
        ensures
            match r {
                Ok(q) => spec_parse_question(raw@, pos as int) matches Some((labels, t, c, end))
                    && q.spec_names() == spec_label_strings(labels) && q.spec_typ() == t
                    && q.spec_class() == c && q.spec_length() == end - pos && pos < end
                    <= raw@.len() && q.wf(),
                Err(e) => spec_parse_question(raw@, pos as int) is None && e
                    == DnsError::MessageIncomplete,
            },
    {
        let (names, nend) = match parse_name_at(raw, pos) {
            Ok(v) => v,
            Err(e) => {
                return Err(e);
            },
        };
        if raw.len() - nend < 4 {
            return Err(DnsError::MessageIncomplete);
        }
        let typ = raw[nend] as u16 * 256 + raw[nend + 1] as u16;
        let class = raw[nend + 2] as u16 * 256 + raw[nend + 3] as u16;
        Ok(Question { length: nend - pos + 4, names, typ, class })
    }

    /// Decodes one question from the start of `raw`; trailing bytes beyond
    /// the record are permitted and ignored.
    pub fn new(raw: &[u8]) -> (r: Result<Question, DnsError>)
        ensures
            match r {
                Ok(q) => spec_parse_question(raw@, 0) matches Some((labels, t, c, end))
                    && q.spec_names() == spec_label_strings(labels) && q.spec_typ() == t
                    && q.spec_class() == c && q.spec_length() == end && 0 < end <= raw@.len()
                    && q.wf(),
                Err(e) => spec_parse_question(raw@, 0) is None && e
                    == DnsError::MessageIncomplete,
            },
    {
        Question::parse_at(raw, 0)
    }

    /// Builds a question from its parts; `length` is the wire length the
    /// caller attributes to it.
    pub fn from_parts(names: Vec<String>, typ: u16, class: u16, length: usize) -> (q: Question)
        requires
            wf_name(names.deep_view()),
        ensures
            q.spec_names() == names.deep_view(),
            q.spec_typ() == typ,
            q.spec_class() == class,
            q.spec_length() == length,
            q.wf(),
    {
        Question { length, names, typ, class }
    }

    /// The name's labels.
    pub fn names(&self) -> (r: &Vec<String>)
        ensures
            r.deep_view() == self.spec_names(),
    {
        &self.names
    }

    /// The wire length this question was attributed when it was built.
    pub fn length(&self) -> (r: usize)
        ensures
            r == self.spec_length(),
    {
        self.length
    }

    /// The 16-bit question type.
    pub fn typ(&self) -> (r: u16)
        ensures
            r == self.spec_typ(),
    {
        self.typ
    }

    /// The 16-bit question class.
    pub fn class(&self) -> (r: u16)
        ensures
            r == self.spec_class(),
    {
        self.class
    }

    /// Writes this question's wire form: name labels, zero byte, then type
    /// and class big-endian.
    pub fn encode(&self) -> (r: Vec<u8>)
        requires
            self.wf(),
        ensures
            r@ == spec_encode_question(*self),
    {
        let mut out: Vec<u8> = Vec::new();
        proof {
            assert(Seq::<u8>::empty() + spec_encode_name(self.spec_names()) =~= spec_encode_name(
                self.spec_names(),
            ));
        }
        encode_name_into(&self.names, &mut out);
        out.push((self.typ / 256) as u8);
        out.push((self.typ % 256) as u8);
        out.push((self.class / 256) as u8);
        out.push((self.class % 256) as u8);
        proof {
            assert(out@ =~= spec_encode_question(*self));
        }
        out
    }
}

/// The question section's wire form: each question's bytes, concatenated in
/// list order.
pub open spec fn spec_encode_questions(qs: Seq<Question>) -> Seq<u8>
    decreases qs.len(),
{
    if qs.len() == 0 {
        Seq::empty()
    } else {
        spec_encode_question(qs[0]) + spec_encode_questions(qs.drop_first())
    }
}

/// Appending one question to a section appends that question's wire bytes.
pub proof fn lemma_encode_questions_push(qs: Seq<Question>, q: Question)
    ensures
        spec_encode_questions(qs.push(q)) == spec_encode_questions(qs) + spec_encode_question(q),
    decreases qs.len(),
{
    if qs.len() == 0 {
        assert(qs.push(q) =~= seq![q]);
        assert(seq![q].drop_first() =~= Seq::<Question>::empty());
        assert(spec_encode_questions(Seq::<Question>::empty()) == Seq::<u8>::empty());
        assert(spec_encode_questions(seq![q]) == spec_encode_question(q) + Seq::<u8>::empty());
        assert(spec_encode_question(q) + Seq::<u8>::empty() =~= spec_encode_question(q));
        assert(Seq::<u8>::empty() + spec_encode_question(q) =~= spec_encode_question(q));
    } else {
        assert(qs.push(q).drop_first() =~= qs.drop_first().push(q));
        assert(qs.push(q)[0] == qs[0]);
        lemma_encode_questions_push(qs.drop_first(), q);
        assert(spec_encode_question(qs[0]) + (spec_encode_questions(qs.drop_first())
            + spec_encode_question(q)) =~= (spec_encode_question(qs[0]) + spec_encode_questions(
            qs.drop_first(),
        )) + spec_encode_question(q));
    }
}

/// A question whose fields match a successful parse with all-ASCII labels
/// encodes to exactly the bytes the parse consumed.
pub proof fn lemma_question_match_encodes(q: Question, s: Seq<u8>, pos: int)
    requires
        spec_parse_question(s, pos) matches Some((labels, t, c, end)) && q.spec_names()
            == spec_label_strings(labels) && q.spec_typ() == t && q.spec_class() == c
            && labels_ascii(labels),
    ensures
        spec_encode_question(q) == s.subrange(pos, spec_parse_question(s, pos)->Some_0.3),
{
    let (labels, t, c, end) = spec_parse_question(s, pos)->Some_0;
    let (nlabels, nend) = spec_parse_name(s, pos)->Some_0;
    assert(nlabels == labels && end == nend + 4);
    lemma_parse_name_bounds(s, pos);
    lemma_parse_name_encodes(s, pos);
    crate::header::lemma_be16_round(s[nend], s[nend + 1]);
    crate::header::lemma_be16_round(s[nend + 2], s[nend + 3]);
    assert(spec_encode_question(q) =~= s.subrange(pos, nend) + seq![
        s[nend],
        s[nend + 1],
        s[nend + 2],
        s[nend + 3],
    ]);
    assert(s.subrange(pos, end) =~= s.subrange(pos, nend) + seq![
        s[nend],
        s[nend + 1],
        s[nend + 2],
        s[nend + 3],
    ]);
}

/// Truncating a fully consumed question buffer to any strictly shorter
/// prefix always yields a parse failure, never a shorter success.
pub proof fn lemma_truncated_question_incomplete(s: Seq<u8>, k: int)
    requires
        spec_parse_question(s, 0) is Some,
        spec_parse_question(s, 0)->Some_0.3 == s.len(),
        0 <= k < s.len(),
    ensures
        spec_parse_question(s.subrange(0, k), 0) is None,
{
    let t = s.subrange(0, k);
    crate::name::lemma_parse_name_prefix(s, k, 0);
    match spec_parse_name(s, 0) {
        None => {},
        Some((labels, nend)) => {
            match spec_parse_name(t, 0) {
                None => {},
                Some((labels2, nend2)) => {
                    assert(nend2 == nend);
                    assert(nend + 4 == s.len());
                },
            }
        },
    }
}

} // verus!
