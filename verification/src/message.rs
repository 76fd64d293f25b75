//! The whole message: one header, a question section, an answer section.
//!
//! Decoding reads the 12 header bytes, then exactly as many questions as
//! the header's question count declares, then as many resource records as
//! its answer count declares, each record beginning where the previous one
//! ended.  Encoding writes the header bytes — with the two counts rewritten
//! from the actual list lengths, so a stale count can never be emitted —
//! then each question and each answer in list order.

use vstd::prelude::*;
use crate::answer::{spec_encode_rrs, spec_parse_rr, Answers, ResourceRecord};
use crate::error::DnsError;
use crate::header::{
    be16_hi, be16_lo, spec_ancount, spec_qdcount, Header,
};
use crate::question::{
    spec_encode_questions, spec_parse_question, Question,
};

verus! {

/// The position just past `n` questions parsed one after another from
/// `pos`; `None` when any of them is incomplete.
pub open spec fn spec_questions_end(s: Seq<u8>, pos: int, n: int) -> Option<int>
    decreases n,
{
    if n <= 0 {
        Some(pos)
    } else {
        match spec_parse_question(s, pos) {
            None => None,
            Some((labels, t, c, end)) => spec_questions_end(s, end, n - 1),
        }
    }
}

/// The position just past `n` resource records parsed one after another
/// from `pos`; `None` when any of them is incomplete.
pub open spec fn spec_rrs_end(s: Seq<u8>, pos: int, n: int) -> Option<int>
    decreases n,
{
    if n <= 0 {
        Some(pos)
    } else {
        match spec_parse_rr(s, pos) {
            None => None,
            Some((labels, t, c, ttl, rdata, end)) => spec_rrs_end(s, end, n - 1),
        }
    }
}

/// `qs` holds exactly the `n` questions that parse one after another from
/// `pos`: names as the kept ASCII labels, type, class and consumed length.
pub open spec fn questions_match(qs: Seq<Question>, s: Seq<u8>, pos: int, n: int) -> bool
    decreases n,
{
    if n <= 0 {
        qs.len() == 0
    } else {
        match spec_parse_question(s, pos) {
            None => false,
            Some((labels, t, c, end)) => {
                &&& qs.len() == n
                &&& qs[0].spec_names() == crate::name::spec_label_strings(labels)
                &&& qs[0].spec_typ() == t
                &&& qs[0].spec_class() == c
                &&& qs[0].spec_length() == end - pos
                &&& questions_match(qs.drop_first(), s, end, n - 1)
            },
        }
    }
}

/// `rrs` holds exactly the `n` resource records that parse one after
/// another from `pos`.
pub open spec fn rrs_match(rrs: Seq<ResourceRecord>, s: Seq<u8>, pos: int, n: int) -> bool
    decreases n,
{
    if n <= 0 {
        rrs.len() == 0
    } else {
        match spec_parse_rr(s, pos) {
            None => false,
            Some((labels, t, c, ttl, rdata, end)) => {
                &&& rrs.len() == n
                &&& rrs[0].spec_names() == crate::name::spec_label_strings(labels)
                &&& rrs[0].spec_typ() == t
                &&& rrs[0].spec_class() == c
                &&& rrs[0].spec_ttl() == ttl
                &&& rrs[0].spec_rdata() == rdata
                &&& rrs_match(rrs.drop_first(), s, end, n - 1)
            },
        }
    }
}

/// The datagram decodes in full: 12 header bytes, then the declared number
/// of questions, then the declared number of answers, all within `s`.
pub open spec fn spec_message_ok(s: Seq<u8>) -> bool {
    &&& s.len() >= 12
    &&& spec_questions_end(s, 12, spec_qdcount(s) as int) is Some
    &&& spec_rrs_end(
        s,
        spec_questions_end(s, 12, spec_qdcount(s) as int)->Some_0,
        spec_ancount(s) as int,
    ) is Some
}

/// The position just past the answer section of a message that decodes.
pub open spec fn spec_message_end(s: Seq<u8>) -> int {
    spec_rrs_end(
        s,
        spec_questions_end(s, 12, spec_qdcount(s) as int)->Some_0,
        spec_ancount(s) as int,
    )->Some_0
}

/// Header bytes with the question and answer counts rewritten.
pub open spec fn spec_patch_counts(h: Seq<u8>, qd: u16, an: u16) -> Seq<u8> {
    h.update(4, be16_hi(qd)).update(5, be16_lo(qd)).update(6, be16_hi(an)).update(7, be16_lo(an))
}

/// A decoded (or assembled) message: the header as received, the question
/// records and the answer records, in order.  Immutable once built; each
/// datagram yields one value.
pub struct DNS {
    head: Header,
    ques: Vec<Question>,
    answers: Answers,
}

/// A message's wire form: the header bytes with both counts derived from
/// the actual list lengths, then each question's bytes, then each answer's.
pub open spec fn spec_encode_message(m: DNS) -> Seq<u8> {
    spec_patch_counts(
        m.spec_head_bytes(),
        m.spec_questions().len() as u16,
        m.spec_answers().len() as u16,
    ) + spec_encode_questions(m.spec_questions()) + spec_encode_rrs(m.spec_answers())
}

impl DNS {
    /// The 12 header bytes as received.
    pub closed spec fn spec_head_bytes(self) -> Seq<u8> {
        self.head@
    }

    /// The question records, in order.
    pub closed spec fn spec_questions(self) -> Seq<Question> {
        self.ques@
    }

    /// The answer records, in order.
    pub closed spec fn spec_answers(self) -> Seq<ResourceRecord> {
        self.answers.spec_records()
    }

    /// Fit for encoding: both lists fit their 16-bit counts and every
    /// record in them is itself fit for encoding.
    pub open spec fn wf(self) -> bool {
        &&& self.spec_questions().len() <= 0xffff
        &&& self.spec_answers().len() <= 0xffff
        &&& forall|i: int|
            0 <= i < self.spec_questions().len() ==> (#[trigger] self.spec_questions()[i]).wf()
        &&& forall|i: int|
            0 <= i < self.spec_answers().len() ==> (#[trigger] self.spec_answers()[i]).wf()
    }

    /// Decodes a datagram: the header, then as many questions and answers
    /// as the header declares.  Trailing bytes beyond the answer section
    /// are permitted and ignored.
    pub fn from(raw: &[u8]) -> (r: Result<DNS, DnsError>)
        ensures
            match r {
                Ok(m) => {
                    &&& spec_message_ok(raw@)
                    &&& m.spec_head_bytes() == raw@.subrange(0, 12)
                    &&& questions_match(m.spec_questions(), raw@, 12, spec_qdcount(raw@) as int)
                    &&& rrs_match(
                        m.spec_answers(),
                        raw@,
                        spec_questions_end(raw@, 12, spec_qdcount(raw@) as int)->Some_0,
                        spec_ancount(raw@) as int,
                    )
                    &&& m.wf()
                },
                Err(e) => !spec_message_ok(raw@) && e == DnsError::MessageIncomplete,
            },
    {
        if raw.len() < 12 {
            return Err(DnsError::MessageIncomplete);
        }
        let hb: [u8; 12] = [
            raw[0],
            raw[1],
            raw[2],
            raw[3],
            raw[4],
            raw[5],
            raw[6],
            raw[7],
            raw[8],
            raw[9],
            raw[10],
            raw[11],
        ];
        proof {
            assert(hb@ =~= raw@.subrange(0, 12));
        }
        let head = Header::new(hb);
        let qd = head.qdcount();
        let an = head.ancount();
        let mut ques: Vec<Question> = Vec::new();
        let mut pos: usize = 12;
        let mut i: u16 = 0;
        proof {
            assert(ques@ =~= Seq::<Question>::empty());
        }
        while i < qd
            invariant
                12 <= pos <= raw@.len() <= usize::MAX,
                i <= qd,
                qd == spec_qdcount(raw@),
                ques@.len() == i as int,
                spec_questions_end(raw@, 12, i as int) == Some(pos as int),
                questions_match(ques@, raw@, 12, i as int),
                forall|k: int| 0 <= k < ques@.len() ==> (#[trigger] ques@[k]).wf(),
            decreases qd - i,
        {
            let q = match Question::parse_at(raw, pos) {
                Ok(q) => q,
                Err(e) => {
                    proof {
                        lemma_questions_end_stuck(raw@, 12, i as int, qd as int);
                    }
                    return Err(e);
                },
            };
            let len = q.length();
            proof {
                lemma_questions_match_snoc(ques@, raw@, 12, i as int, pos as int, q);
            }
            pos = pos + len;
            ques.push(q);
            i = i + 1;
        }
        let mut records: Vec<ResourceRecord> = Vec::new();
        let ghost qend = pos as int;
        let mut j: u16 = 0;
        proof {
            assert(records@ =~= Seq::<ResourceRecord>::empty());
        }
        while j < an
            invariant
                12 <= pos <= raw@.len() <= usize::MAX,
                j <= an,
                qd == spec_qdcount(raw@),
                an == spec_ancount(raw@),
                spec_questions_end(raw@, 12, qd as int) == Some(qend),
                questions_match(ques@, raw@, 12, qd as int),
                forall|k: int| 0 <= k < ques@.len() ==> (#[trigger] ques@[k]).wf(),
                ques@.len() == qd as int,
                records@.len() == j as int,
                spec_rrs_end(raw@, qend, j as int) == Some(pos as int),
                rrs_match(records@, raw@, qend, j as int),
                forall|k: int| 0 <= k < records@.len() ==> (#[trigger] records@[k]).wf(),
            decreases an - j,
        {
            let (rr, end) = match ResourceRecord::parse_at(raw, pos) {
                Ok(v) => v,
                Err(e) => {
                    proof {
                        lemma_rrs_end_stuck(raw@, qend, j as int, an as int);
                    }
                    return Err(e);
                },
            };
            proof {
                lemma_rrs_match_snoc(records@, raw@, qend, j as int, pos as int, rr);
            }
            pos = end;
            records.push(rr);
            j = j + 1;
        }
        let answers = Answers::from_records(records);
        let m = DNS { head, ques, answers };
        Ok(m)
    }

    /// The header as received.
    pub fn head(&self) -> (r: &Header)
        ensures
            r@ == self.spec_head_bytes(),
    {
        &self.head
    }

    /// The question records, in order.
    pub fn questions(&self) -> (r: &Vec<Question>)
        ensures
            r@ == self.spec_questions(),
    {
        &self.ques
    }

    /// The answer records, in order.
    pub fn answers(&self) -> (r: &Answers)
        ensures
            r.spec_records() == self.spec_answers(),
    {
        &self.answers
    }

    /// Writes the whole message.  The header's question and answer counts
    /// are rewritten from the actual list lengths before the bytes go out,
    /// so they always agree with the sections that follow.
    pub fn encode(&self) -> (r: Vec<u8>)
        requires
            self.wf(),
        ensures
            r@ == spec_encode_message(*self),
    {
        let mut h = Header::new(self.head.get_0());
        h.with_qdcount(self.ques.len() as u16);
        h.with_ancount(self.answers.len() as u16);
        let hb = h.get_0();
        proof {
            assert(hb@ == spec_patch_counts(
                self.spec_head_bytes(),
                self.spec_questions().len() as u16,
                self.spec_answers().len() as u16,
            ));
        }
        let mut out: Vec<u8> = Vec::new();
        let mut k: usize = 0;
        while k < 12
            invariant
                k <= 12,
                hb@.len() == 12,
                out@ == hb@.take(k as int),
            decreases 12 - k,
        {
            out.push(hb[k]);
            k = k + 1;
            proof {
                assert(out@ =~= hb@.take(k as int));
            }
        }
        proof {
            assert(hb@.take(12) =~= hb@);
        }
        let ghost qall = self.ques@;
        let mut n: usize = 0;
        proof {
            assert(qall.take(0) =~= Seq::<Question>::empty());
            assert(out@ + Seq::<u8>::empty() =~= out@);
            assert forall|i: int| 0 <= i < qall.len() implies (#[trigger] qall[i]).wf() by {
                assert(self.spec_questions()[i].wf());
            }
        }
        while n < self.ques.len()
            invariant
                n <= qall.len(),
                qall == self.ques@,
                hb@.len() == 12,
                forall|i: int| 0 <= i < qall.len() ==> (#[trigger] qall[i]).wf(),
                out@ == hb@ + spec_encode_questions(qall.take(n as int)),
            decreases qall.len() - n,
        {
            let mut piece = self.ques[n].encode();
            out.append(&mut piece);
            proof {
                crate::question::lemma_encode_questions_push(qall.take(n as int), qall[n as int]);
                assert(qall.take(n as int).push(qall[n as int]) =~= qall.take(n as int + 1));
                assert(out@ =~= hb@ + spec_encode_questions(qall.take(n as int + 1)));
            }
            n = n + 1;
        }
        proof {
            assert(qall.take(qall.len() as int) =~= qall);
            assert forall|i: int|
                0 <= i < self.answers.spec_records().len() implies (
            #[trigger] self.answers.spec_records()[i]).wf() by {
                assert(self.spec_answers()[i].wf());
            }
        }
        let mut apiece = self.answers.encode();
        out.append(&mut apiece);
        proof {
            assert(out@ =~= spec_encode_message(*self));
        }
        out
    }
}

/// Every label of every one of the `n` questions parsed from `pos` is
/// wholly ASCII, so parsing drops none of them.
pub open spec fn questions_ascii(s: Seq<u8>, pos: int, n: int) -> bool
    decreases n,
{
    if n <= 0 {
        true
    } else {
        match spec_parse_question(s, pos) {
            None => true,
            Some((labels, t, c, end)) => crate::name::labels_ascii(labels) && questions_ascii(
                s,
                end,
                n - 1,
            ),
        }
    }
}

/// Every label of every one of the `n` resource records parsed from `pos`
/// is wholly ASCII, so parsing drops none of them.
pub open spec fn rrs_ascii(s: Seq<u8>, pos: int, n: int) -> bool
    decreases n,
{
    if n <= 0 {
        true
    } else {
        match spec_parse_rr(s, pos) {
            None => true,
            Some((labels, t, c, ttl, rdata, end)) => crate::name::labels_ascii(labels)
                && rrs_ascii(s, end, n - 1),
        }
    }
}

/// A question list that matches `n` parsed questions with all-ASCII labels
/// encodes to exactly the bytes those questions occupied.
pub proof fn lemma_questions_match_encode(qs: Seq<Question>, s: Seq<u8>, pos: int, n: int)
    requires
        0 <= pos <= s.len(),
        questions_match(qs, s, pos, n),
        questions_ascii(s, pos, n),
        spec_questions_end(s, pos, n) is Some,
    ensures
        spec_encode_questions(qs) == s.subrange(pos, spec_questions_end(s, pos, n)->Some_0),
        pos <= spec_questions_end(s, pos, n)->Some_0 <= s.len(),
    decreases n,
{
    if n <= 0 {
        assert(spec_encode_questions(qs) == Seq::<u8>::empty());
        assert(s.subrange(pos, pos) =~= Seq::<u8>::empty());
    } else {
        let (labels, t, c, end) = spec_parse_question(s, pos)->Some_0;
        let (nlabels, nend) = crate::name::spec_parse_name(s, pos)->Some_0;
        crate::name::lemma_parse_name_bounds(s, pos);
        crate::question::lemma_question_match_encodes(qs[0], s, pos);
        lemma_questions_match_encode(qs.drop_first(), s, end, n - 1);
        let e = spec_questions_end(s, pos, n)->Some_0;
        assert(s.subrange(pos, e) =~= s.subrange(pos, end) + s.subrange(end, e));
    }
}

/// A record list that matches `n` parsed records with all-ASCII labels
/// encodes to exactly the bytes those records occupied.
pub proof fn lemma_rrs_match_encode(rrs: Seq<ResourceRecord>, s: Seq<u8>, pos: int, n: int)
    requires
        0 <= pos <= s.len(),
        rrs_match(rrs, s, pos, n),
        rrs_ascii(s, pos, n),
        spec_rrs_end(s, pos, n) is Some,
    ensures
        spec_encode_rrs(rrs) == s.subrange(pos, spec_rrs_end(s, pos, n)->Some_0),
        pos <= spec_rrs_end(s, pos, n)->Some_0 <= s.len(),
    decreases n,
{
    if n <= 0 {
        assert(spec_encode_rrs(rrs) == Seq::<u8>::empty());
        assert(s.subrange(pos, pos) =~= Seq::<u8>::empty());
    } else {
        let (labels, t, c, ttl, rdata, end) = spec_parse_rr(s, pos)->Some_0;
        let (nlabels, nend) = crate::name::spec_parse_name(s, pos)->Some_0;
        crate::name::lemma_parse_name_bounds(s, pos);
        crate::answer::lemma_rr_match_encodes(rrs[0], s, pos);
        lemma_rrs_match_encode(rrs.drop_first(), s, end, n - 1);
        let e = spec_rrs_end(s, pos, n)->Some_0;
        assert(s.subrange(pos, e) =~= s.subrange(pos, end) + s.subrange(end, e));
    }
}

/// Round trip: a message decoded from a datagram whose answer section ends
/// exactly at the datagram's last byte, every name label of it ASCII,
/// encodes back to the very same bytes.
pub proof fn lemma_message_round_trip(m: DNS, s: Seq<u8>)
    requires
        spec_message_ok(s),
        spec_message_end(s) == s.len(),
        m.spec_head_bytes() == s.subrange(0, 12),
        questions_match(m.spec_questions(), s, 12, spec_qdcount(s) as int),
        rrs_match(
            m.spec_answers(),
            s,
            spec_questions_end(s, 12, spec_qdcount(s) as int)->Some_0,
            spec_ancount(s) as int,
        ),
        questions_ascii(s, 12, spec_qdcount(s) as int),
        rrs_ascii(
            s,
            spec_questions_end(s, 12, spec_qdcount(s) as int)->Some_0,
            spec_ancount(s) as int,
        ),
    ensures
        spec_encode_message(m) == s,
{
    let qd = spec_qdcount(s) as int;
    let an = spec_ancount(s) as int;
    let qend = spec_questions_end(s, 12, qd)->Some_0;
    lemma_questions_match_encode(m.spec_questions(), s, 12, qd);
    lemma_rrs_match_encode(m.spec_answers(), s, qend, an);
    assert(m.spec_questions().len() == qd);
    assert(m.spec_answers().len() == an);
    crate::header::lemma_be16_round(s[4], s[5]);
    crate::header::lemma_be16_round(s[6], s[7]);
    assert(spec_patch_counts(m.spec_head_bytes(), spec_qdcount(s), spec_ancount(s)) =~= s.subrange(
        0,
        12,
    ));
    assert(spec_encode_message(m) =~= s.subrange(0, 12) + s.subrange(12, qend) + s.subrange(
        qend,
        s.len() as int,
    ));
    assert(s.subrange(0, 12) + s.subrange(12, qend) + s.subrange(qend, s.len() as int) =~= s);
}

/// One more question parsed where the first `i` ended moves the section's
/// end to where that question ended.
pub proof fn lemma_questions_end_snoc(s: Seq<u8>, p0: int, i: int, p: int)
    requires
        i >= 0,
        spec_questions_end(s, p0, i) == Some(p),
        spec_parse_question(s, p) is Some,
    ensures
        spec_questions_end(s, p0, i + 1) == Some(spec_parse_question(s, p)->Some_0.3),
    decreases i,
{
    if i == 0 {
    } else {
        let (labels, t, c, e0) = spec_parse_question(s, p0)->Some_0;
        lemma_questions_end_snoc(s, e0, i - 1, p);
    }
}

/// When the question after the first `i` does not parse, no larger count
/// can be satisfied either.
pub proof fn lemma_questions_end_stuck(s: Seq<u8>, p0: int, i: int, n: int)
    requires
        0 <= i < n,
        spec_questions_end(s, p0, i) matches Some(p) && spec_parse_question(s, p) is None,
    ensures
        spec_questions_end(s, p0, n) is None,
    decreases i,
{
    if i == 0 {
    } else {
        let (labels, t, c, e0) = spec_parse_question(s, p0)->Some_0;
        lemma_questions_end_stuck(s, e0, i - 1, n - 1);
    }
}

/// Appending the question parsed where the first `i` ended matches the
/// grown list against the count `i + 1`.
pub proof fn lemma_questions_match_snoc(
    qs: Seq<Question>,
    s: Seq<u8>,
    p0: int,
    i: int,
    p: int,
    q: Question,
)
    requires
        i >= 0,
        qs.len() == i,
        questions_match(qs, s, p0, i),
        spec_questions_end(s, p0, i) == Some(p),
        spec_parse_question(s, p) matches Some((labels, t, c, end)) && q.spec_names()
            == crate::name::spec_label_strings(labels) && q.spec_typ() == t && q.spec_class() == c
            && q.spec_length() == end - p,
    ensures
        questions_match(qs.push(q), s, p0, i + 1),
        spec_questions_end(s, p0, i + 1) == Some(spec_parse_question(s, p)->Some_0.3),
    decreases i,
{
    lemma_questions_end_snoc(s, p0, i, p);
    if i == 0 {
        assert(qs.push(q) =~= seq![q]);
        assert(seq![q].drop_first() =~= Seq::<Question>::empty());
        let end = spec_parse_question(s, p)->Some_0.3;
        assert(questions_match(Seq::<Question>::empty(), s, end, 0));
    } else {
        let (labels, t, c, e0) = spec_parse_question(s, p0)->Some_0;
        assert(qs.push(q).drop_first() =~= qs.drop_first().push(q));
        assert(qs.push(q)[0] == qs[0]);
        lemma_questions_match_snoc(qs.drop_first(), s, e0, i - 1, p, q);
    }
}

/// One more record parsed where the first `i` ended moves the section's
/// end to where that record ended.
pub proof fn lemma_rrs_end_snoc(s: Seq<u8>, p0: int, i: int, p: int)
    requires
        i >= 0,
        spec_rrs_end(s, p0, i) == Some(p),
        spec_parse_rr(s, p) is Some,
    ensures
        spec_rrs_end(s, p0, i + 1) == Some(spec_parse_rr(s, p)->Some_0.5),
    decreases i,
{
    if i == 0 {
    } else {
        let (labels, t, c, ttl, rdata, e0) = spec_parse_rr(s, p0)->Some_0;
        lemma_rrs_end_snoc(s, e0, i - 1, p);
    }
}

/// When the record after the first `i` does not parse, no larger count can
/// be satisfied either.
pub proof fn lemma_rrs_end_stuck(s: Seq<u8>, p0: int, i: int, n: int)
    requires
        0 <= i < n,
        spec_rrs_end(s, p0, i) matches Some(p) && spec_parse_rr(s, p) is None,
    ensures
        spec_rrs_end(s, p0, n) is None,
    decreases i,
{
    if i == 0 {
    } else {
        let (labels, t, c, ttl, rdata, e0) = spec_parse_rr(s, p0)->Some_0;
        lemma_rrs_end_stuck(s, e0, i - 1, n - 1);
    }
}

/// Appending the record parsed where the first `i` ended matches the grown
/// list against the count `i + 1`.
pub proof fn lemma_rrs_match_snoc(
    rrs: Seq<ResourceRecord>,
    s: Seq<u8>,
    p0: int,
    i: int,
    p: int,
    rr: ResourceRecord,
)
    requires
        i >= 0,
        rrs.len() == i,
        rrs_match(rrs, s, p0, i),
        spec_rrs_end(s, p0, i) == Some(p),
        spec_parse_rr(s, p) matches Some((labels, t, c, ttl, rdata, end)) && rr.spec_names()
            == crate::name::spec_label_strings(labels) && rr.spec_typ() == t && rr.spec_class()
            == c && rr.spec_ttl() == ttl && rr.spec_rdata() == rdata,
    ensures
        rrs_match(rrs.push(rr), s, p0, i + 1),
        spec_rrs_end(s, p0, i + 1) == Some(spec_parse_rr(s, p)->Some_0.5),
    decreases i,
{
    lemma_rrs_end_snoc(s, p0, i, p);
    if i == 0 {
        assert(rrs.push(rr) =~= seq![rr]);
        assert(seq![rr].drop_first() =~= Seq::<ResourceRecord>::empty());
        let end = spec_parse_rr(s, p)->Some_0.5;
        assert(rrs_match(Seq::<ResourceRecord>::empty(), s, end, 0));
    } else {
        let (labels, t, c, ttl, rdata, e0) = spec_parse_rr(s, p0)->Some_0;
        assert(rrs.push(rr).drop_first() =~= rrs.drop_first().push(rr));
        assert(rrs.push(rr)[0] == rrs[0]);
        lemma_rrs_match_snoc(rrs.drop_first(), s, e0, i - 1, p, rr);
    }
}

} // verus!
