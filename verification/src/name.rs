//! The domain-name label codec shared by questions and resource records.
//!
//! On the wire a name is a sequence of labels, each a length byte followed
//! by that many bytes of text, closed by a single zero byte.  A length byte
//! is always read as a literal label length; compression pointers (values
//! 192 and above) are out of scope and are misread as long labels.
//!
//! Parsing keeps the labels whose bytes are all ASCII and drops the rest,
//! while still consuming them; it fails only when the buffer ends before
//! the terminating zero byte, or a declared label length would run past the
//! end with no byte left after it.

use vstd::prelude::*;
use vstd::string::StringSliceAdditionalSpecFns;
use vstd::utf8::is_ascii_chars;
use crate::error::DnsError;

verus! {

/// Every byte of `b` is an ASCII code point.
pub open spec fn ascii_bytes(b: Seq<u8>) -> bool {
    forall|i: int| 0 <= i < b.len() ==> #[trigger] b[i] < 128
}

/// The characters whose code points are the bytes of `b`.
pub open spec fn chars_of_bytes(b: Seq<u8>) -> Seq<char> {
    Seq::new(b.len(), |i: int| b[i] as char)
}

/// The code points of the characters of `l`, one byte each.
pub open spec fn bytes_of_chars(l: Seq<char>) -> Seq<u8> {
    Seq::new(l.len(), |i: int| l[i] as u8)
}

/// A label list fit for encoding: each label has 1 to 255 characters, all
/// ASCII, so that its length fits the wire's length byte and is nonzero.
pub open spec fn wf_name(names: Seq<Seq<char>>) -> bool {
    forall|i: int|
        0 <= i < names.len() ==> 1 <= (#[trigger] names[i]).len() <= 255 && is_ascii_chars(
            names[i],
        )
}

/// Reads a label sequence from `s` starting at `pos`: the raw byte labels
/// in order, and the position just past the terminating zero byte.  `None`
/// when the buffer is exhausted before the zero byte, or a label would end
/// without at least one byte following it.
pub open spec fn spec_parse_name(s: Seq<u8>, pos: int) -> Option<(Seq<Seq<u8>>, int)>
    decreases s.len() - pos,
{
    if pos < 0 || pos >= s.len() {
        None
    } else if s[pos] == 0 {
        Some((Seq::empty(), pos + 1))
    } else {
        let l = s[pos] as int;
        if pos + 1 + l >= s.len() {
            None
        } else {
            match spec_parse_name(s, pos + 1 + l) {
                None => None,
                Some((rest, end)) => Some((seq![s.subrange(pos + 1, pos + 1 + l)] + rest, end)),
            }
        }
    }
}

/// The labels already consumed, put back in front of a parse of the rest.
pub open spec fn prepend_labels(acc: Seq<Seq<u8>>, r: Option<(Seq<Seq<u8>>, int)>) -> Option<
    (Seq<Seq<u8>>, int),
> {
    match r {
        None => None,
        Some((labels, end)) => Some((acc + labels, end)),
    }
}

/// The text kept from a list of raw labels: the all-ASCII ones, in order,
/// as character sequences; the others are dropped.
pub open spec fn spec_label_strings(labels: Seq<Seq<u8>>) -> Seq<Seq<char>>
    decreases labels.len(),
{
    if labels.len() == 0 {
        Seq::empty()
    } else if ascii_bytes(labels[0]) {
        seq![chars_of_bytes(labels[0])] + spec_label_strings(labels.drop_first())
    } else {
        spec_label_strings(labels.drop_first())
    }
}

/// One label on the wire: its length byte, then its characters' bytes.
pub open spec fn spec_encode_label(l: Seq<char>) -> Seq<u8> {
    seq![l.len() as u8] + bytes_of_chars(l)
}

/// All labels of a name on the wire, without the terminating zero byte.
pub open spec fn spec_encode_labels(names: Seq<Seq<char>>) -> Seq<u8>
    decreases names.len(),
{
    if names.len() == 0 {
        Seq::empty()
    } else {
        spec_encode_label(names[0]) + spec_encode_labels(names.drop_first())
    }
}

/// A whole name on the wire: its labels, closed by the zero byte.
pub open spec fn spec_encode_name(names: Seq<Seq<char>>) -> Seq<u8> {
    spec_encode_labels(names) + seq![0u8]
}

/// A successful parse ends past its start, within the buffer, and every
/// label it yields has 1 to 255 bytes.
pub proof fn lemma_parse_name_bounds(s: Seq<u8>, pos: int)
    requires
        spec_parse_name(s, pos) is Some,
    ensures
        pos < spec_parse_name(s, pos)->Some_0.1 <= s.len(),
        forall|i: int|
            0 <= i < spec_parse_name(s, pos)->Some_0.0.len() ==> 1 <= (
            #[trigger] spec_parse_name(s, pos)->Some_0.0[i]).len() <= 255,
    decreases s.len() - pos,
{
    if s[pos] == 0 {
    } else {
        let l = s[pos] as int;
        lemma_parse_name_bounds(s, pos + 1 + l);
    }
}

/// Appending one raw label extends the kept text by that label's characters
/// when it is ASCII, and by nothing otherwise.
pub proof fn lemma_label_strings_push(labels: Seq<Seq<u8>>, l: Seq<u8>)
    ensures
        spec_label_strings(labels.push(l)) == spec_label_strings(labels) + (if ascii_bytes(l) {
            seq![chars_of_bytes(l)]
        } else {
            Seq::<Seq<char>>::empty()
        }),
    decreases labels.len(),
{
    let tail = if ascii_bytes(l) {
        seq![chars_of_bytes(l)]
    } else {
        Seq::<Seq<char>>::empty()
    };
    if labels.len() == 0 {
        assert(labels.push(l) =~= seq![l]);
        assert(seq![l].drop_first() =~= Seq::<Seq<u8>>::empty());
        assert(spec_label_strings(Seq::<Seq<u8>>::empty()) == Seq::<Seq<char>>::empty());
        if ascii_bytes(l) {
            assert(spec_label_strings(seq![l]) == seq![chars_of_bytes(l)] + Seq::<
                Seq<char>,
            >::empty());
            assert(seq![chars_of_bytes(l)] + Seq::<Seq<char>>::empty() =~= tail);
        } else {
            assert(spec_label_strings(seq![l]) == Seq::<Seq<char>>::empty());
        }
        assert(Seq::<Seq<char>>::empty() + tail =~= tail);
    } else {
        assert(labels.push(l).drop_first() =~= labels.drop_first().push(l));
        assert(labels.push(l)[0] == labels[0]);
        lemma_label_strings_push(labels.drop_first(), l);
        if ascii_bytes(labels[0]) {
            assert(spec_label_strings(labels.push(l)) == seq![chars_of_bytes(labels[0])]
                + spec_label_strings(labels.drop_first().push(l)));
            assert(seq![chars_of_bytes(labels[0])] + (spec_label_strings(labels.drop_first())
                + tail) =~= (seq![chars_of_bytes(labels[0])] + spec_label_strings(
                labels.drop_first(),
            )) + tail);
        } else {
            assert(spec_label_strings(labels.push(l)) == spec_label_strings(
                labels.drop_first().push(l),
            ));
        }
    }
}

/// Kept text of well-bounded raw labels is itself a well-formed name list.
pub proof fn lemma_label_strings_wf(labels: Seq<Seq<u8>>)
    requires
        forall|i: int| 0 <= i < labels.len() ==> 1 <= (#[trigger] labels[i]).len() <= 255,
    ensures
        wf_name(spec_label_strings(labels)),
    decreases labels.len(),
{
    if labels.len() == 0 {
    } else {
        assert(forall|i: int|
            0 <= i < labels.drop_first().len() ==> #[trigger] labels.drop_first()[i] == labels[i
                + 1]);
        lemma_label_strings_wf(labels.drop_first());
        if ascii_bytes(labels[0]) {
            let c = chars_of_bytes(labels[0]);
            assert(is_ascii_chars(c)) by {
                assert(forall|i: int| 0 <= i < c.len() ==> '\0' <= #[trigger] c[i] <= '\u{7f}')
                    by {
                    assert(forall|i: int|
                        0 <= i < labels[0].len() ==> (#[trigger] labels[0][i]) < 128);
                }
            }
            let rest = spec_label_strings(labels.drop_first());
            assert(forall|i: int|
                0 <= i < (seq![c] + rest).len() ==> (#[trigger] (seq![c] + rest)[i]) == if i == 0 {
                    c
                } else {
                    rest[i - 1]
                });
        }
    }
}

/// Appending one label to a name list appends that label's wire bytes.
pub proof fn lemma_encode_labels_push(names: Seq<Seq<char>>, l: Seq<char>)
    ensures
        spec_encode_labels(names.push(l)) == spec_encode_labels(names) + spec_encode_label(l),
    decreases names.len(),
{
    if names.len() == 0 {
        assert(names.push(l) =~= seq![l]);
        assert(seq![l].drop_first() =~= Seq::<Seq<char>>::empty());
        assert(spec_encode_labels(Seq::<Seq<char>>::empty()) == Seq::<u8>::empty());
        assert(spec_encode_labels(seq![l]) == spec_encode_label(l) + Seq::<u8>::empty());
        assert(spec_encode_label(l) + Seq::<u8>::empty() =~= spec_encode_label(l));
        assert(Seq::<u8>::empty() + spec_encode_label(l) =~= spec_encode_label(l));
    } else {
        assert(names.push(l).drop_first() =~= names.drop_first().push(l));
        assert(names.push(l)[0] == names[0]);
        lemma_encode_labels_push(names.drop_first(), l);
        assert(spec_encode_label(names[0]) + (spec_encode_labels(names.drop_first())
            + spec_encode_label(l)) =~= (spec_encode_label(names[0]) + spec_encode_labels(
            names.drop_first(),
        )) + spec_encode_label(l));
    }
}

/// Every label of the list is wholly ASCII, so none of them is dropped by
/// parsing.
pub open spec fn labels_ascii(labels: Seq<Seq<u8>>) -> bool {
    forall|i: int| 0 <= i < labels.len() ==> ascii_bytes(#[trigger] labels[i])
}

/// Reading ASCII bytes as characters and writing them back as bytes is the
/// identity, and the characters read are themselves ASCII.
pub proof fn lemma_bytes_chars_round_trip(b: Seq<u8>)
    requires
        ascii_bytes(b),
    ensures
        bytes_of_chars(chars_of_bytes(b)) =~= b,
        is_ascii_chars(chars_of_bytes(b)),
{
    let c = chars_of_bytes(b);
    assert(forall|i: int| 0 <= i < b.len() ==> (#[trigger] c[i]) as u8 == b[i]);
    assert(forall|i: int| 0 <= i < b.len() ==> '\0' <= #[trigger] c[i] <= '\u{7f}');
}

/// A parse of a strict prefix of `s` either fails or agrees with the parse
/// of `s` itself: the prefix holds the same bytes below its cut.
pub proof fn lemma_parse_name_prefix(s: Seq<u8>, k: int, pos: int)
    requires
        0 <= pos,
        0 <= k <= s.len(),
    ensures
        match spec_parse_name(s, pos) {
            None => spec_parse_name(s.subrange(0, k), pos) is None,
            Some((labels, end)) => spec_parse_name(s.subrange(0, k), pos) is None
                || spec_parse_name(s.subrange(0, k), pos) == Some((labels, end)),
        },
    decreases s.len() - pos,
{
    let t = s.subrange(0, k);
    if pos >= s.len() {
    } else if pos >= k {
    } else if s[pos] == 0 {
    } else {
        let l = s[pos] as int;
        if pos + 1 + l >= s.len() {
        } else {
            lemma_parse_name_prefix(s, k, pos + 1 + l);
            match spec_parse_name(s, pos + 1 + l) {
                None => {},
                Some((rest, end)) => {
                    if pos + 1 + l >= k {
                    } else {
                        match spec_parse_name(t, pos + 1 + l) {
                            None => {},
                            Some((rest2, end2)) => {
                                assert(t.subrange(pos + 1, pos + 1 + l) =~= s.subrange(
                                    pos + 1,
                                    pos + 1 + l,
                                ));
                            },
                        }
                    }
                },
            }
        }
    }
}

/// Re-encoding the labels of a successful parse, all of them ASCII, writes
/// back exactly the bytes the parse consumed.
pub proof fn lemma_parse_name_encodes(s: Seq<u8>, pos: int)
    requires
        spec_parse_name(s, pos) is Some,
        labels_ascii(spec_parse_name(s, pos)->Some_0.0),
    ensures
        spec_encode_name(spec_label_strings(spec_parse_name(s, pos)->Some_0.0)) == s.subrange(
            pos,
            spec_parse_name(s, pos)->Some_0.1,
        ),
    decreases s.len() - pos,
{
    let (labels, end) = spec_parse_name(s, pos)->Some_0;
    if s[pos] == 0 {
        assert(spec_label_strings(labels) == Seq::<Seq<char>>::empty());
        assert(spec_encode_name(Seq::<Seq<char>>::empty()) =~= seq![0u8]);
        assert(s.subrange(pos, pos + 1) =~= seq![s[pos]]);
    } else {
        let l = s[pos] as int;
        let label = s.subrange(pos + 1, pos + 1 + l);
        let (rest, _e) = spec_parse_name(s, pos + 1 + l)->Some_0;
        assert(labels == seq![label] + rest);
        assert(labels[0] == label);
        assert(ascii_bytes(label));
        assert(forall|i: int|
            0 <= i < rest.len() ==> #[trigger] rest[i] == labels[i + 1] && ascii_bytes(
                labels[i + 1],
            ));
        assert(labels_ascii(rest));
        lemma_parse_name_encodes(s, pos + 1 + l);
        let cl = chars_of_bytes(label);
        lemma_bytes_chars_round_trip(label);
        assert(spec_label_strings(labels) == seq![cl] + spec_label_strings(rest)) by {
            assert(labels.drop_first() =~= rest);
        }
        let sr = spec_label_strings(rest);
        assert(spec_encode_labels(seq![cl] + sr) == spec_encode_label(cl) + spec_encode_labels(
            sr,
        )) by {
            assert((seq![cl] + sr)[0] == cl);
            assert((seq![cl] + sr).drop_first() =~= sr);
        }
        assert(spec_encode_label(cl) =~= seq![s[pos]] + label) by {
            assert(cl.len() == l);
            assert(bytes_of_chars(cl) =~= label);
        }
        assert(s.subrange(pos, end) =~= (seq![s[pos]] + label) + s.subrange(pos + 1 + l, end))
            by {
            lemma_parse_name_bounds(s, pos + 1 + l);
        }
        assert((spec_encode_label(cl) + spec_encode_labels(sr)) + seq![0u8] =~= spec_encode_label(
            cl,
        ) + (spec_encode_labels(sr) + seq![0u8]));
    }
}

/// Relies on String::from_utf8: bytes below 128 are valid UTF-8 and decode
/// to exactly the characters with those code points, one per byte.
#[verifier::external_body]
fn ascii_string_of(bytes: &Vec<u8>) -> (r: String)
    requires
        ascii_bytes(bytes@),
    ensures
        r@ == chars_of_bytes(bytes@),
{
    String::from_utf8(bytes.clone()).unwrap()
}

/// Reads one name from `raw` starting at `pos`; on success returns the kept
/// ASCII labels as strings and the position just past the zero byte.
pub(crate) fn parse_name_at(raw: &[u8], pos: usize) -> (r: Result<(Vec<String>, usize), DnsError>)
    ensures
        match r {
            Ok((names, end)) => spec_parse_name(raw@, pos as int) matches Some((labels, e))
                && names.deep_view() == spec_label_strings(labels) && end == e && pos < end
                <= raw@.len() && wf_name(names.deep_view()),
            Err(e) => spec_parse_name(raw@, pos as int) is None && e
                == DnsError::MessageIncomplete,
        },
{
    if pos >= raw.len() {
        return Err(DnsError::MessageIncomplete);
    }
    let mut names: Vec<String> = Vec::new();
    let ghost mut acc: Seq<Seq<u8>> = Seq::empty();
    let mut p = pos;
    proof {
        if let Some((labels, end)) = spec_parse_name(raw@, pos as int) {
            assert(Seq::<Seq<u8>>::empty() + labels =~= labels);
        }
    }
    loop
        invariant
            pos <= p <= raw@.len(),
            names.deep_view() == spec_label_strings(acc),
            spec_parse_name(raw@, pos as int) == prepend_labels(
                acc,
                spec_parse_name(raw@, p as int),
            ),
            forall|i: int| 0 <= i < acc.len() ==> 1 <= (#[trigger] acc[i]).len() <= 255,
        decreases raw@.len() - p,
    {
        if p >= raw.len() {
            return Err(DnsError::MessageIncomplete);
        }
        let len_byte = raw[p];
        if len_byte == 0 {
            proof {
                assert(acc + Seq::<Seq<u8>>::empty() =~= acc);
                lemma_label_strings_wf(acc);
            }
            return Ok((names, p + 1));
        }
        let l = len_byte as usize;
        if l >= raw.len() - 1 - p {
            return Err(DnsError::MessageIncomplete);
        }
        let ghost label = raw@.subrange(p as int + 1, p as int + 1 + l as int);
        let mut label_bytes: Vec<u8> = Vec::new();
        let mut ascii = true;
        let mut j: usize = 0;
        while j < l
            invariant
                j <= l,
                p + 1 + l < raw@.len() <= usize::MAX,
                label_bytes@ == raw@.subrange(p as int + 1, p as int + 1 + j as int),
                ascii == ascii_bytes(label_bytes@),
            decreases l - j,
        {
            let b = raw[p + 1 + j];
            let ghost prev = label_bytes@;
            if b >= 128 {
                ascii = false;
            }
            label_bytes.push(b);
            j = j + 1;
            proof {
                assert(label_bytes@ =~= raw@.subrange(p as int + 1, p as int + 1 + j as int));
                assert(prev == label_bytes@.drop_last());
                assert(label_bytes@[prev.len() as int] == b);
                if ascii_bytes(prev) && b < 128 {
                    assert(ascii_bytes(label_bytes@)) by {
                        assert(forall|i: int|
                            0 <= i < label_bytes@.len() ==> #[trigger] label_bytes@[i] == if i
                                < prev.len() {
                                prev[i]
                            } else {
                                b
                            });
                    }
                } else if b >= 128 {
                    assert(!ascii_bytes(label_bytes@));
                } else {
                    let i = choose|i: int| 0 <= i < prev.len() && !(prev[i] < 128);
                    assert(label_bytes@[i] == prev[i]);
                    assert(!ascii_bytes(label_bytes@));
                }
            }
        }
        proof {
            assert(label_bytes@ == label);
        }
        if ascii {
            let s = ascii_string_of(&label_bytes);
            let ghost before = names.deep_view();
            names.push(s);
            proof {
                assert(names.deep_view() =~= before.push(s@));
                lemma_label_strings_push(acc, label);
                assert(spec_label_strings(acc) + seq![chars_of_bytes(label)] =~= spec_label_strings(
                    acc,
                ).push(chars_of_bytes(label)));
            }
        } else {
            proof {
                lemma_label_strings_push(acc, label);
                assert(spec_label_strings(acc) + Seq::<Seq<char>>::empty() =~= spec_label_strings(
                    acc,
                ));
            }
        }
        proof {
            let p0 = p as int;
            let next = spec_parse_name(raw@, p0 + 1 + l as int);
            match next {
                None => {
                    assert(spec_parse_name(raw@, p0) is None);
                },
                Some((rest, end)) => {
                    assert(spec_parse_name(raw@, p0) == Some((seq![label] + rest, end)));
                    assert(acc + (seq![label] + rest) =~= acc.push(label) + rest);
                },
            }
            acc = acc.push(label);
        }
        p = p + 1 + l;
    }
}

/// Appends the wire form of `names` — each label's length byte and bytes,
/// then the terminating zero byte — to `out`.
pub(crate) fn encode_name_into(names: &Vec<String>, out: &mut Vec<u8>)
    requires
        wf_name(names.deep_view()),
    ensures
        final(out)@ == old(out)@ + spec_encode_name(names.deep_view()),
{
    let ghost all = names.deep_view();
    let mut n: usize = 0;
    proof {
        assert(all.take(0) =~= Seq::<Seq<char>>::empty());
        assert(old(out)@ + Seq::<u8>::empty() =~= old(out)@);
    }
    while n < names.len()
        invariant
            n <= names.len(),
            all == names.deep_view(),
            wf_name(all),
            out@ == old(out)@ + spec_encode_labels(all.take(n as int)),
        decreases names.len() - n,
    {
        let s: &String = &names[n];
        let st: &str = s.as_str();
        let bs: &[u8] = st.as_bytes();
        proof {
            assert(st@ == all[n as int]);
            assert(is_ascii_chars(st@));
            assert(bs@ =~= bytes_of_chars(st@)) by {
                broadcast use vstd::string::is_ascii_spec_bytes;

                assert(vstd::string::is_ascii(st));
            }
        }
        out.push(bs.len() as u8);
        let mut j: usize = 0;
        while j < bs.len()
            invariant
                j <= bs@.len(),
                bs@ == bytes_of_chars(all[n as int]),
                n < all.len(),
                1 <= all[n as int].len() <= 255,
                out@ == old(out)@ + spec_encode_labels(all.take(n as int)) + seq![
                    all[n as int].len() as u8,
                ] + bs@.take(j as int),
            decreases bs@.len() - j,
        {
            out.push(bs[j]);
            j = j + 1;
            proof {
                assert(bs@.take(j as int) =~= bs@.take(j as int - 1).push(bs@[j as int - 1]));
                assert(out@ =~= old(out)@ + spec_encode_labels(all.take(n as int)) + seq![
                    all[n as int].len() as u8,
                ] + bs@.take(j as int));
            }
        }
        proof {
            assert(bs@.take(bs@.len() as int) =~= bs@);
            lemma_encode_labels_push(all.take(n as int), all[n as int]);
            assert(all.take(n as int).push(all[n as int]) =~= all.take(n as int + 1));
            assert(old(out)@ + spec_encode_labels(all.take(n as int)) + seq![
                all[n as int].len() as u8,
            ] + bytes_of_chars(all[n as int]) =~= old(out)@ + (spec_encode_labels(
                all.take(n as int),
            ) + spec_encode_label(all[n as int])));
        }
        n = n + 1;
    }
    out.push(0);
    proof {
        assert(all.take(names.len() as int) =~= all);
        assert(old(out)@ + spec_encode_labels(all) + seq![0u8] =~= old(out)@ + spec_encode_name(
            all,
        ));
    }
}

} // verus!
