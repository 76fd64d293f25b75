//! Resource records of the answer section, and the section itself.
//!
//! A record is built field by field — name labels, type, class, ttl, rdata —
//! and encoded as: name, type, class, ttl, a declared rdata length, then the
//! rdata bytes.  The declared length is always derived from the rdata
//! actually held, never set independently, so an encoded record can never
//! declare one length and carry another.

use vstd::prelude::*;
use vstd::utf8::is_ascii_chars;
use crate::error::DnsError;
use crate::header::{be16_hi, be16_lo};
use crate::name::{
    encode_name_into, labels_ascii, lemma_parse_name_bounds, lemma_parse_name_encodes,
    parse_name_at, spec_encode_name, spec_label_strings, spec_parse_name, wf_name,
};
use crate::question::spec_be16_at;

verus! {

/// The four bytes of a 32-bit value in big-endian order.
pub open spec fn be32_bytes(x: u32) -> Seq<u8> {
    seq![
        (x / 0x1000000) as u8,
        ((x / 0x10000) % 256) as u8,
        ((x / 256) % 256) as u8,
        (x % 256) as u8,
    ]
}

/// The 32-bit value stored big-endian at bytes `i..i + 4` of `s`.
pub open spec fn spec_be32_at(s: Seq<u8>, i: int) -> u32 {
    (s[i] * 0x1000000 + s[i + 1] * 0x10000 + s[i + 2] * 256 + s[i + 3]) as u32
}

/// Splitting a 32-bit value read from four bytes gives those bytes back.
pub proof fn lemma_be32_round(a: u8, b: u8, c: u8, d: u8)
    ensures
        be32_bytes((a * 0x1000000 + b * 0x10000 + c * 256 + d) as u32) =~= seq![a, b, c, d],
{
    let x = (a * 0x1000000 + b * 0x10000 + c * 256 + d) as u32;
    assert(x == a * 0x1000000 + b * 0x10000 + c * 256 + d);
    assert(x / 0x1000000 == a as u32 && (x / 0x10000) % 256 == b as u32 && (x / 256) % 256
        == c as u32 && x % 256 == d as u32) by (bit_vector)
        requires
            x == a * 0x1000000 + b * 0x10000 + c * 256 + d,
    ;
}

/// One answer record: a domain name, type, class, ttl and rdata bytes (for
/// an address record, the four octets of an IPv4 address).
pub struct ResourceRecord {
    names: Vec<String>,
    typ: u16,
    class: u16,
    ttl: u32,
    rdata: Vec<u8>,
}

/// A record's wire form: name, type, class and ttl big-endian, then the
/// length of the rdata actually held, then the rdata verbatim.
pub open spec fn spec_encode_rr(rr: ResourceRecord) -> Seq<u8> {
    spec_encode_name(rr.spec_names()) + seq![
        be16_hi(rr.spec_typ()),
        be16_lo(rr.spec_typ()),
        be16_hi(rr.spec_class()),
        be16_lo(rr.spec_class()),
    ] + be32_bytes(rr.spec_ttl()) + seq![
        be16_hi(rr.spec_rdata().len() as u16),
        be16_lo(rr.spec_rdata().len() as u16),
    ] + rr.spec_rdata()
}

/// Reads one resource record from `s` starting at `pos`: the raw name
/// labels, type, class, ttl, the rdata bytes its length field declares, and
/// the position just past the record.  `None` when the name is incomplete,
/// fewer than ten bytes follow it, or the declared rdata runs past the end.
pub open spec fn spec_parse_rr(s: Seq<u8>, pos: int) -> Option<
    (Seq<Seq<u8>>, u16, u16, u32, Seq<u8>, int),
> {
    match spec_parse_name(s, pos) {
        None => None,
        Some((labels, nend)) => if nend + 10 > s.len() {
            None
        } else {
            let rdlen = spec_be16_at(s, nend + 8) as int;
            if nend + 10 + rdlen > s.len() {
                None
            } else {
                Some(
                    (
                        labels,
                        spec_be16_at(s, nend),
                        spec_be16_at(s, nend + 2),
                        spec_be32_at(s, nend + 4),
                        s.subrange(nend + 10, nend + 10 + rdlen),
                        nend + 10 + rdlen,
                    ),
                )
            }
        },
    }
}

impl ResourceRecord {
    /// The name's labels, each as its character sequence.
    pub closed spec fn spec_names(self) -> Seq<Seq<char>> {
        self.names.deep_view()
    }

    /// The 16-bit record type.
    pub closed spec fn spec_typ(self) -> u16 {
        self.typ
    }

    /// The 16-bit record class.
    pub closed spec fn spec_class(self) -> u16 {
        self.class
    }

    /// The 32-bit time to live.
    pub closed spec fn spec_ttl(self) -> u32 {
        self.ttl
    }

    /// The rdata bytes.
    pub closed spec fn spec_rdata(self) -> Seq<u8> {
        self.rdata@
    }

    /// Fit for encoding: the name is well formed and the rdata length fits
    /// the wire's 16-bit length field.
    pub open spec fn wf(self) -> bool {
        wf_name(self.spec_names()) && self.spec_rdata().len() <= 0xffff
    }

    /// An empty record: no labels, zeroed fields, no rdata.
    pub fn new() -> (rr: ResourceRecord)
        ensures
            rr.spec_names() == Seq::<Seq<char>>::empty(),
            rr.spec_typ() == 0,
            rr.spec_class() == 0,
            rr.spec_ttl() == 0,
            rr.spec_rdata() == Seq::<u8>::empty(),
            rr.wf(),
    {
        let rr = ResourceRecord { names: Vec::new(), typ: 0, class: 0, ttl: 0, rdata: Vec::new() };
        proof {
            assert(rr.spec_names() =~= Seq::<Seq<char>>::empty());
        }
        rr
    }

    /// Appends one name label; the label must be 1 to 63 ASCII characters,
    /// as the data model demands of a domain-name label.
    pub fn with_name(&mut self, name: &str) -> (ret: &mut Self)
        requires
            1 <= name@.len() <= 63,
            is_ascii_chars(name@),
        ensures
            *final(self) == *final(ret),
            (*ret).spec_names() == old(self).spec_names().push(name@),
            (*ret).spec_typ() == old(self).spec_typ(),
            (*ret).spec_class() == old(self).spec_class(),
            (*ret).spec_ttl() == old(self).spec_ttl(),
            (*ret).spec_rdata() == old(self).spec_rdata(),
            old(self).wf() ==> (*ret).wf(),
    {
        let ghost before = self.names.deep_view();
        let owned: String = name.to_owned();
        self.names.push(owned);
        proof {
            assert(self.names.deep_view() =~= before.push(name@));
            if wf_name(before) {
                assert(wf_name(self.names.deep_view())) by {
                    assert(forall|i: int|
                        0 <= i < self.names.deep_view().len() ==> #[trigger] self.names.deep_view()[i]
                            == if i < before.len() {
                            before[i]
                        } else {
                            name@
                        });
                }
            }
        }
        self
    }

    /// Sets the 16-bit record type.
    pub fn with_type(&mut self, typ: u16) -> (ret: &mut Self)
        ensures
            *final(self) == *final(ret),
            (*ret).spec_typ() == typ,
            (*ret).spec_names() == old(self).spec_names(),
            (*ret).spec_class() == old(self).spec_class(),
            (*ret).spec_ttl() == old(self).spec_ttl(),
            (*ret).spec_rdata() == old(self).spec_rdata(),
            old(self).wf() ==> (*ret).wf(),
    {
        self.typ = typ;
        self
    }

    /// Sets the 16-bit record class.
    pub fn with_class(&mut self, class: u16) -> (ret: &mut Self)
        ensures
            *final(self) == *final(ret),
            (*ret).spec_class() == class,
            (*ret).spec_names() == old(self).spec_names(),
            (*ret).spec_typ() == old(self).spec_typ(),
            (*ret).spec_ttl() == old(self).spec_ttl(),
            (*ret).spec_rdata() == old(self).spec_rdata(),
            old(self).wf() ==> (*ret).wf(),
    {
        self.class = class;
        self
    }

    /// Sets the 32-bit time to live.
    pub fn with_ttl(&mut self, ttl: u32) -> (ret: &mut Self)
        ensures
            *final(self) == *final(ret),
            (*ret).spec_ttl() == ttl,
            (*ret).spec_names() == old(self).spec_names(),
            (*ret).spec_typ() == old(self).spec_typ(),
            (*ret).spec_class() == old(self).spec_class(),
            (*ret).spec_rdata() == old(self).spec_rdata(),
            old(self).wf() ==> (*ret).wf(),
    {
        self.ttl = ttl;
        self
    }

    /// Sets the rdata to the four octets of an IPv4 address.
    pub fn with_rdata(&mut self, octets: [u8; 4]) -> (ret: &mut Self)
        ensures
            *final(self) == *final(ret),
            (*ret).spec_rdata() == octets@,
            (*ret).spec_names() == old(self).spec_names(),
            (*ret).spec_typ() == old(self).spec_typ(),
            (*ret).spec_class() == old(self).spec_class(),
            (*ret).spec_ttl() == old(self).spec_ttl(),
            old(self).wf() ==> (*ret).wf(),
    {
        let mut rdata: Vec<u8> = Vec::new();
        rdata.push(octets[0]);
        rdata.push(octets[1]);
        rdata.push(octets[2]);
        rdata.push(octets[3]);
        proof {
            assert(rdata@ =~= octets@);
        }
        self.rdata = rdata;
        self
    }

    /// The name's labels.
    pub fn names(&self) -> (r: &Vec<String>)
        ensures
            r.deep_view() == self.spec_names(),
    {
        &self.names
    }

    /// The 16-bit record type.
    pub fn typ(&self) -> (r: u16)
        ensures
            r == self.spec_typ(),
    {
        self.typ
    }

    /// The 16-bit record class.
    pub fn class(&self) -> (r: u16)
        ensures
            r == self.spec_class(),
    {
        self.class
    }

    /// The 32-bit time to live.
    pub fn ttl(&self) -> (r: u32)
        ensures
            r == self.spec_ttl(),
    {
        self.ttl
    }

    /// The rdata bytes.
    pub fn rdata(&self) -> (r: &Vec<u8>)
        ensures
            r@ == self.spec_rdata(),
    {
        &self.rdata
    }

    /// Reads one resource record from `raw` starting at `pos`; on success
    /// also returns the position just past the record.
    pub(crate) fn parse_at(raw: &[u8], pos: usize) -> (r: Result<(ResourceRecord, usize), DnsError>)
        ensures
            match r {
                Ok((rr, end)) => spec_parse_rr(raw@, pos as int) matches Some(
                    (labels, t, c, ttl, rdata, e),
                ) && rr.spec_names() == spec_label_strings(labels) && rr.spec_typ() == t
                    && rr.spec_class() == c && rr.spec_ttl() == ttl && rr.spec_rdata() == rdata
                    && end == e && pos < end <= raw@.len() && rr.wf(),
                Err(e) => spec_parse_rr(raw@, pos as int) is None && e
                    == DnsError::MessageIncomplete,
            },
    {
        let (names, nend) = match parse_name_at(raw, pos) {
            Ok(v) => v,
            Err(e) => {
                return Err(e);
            },
        };
        if raw.len() - nend < 10 {
            return Err(DnsError::MessageIncomplete);
        }
        let typ = raw[nend] as u16 * 256 + raw[nend + 1] as u16;
        let class = raw[nend + 2] as u16 * 256 + raw[nend + 3] as u16;
        let ttl = raw[nend + 4] as u32 * 0x1000000 + raw[nend + 5] as u32 * 0x10000 + raw[nend
            + 6] as u32 * 256 + raw[nend + 7] as u32;
        let rdlen = (raw[nend + 8] as u16 * 256 + raw[nend + 9] as u16) as usize;
        if raw.len() - nend - 10 < rdlen {
            return Err(DnsError::MessageIncomplete);
        }
        let mut rdata: Vec<u8> = Vec::new();
        let mut j: usize = 0;
        while j < rdlen
            invariant
                j <= rdlen,
                nend + 10 + rdlen <= raw@.len() <= usize::MAX,
                rdata@ == raw@.subrange(nend + 10, nend + 10 + j as int),
            decreases rdlen - j,
        {
            rdata.push(raw[nend + 10 + j]);
            j = j + 1;
            proof {
                assert(rdata@ =~= raw@.subrange(nend + 10, nend + 10 + j as int));
            }
        }
        Ok((ResourceRecord { names, typ, class, ttl, rdata }, nend + 10 + rdlen))
    }

    /// Writes this record's wire form.  The declared rdata length emitted
    /// before the rdata is the length of the rdata actually held, whatever
    /// way the rdata was supplied.
    pub fn encode(&self) -> (r: Vec<u8>)
        requires
            self.wf(),
        ensures
            r@ == spec_encode_rr(*self),
    {
        let mut out: Vec<u8> = Vec::new();
        proof {
            assert(Seq::<u8>::empty() + spec_encode_name(self.spec_names()) =~= spec_encode_name(
                self.spec_names(),
            ));
        }
        encode_name_into(&self.names, &mut out);
        out.push((self.typ / 256) as u8);
        out.push((self.typ % 256) as u8);
        out.push((self.class / 256) as u8);
        out.push((self.class % 256) as u8);
        out.push((self.ttl / 0x1000000) as u8);
        out.push(((self.ttl / 0x10000) % 256) as u8);
        out.push(((self.ttl / 256) % 256) as u8);
        out.push((self.ttl % 256) as u8);
        let rdlen = self.rdata.len() as u16;
        out.push((rdlen / 256) as u8);
        out.push((rdlen % 256) as u8);
        let mut j: usize = 0;
        let ghost head = out@;
        while j < self.rdata.len()
            invariant
                j <= self.rdata@.len(),
                out@ == head + self.rdata@.take(j as int),
            decreases self.rdata@.len() - j,
        {
            out.push(self.rdata[j]);
            j = j + 1;
            proof {
                assert(out@ =~= head + self.rdata@.take(j as int));
            }
        }
        proof {
            assert(self.rdata@.take(self.rdata@.len() as int) =~= self.rdata@);
            assert(out@ =~= spec_encode_rr(*self));
        }
        out
    }
}

/// A record whose fields match a successful parse with all-ASCII labels
/// encodes to exactly the bytes the parse consumed: the rdata length it
/// declares is the length the wire declared, because the rdata is the very
/// byte range that length delimited.
pub proof fn lemma_rr_match_encodes(rr: ResourceRecord, s: Seq<u8>, pos: int)
    requires
        spec_parse_rr(s, pos) matches Some((labels, t, c, ttl, rdata, end)) && rr.spec_names()
            == spec_label_strings(labels) && rr.spec_typ() == t && rr.spec_class() == c
            && rr.spec_ttl() == ttl && rr.spec_rdata() == rdata && labels_ascii(labels),
    ensures
        spec_encode_rr(rr) == s.subrange(pos, spec_parse_rr(s, pos)->Some_0.5),
{
    let (labels, t, c, ttl, rdata, end) = spec_parse_rr(s, pos)->Some_0;
    let (nlabels, nend) = spec_parse_name(s, pos)->Some_0;
    assert(nlabels == labels);
    let rdlen = spec_be16_at(s, nend + 8) as int;
    assert(end == nend + 10 + rdlen);
    lemma_parse_name_bounds(s, pos);
    lemma_parse_name_encodes(s, pos);
    crate::header::lemma_be16_round(s[nend], s[nend + 1]);
    crate::header::lemma_be16_round(s[nend + 2], s[nend + 3]);
    lemma_be32_round(s[nend + 4], s[nend + 5], s[nend + 6], s[nend + 7]);
    crate::header::lemma_be16_round(s[nend + 8], s[nend + 9]);
    assert(rdata.len() == rdlen);
    assert(rdata.len() as u16 == spec_be16_at(s, nend + 8));
    assert(spec_encode_rr(rr) =~= s.subrange(pos, nend) + seq![
        s[nend],
        s[nend + 1],
        s[nend + 2],
        s[nend + 3],
        s[nend + 4],
        s[nend + 5],
        s[nend + 6],
        s[nend + 7],
        s[nend + 8],
        s[nend + 9],
    ] + rdata);
    assert(s.subrange(pos, end) =~= s.subrange(pos, nend) + seq![
        s[nend],
        s[nend + 1],
        s[nend + 2],
        s[nend + 3],
        s[nend + 4],
        s[nend + 5],
        s[nend + 6],
        s[nend + 7],
        s[nend + 8],
        s[nend + 9],
    ] + rdata);
}

/// The answer section: resource records in order.
pub struct Answers(Vec<ResourceRecord>);

/// The answer section's wire form: each record's bytes, concatenated in
/// list order.
pub open spec fn spec_encode_rrs(rrs: Seq<ResourceRecord>) -> Seq<u8>
    decreases rrs.len(),
{
    if rrs.len() == 0 {
        Seq::empty()
    } else {
        spec_encode_rr(rrs[0]) + spec_encode_rrs(rrs.drop_first())
    }
}

/// Appending one record to a section appends that record's wire bytes.
pub proof fn lemma_encode_rrs_push(rrs: Seq<ResourceRecord>, rr: ResourceRecord)
    ensures
        spec_encode_rrs(rrs.push(rr)) == spec_encode_rrs(rrs) + spec_encode_rr(rr),
    decreases rrs.len(),
{
    if rrs.len() == 0 {
        assert(rrs.push(rr) =~= seq![rr]);
        assert(seq![rr].drop_first() =~= Seq::<ResourceRecord>::empty());
        assert(spec_encode_rrs(Seq::<ResourceRecord>::empty()) == Seq::<u8>::empty());
        assert(spec_encode_rrs(seq![rr]) == spec_encode_rr(rr) + Seq::<u8>::empty());
        assert(spec_encode_rr(rr) + Seq::<u8>::empty() =~= spec_encode_rr(rr));
        assert(Seq::<u8>::empty() + spec_encode_rr(rr) =~= spec_encode_rr(rr));
    } else {
        assert(rrs.push(rr).drop_first() =~= rrs.drop_first().push(rr));
        assert(rrs.push(rr)[0] == rrs[0]);
        lemma_encode_rrs_push(rrs.drop_first(), rr);
        assert(spec_encode_rr(rrs[0]) + (spec_encode_rrs(rrs.drop_first()) + spec_encode_rr(rr))
            =~= (spec_encode_rr(rrs[0]) + spec_encode_rrs(rrs.drop_first())) + spec_encode_rr(rr));
    }
}

impl Answers {
    /// The records held, in order.
    pub closed spec fn spec_records(self) -> Seq<ResourceRecord> {
        self.0@
    }

    /// Every record held is fit for encoding.
    pub open spec fn wf(self) -> bool {
        forall|i: int| 0 <= i < self.spec_records().len() ==> (#[trigger] self.spec_records()[i]).wf()
    }

    /// Wraps already-parsed records as a section.
    pub(crate) fn from_records(records: Vec<ResourceRecord>) -> (a: Answers)
        ensures
            a.spec_records() == records@,
    {
        Answers(records)
    }

    /// An empty answer section.
    pub fn new() -> (a: Answers)
        ensures
            a.spec_records() == Seq::<ResourceRecord>::empty(),
            a.wf(),
    {
        let a = Answers(Vec::new());
        proof {
            assert(a.spec_records() =~= Seq::<ResourceRecord>::empty());
        }
        a
    }

    /// Appends one record to the section.
    pub fn extend(&mut self, rr: ResourceRecord)
        ensures
            final(self).spec_records() == old(self).spec_records().push(rr),
            old(self).wf() && rr.wf() ==> final(self).wf(),
    {
        let ghost before = self.0@;
        self.0.push(rr);
        proof {
            if old(self).wf() && rr.wf() {
                assert forall|i: int| 0 <= i < self.spec_records().len() implies (
                #[trigger] self.spec_records()[i]).wf() by {
                    if i < before.len() {
                        assert(self.spec_records()[i] == old(self).spec_records()[i]);
                        assert(old(self).spec_records()[i].wf());
                    } else {
                        assert(self.spec_records()[i] == rr);
                    }
                }
            }
        }
    }

    /// The number of records held.
    pub fn len(&self) -> (r: usize)
        ensures
            r == self.spec_records().len(),
    {
        self.0.len()
    }

    /// Writes the whole section: each record's wire form, in list order.
    pub fn encode(&self) -> (r: Vec<u8>)
        requires
            self.wf(),
        ensures
            r@ == spec_encode_rrs(self.spec_records()),
    {
        let mut out: Vec<u8> = Vec::new();
        let ghost all = self.0@;
        let mut n: usize = 0;
        proof {
            assert(all.take(0) =~= Seq::<ResourceRecord>::empty());
            assert forall|i: int| 0 <= i < all.len() implies (#[trigger] all[i]).wf() by {
                assert(self.spec_records()[i].wf());
            }
        }
        while n < self.0.len()
            invariant
                n <= all.len(),
                all == self.0@,
                forall|i: int| 0 <= i < all.len() ==> (#[trigger] all[i]).wf(),
                out@ == spec_encode_rrs(all.take(n as int)),
            decreases all.len() - n,
        {
            let mut piece = self.0[n].encode();
            out.append(&mut piece);
            proof {
                lemma_encode_rrs_push(all.take(n as int), all[n as int]);
                assert(all.take(n as int).push(all[n as int]) =~= all.take(n as int + 1));
            }
            n = n + 1;
        }
        proof {
            assert(all.take(all.len() as int) =~= all);
        }
        out
    }
}

} // verus!
