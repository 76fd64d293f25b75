//! The fixed 12-byte message header and its packed fields.
//!
//! The header is kept exactly as the 12 wire bytes; every field is a view
//! onto those bytes (multi-byte integers big-endian, sub-byte fields at the
//! bit positions of RFC 1035 section 4.1.1).  A setter for a field silently
//! refuses a value wider than the field: the header is left unchanged and
//! the call returns normally.  Callers that care must read the field back.

use vstd::prelude::*;

verus! {

broadcast use vstd::array::group_array_axioms;

/// The high byte of a 16-bit value in big-endian order.
pub open spec fn be16_hi(x: u16) -> u8 {
    (x / 256) as u8
}

/// The low byte of a 16-bit value in big-endian order.
pub open spec fn be16_lo(x: u16) -> u8 {
    (x % 256) as u8
}

/// Splitting a 16-bit value read from two bytes gives those bytes back.
pub proof fn lemma_be16_round(a: u8, b: u8)
    ensures
        be16_hi((a * 256 + b) as u16) == a,
        be16_lo((a * 256 + b) as u16) == b,
{
}

/// The 16-bit value stored big-endian in bytes 0..2 of `s`.
pub open spec fn spec_id(s: Seq<u8>) -> u16 {
    (s[0] * 256 + s[1]) as u16
}

/// The query/response bit: byte 2, bit 0.
pub open spec fn spec_qr(s: Seq<u8>) -> u8 {
    s[2] & 0x01
}

/// The 4-bit operation code: byte 2, bits 1 to 4.
pub open spec fn spec_opcode(s: Seq<u8>) -> u8 {
    (s[2] & 0x1e) >> 1
}

/// The authoritative-answer bit: byte 2, bit 5.
pub open spec fn spec_aa(s: Seq<u8>) -> u8 {
    (s[2] & 0x20) >> 5
}

/// The truncation bit: byte 2, bit 6.
pub open spec fn spec_tc(s: Seq<u8>) -> u8 {
    (s[2] & 0x40) >> 6
}

/// The recursion-desired bit: byte 2, bit 7.
pub open spec fn spec_rd(s: Seq<u8>) -> u8 {
    (s[2] & 0x80) >> 7
}

/// The recursion-available bit: byte 3, bit 0.
pub open spec fn spec_ra(s: Seq<u8>) -> u8 {
    s[3] & 0x01
}

/// The reserved 3-bit field: byte 3, bits 1 to 3.
pub open spec fn spec_z(s: Seq<u8>) -> u8 {
    (s[3] & 0x0e) >> 1
}

/// The 4-bit response code: byte 3, bits 4 to 7.
pub open spec fn spec_rcode(s: Seq<u8>) -> u8 {
    (s[3] & 0xf0) >> 4
}

/// The question count stored big-endian in bytes 4..6.
pub open spec fn spec_qdcount(s: Seq<u8>) -> u16 {
    (s[4] * 256 + s[5]) as u16
}

/// The answer count stored big-endian in bytes 6..8.
pub open spec fn spec_ancount(s: Seq<u8>) -> u16 {
    (s[6] * 256 + s[7]) as u16
}

/// The authority count stored big-endian in bytes 8..10.
pub open spec fn spec_nscount(s: Seq<u8>) -> u16 {
    (s[8] * 256 + s[9]) as u16
}

/// The additional count stored big-endian in bytes 10..12.
pub open spec fn spec_arcount(s: Seq<u8>) -> u16 {
    (s[10] * 256 + s[11]) as u16
}

/// A DNS message header: exactly the 12 bytes that travel on the wire.
pub struct Header(pub(crate) [u8; 12]);

impl View for Header {
    type V = Seq<u8>;

    closed spec fn view(&self) -> Seq<u8> {
        self.0@
    }
}

impl Header {
    /// Wraps 12 raw bytes as a header; a pure reinterpretation that cannot fail.
    pub fn new(raw: [u8; 12]) -> (h: Header)
        ensures
            h@ == raw@,
    {
        Header(raw)
    }

    /// Returns the stored bytes verbatim.
    pub fn get_0(&self) -> (r: [u8; 12])
        ensures
            r@ == self@,
    {
        self.0
    }

    /// The 16-bit packet identifier, bytes 0..2 big-endian.
    pub fn id(&self) -> (r: u16)
        ensures
            r == spec_id(self@),
    {
        self.0[0] as u16 * 256 + self.0[1] as u16
    }

    /// Stores `id` big-endian in bytes 0..2.
    pub fn with_id(&mut self, id: u16) -> (ret: &mut Self)
        ensures
            *final(self) == *final(ret),
            (*ret)@ == old(self)@.update(0, be16_hi(id)).update(1, be16_lo(id)),
            spec_id((*ret)@) == id,
    {
        self.0[0] = (id / 256) as u8;
        self.0[1] = (id % 256) as u8;
        self
    }

    /// The query/response indicator, byte 2 bit 0.
    pub fn qr(&self) -> (r: u8)
        ensures
            r == spec_qr(self@),
    {
        self.0[2] & 0x01
    }

    /// Sets the query/response bit; a value above 1 is silently ignored.
    pub fn with_qr(&mut self, qr: u8) -> (ret: &mut Self)
        ensures
            *final(self) == *final(ret),
            qr > 1 ==> (*ret)@ == old(self)@,
            qr <= 1 ==> (*ret)@ == old(self)@.update(2, (old(self)@[2] & 0xfe) | qr),
            spec_qr((*ret)@) == if qr <= 1 { qr } else { spec_qr(old(self)@) },
            spec_opcode((*ret)@) == spec_opcode(old(self)@),
            spec_aa((*ret)@) == spec_aa(old(self)@),
            spec_tc((*ret)@) == spec_tc(old(self)@),
            spec_rd((*ret)@) == spec_rd(old(self)@),
    {
        if qr > 1 {
            return self;
        }
        let b = self.0[2];
        self.0[2] = (b & 0xfe) | qr;
        proof {
            assert(qr <= 1 ==> ((b & 0xfe) | qr) & 0x01 == qr
                && (((b & 0xfe) | qr) & 0x1e) >> 1 == (b & 0x1e) >> 1
                && (((b & 0xfe) | qr) & 0x20) >> 5 == (b & 0x20) >> 5
                && (((b & 0xfe) | qr) & 0x40) >> 6 == (b & 0x40) >> 6
                && (((b & 0xfe) | qr) & 0x80) >> 7 == (b & 0x80) >> 7) by (bit_vector);
        }
        self
    }

    /// The 4-bit operation code, byte 2 bits 1 to 4.
    pub fn opcode(&self) -> (r: u8)
        ensures
            r == spec_opcode(self@),
    {
        (self.0[2] & 0x1e) >> 1
    }

    /// Sets the operation code; a value above 15 is silently ignored.
    pub fn with_opcode(&mut self, opcode: u8) -> (ret: &mut Self)
        ensures
            *final(self) == *final(ret),
            opcode > 0x0f ==> (*ret)@ == old(self)@,
            opcode <= 0x0f ==> (*ret)@ == old(self)@.update(
                2,
                (old(self)@[2] & 0xe1) | (opcode << 1),
            ),
            spec_opcode((*ret)@) == if opcode <= 0x0f {
                opcode
            } else {
                spec_opcode(old(self)@)
            },
            spec_qr((*ret)@) == spec_qr(old(self)@),
            spec_aa((*ret)@) == spec_aa(old(self)@),
            spec_tc((*ret)@) == spec_tc(old(self)@),
            spec_rd((*ret)@) == spec_rd(old(self)@),
    {
        if opcode > 0x0f {
            return self;
        }
        let b = self.0[2];
        self.0[2] = (b & 0xe1) | (opcode << 1);
        proof {
            assert(opcode <= 0x0f ==> (((b & 0xe1) | (opcode << 1)) & 0x1e) >> 1 == opcode
                && ((b & 0xe1) | (opcode << 1)) & 0x01 == b & 0x01
                && (((b & 0xe1) | (opcode << 1)) & 0x20) >> 5 == (b & 0x20) >> 5
                && (((b & 0xe1) | (opcode << 1)) & 0x40) >> 6 == (b & 0x40) >> 6
                && (((b & 0xe1) | (opcode << 1)) & 0x80) >> 7 == (b & 0x80) >> 7)
                by (bit_vector);
        }
        self
    }

    /// The authoritative-answer bit, byte 2 bit 5.
    pub fn aa(&self) -> (r: u8)
        ensures
            r == spec_aa(self@),
    {
        (self.0[2] & 0x20) >> 5
    }

    /// Sets the authoritative-answer bit; a value above 1 is silently ignored.
    pub fn with_aa(&mut self, aa: u8) -> (ret: &mut Self)
        ensures
            *final(self) == *final(ret),
            aa > 1 ==> (*ret)@ == old(self)@,
            aa <= 1 ==> (*ret)@ == old(self)@.update(2, (old(self)@[2] & 0xdf) | (aa << 5)),
            spec_aa((*ret)@) == if aa <= 1 { aa } else { spec_aa(old(self)@) },
            spec_qr((*ret)@) == spec_qr(old(self)@),
            spec_opcode((*ret)@) == spec_opcode(old(self)@),
            spec_tc((*ret)@) == spec_tc(old(self)@),
            spec_rd((*ret)@) == spec_rd(old(self)@),
    {
        if aa > 1 {
            return self;
        }
        let b = self.0[2];
        self.0[2] = (b & 0xdf) | (aa << 5);
        proof {
            assert(aa <= 1 ==> (((b & 0xdf) | (aa << 5)) & 0x20) >> 5 == aa
                && ((b & 0xdf) | (aa << 5)) & 0x01 == b & 0x01
                && (((b & 0xdf) | (aa << 5)) & 0x1e) >> 1 == (b & 0x1e) >> 1
                && (((b & 0xdf) | (aa << 5)) & 0x40) >> 6 == (b & 0x40) >> 6
                && (((b & 0xdf) | (aa << 5)) & 0x80) >> 7 == (b & 0x80) >> 7) by (bit_vector);
        }
        self
    }

    /// The truncation bit, byte 2 bit 6.
    pub fn tc(&self) -> (r: u8)
        ensures
            r == spec_tc(self@),
    {
        (self.0[2] & 0x40) >> 6
    }

    /// Sets the truncation bit; a value above 1 is silently ignored.
    pub fn with_tc(&mut self, tc: u8) -> (ret: &mut Self)
        ensures
            *final(self) == *final(ret),
            tc > 1 ==> (*ret)@ == old(self)@,
            tc <= 1 ==> (*ret)@ == old(self)@.update(2, (old(self)@[2] & 0xbf) | (tc << 6)),
            spec_tc((*ret)@) == if tc <= 1 { tc } else { spec_tc(old(self)@) },
            spec_qr((*ret)@) == spec_qr(old(self)@),
            spec_opcode((*ret)@) == spec_opcode(old(self)@),
            spec_aa((*ret)@) == spec_aa(old(self)@),
            spec_rd((*ret)@) == spec_rd(old(self)@),
    {
        if tc > 1 {
            return self;
        }
        let b = self.0[2];
        self.0[2] = (b & 0xbf) | (tc << 6);
        proof {
            assert(tc <= 1 ==> (((b & 0xbf) | (tc << 6)) & 0x40) >> 6 == tc
                && ((b & 0xbf) | (tc << 6)) & 0x01 == b & 0x01
                && (((b & 0xbf) | (tc << 6)) & 0x1e) >> 1 == (b & 0x1e) >> 1
                && (((b & 0xbf) | (tc << 6)) & 0x20) >> 5 == (b & 0x20) >> 5
                && (((b & 0xbf) | (tc << 6)) & 0x80) >> 7 == (b & 0x80) >> 7) by (bit_vector);
        }
        self
    }

    /// The recursion-desired bit, byte 2 bit 7.
    pub fn rd(&self) -> (r: u8)
        ensures
            r == spec_rd(self@),
    {
        (self.0[2] & 0x80) >> 7
    }

    /// Sets the recursion-desired bit; a value above 1 is silently ignored.
    pub fn with_rd(&mut self, rd: u8) -> (ret: &mut Self)
        ensures
            *final(self) == *final(ret),
            rd > 1 ==> (*ret)@ == old(self)@,
            rd <= 1 ==> (*ret)@ == old(self)@.update(2, (old(self)@[2] & 0x7f) | (rd << 7)),
            spec_rd((*ret)@) == if rd <= 1 { rd } else { spec_rd(old(self)@) },
            spec_qr((*ret)@) == spec_qr(old(self)@),
            spec_opcode((*ret)@) == spec_opcode(old(self)@),
            spec_aa((*ret)@) == spec_aa(old(self)@),
            spec_tc((*ret)@) == spec_tc(old(self)@),
    {
        if rd > 1 {
            return self;
        }
        let b = self.0[2];
        self.0[2] = (b & 0x7f) | (rd << 7);
        proof {
            assert(rd <= 1 ==> (((b & 0x7f) | (rd << 7)) & 0x80) >> 7 == rd
                && ((b & 0x7f) | (rd << 7)) & 0x01 == b & 0x01
                && (((b & 0x7f) | (rd << 7)) & 0x1e) >> 1 == (b & 0x1e) >> 1
                && (((b & 0x7f) | (rd << 7)) & 0x20) >> 5 == (b & 0x20) >> 5
                && (((b & 0x7f) | (rd << 7)) & 0x40) >> 6 == (b & 0x40) >> 6) by (bit_vector);
        }
        self
    }

    /// The recursion-available bit, byte 3 bit 0.
    pub fn ra(&self) -> (r: u8)
        ensures
            r == spec_ra(self@),
    {
        self.0[3] & 0x01
    }

    /// Sets the recursion-available bit; a value above 1 is silently ignored.
    pub fn with_ra(&mut self, ra: u8) -> (ret: &mut Self)
        ensures
            *final(self) == *final(ret),
            ra > 1 ==> (*ret)@ == old(self)@,
            ra <= 1 ==> (*ret)@ == old(self)@.update(3, (old(self)@[3] & 0xfe) | ra),
            spec_ra((*ret)@) == if ra <= 1 { ra } else { spec_ra(old(self)@) },
            spec_z((*ret)@) == spec_z(old(self)@),
            spec_rcode((*ret)@) == spec_rcode(old(self)@),
    {
        if ra > 1 {
            return self;
        }
        let b = self.0[3];
        self.0[3] = (b & 0xfe) | ra;
        proof {
            assert(ra <= 1 ==> ((b & 0xfe) | ra) & 0x01 == ra
                && (((b & 0xfe) | ra) & 0x0e) >> 1 == (b & 0x0e) >> 1
                && (((b & 0xfe) | ra) & 0xf0) >> 4 == (b & 0xf0) >> 4) by (bit_vector);
        }
        self
    }

    /// The reserved 3-bit field, byte 3 bits 1 to 3.
    pub fn z(&self) -> (r: u8)
        ensures
            r == spec_z(self@),
    {
        (self.0[3] & 0x0e) >> 1
    }

    /// Sets the reserved field; a value above 7 is silently ignored.
    pub fn with_z(&mut self, z: u32) -> (ret: &mut Self)
        ensures
            *final(self) == *final(ret),
            z > 7 ==> (*ret)@ == old(self)@,
            z <= 7 ==> (*ret)@ == old(self)@.update(
                3,
                (old(self)@[3] & 0xf1) | ((z as u8) << 1),
            ),
            spec_z((*ret)@) == if z <= 7 { z as u8 } else { spec_z(old(self)@) },
            spec_ra((*ret)@) == spec_ra(old(self)@),
            spec_rcode((*ret)@) == spec_rcode(old(self)@),
    {
        if z > 7 {
            return self;
        }
        let b = self.0[3];
        let v = z as u8;
        self.0[3] = (b & 0xf1) | (v << 1);
        proof {
            assert(v <= 7 ==> (((b & 0xf1) | (v << 1)) & 0x0e) >> 1 == v
                && ((b & 0xf1) | (v << 1)) & 0x01 == b & 0x01
                && (((b & 0xf1) | (v << 1)) & 0xf0) >> 4 == (b & 0xf0) >> 4) by (bit_vector);
        }
        self
    }

    /// The 4-bit response code, byte 3 bits 4 to 7.
    pub fn rcode(&self) -> (r: u8)
        ensures
            r == spec_rcode(self@),
    {
        (self.0[3] & 0xf0) >> 4
    }

    /// Sets the response code; a value above 15 is silently ignored.
    pub fn with_rcode(&mut self, rcode: u32) -> (ret: &mut Self)
        ensures
            *final(self) == *final(ret),
            rcode > 0x0f ==> (*ret)@ == old(self)@,
            rcode <= 0x0f ==> (*ret)@ == old(self)@.update(
                3,
                (old(self)@[3] & 0x0f) | ((rcode as u8) << 4),
            ),
            spec_rcode((*ret)@) == if rcode <= 0x0f {
                rcode as u8
            } else {
                spec_rcode(old(self)@)
            },
            spec_ra((*ret)@) == spec_ra(old(self)@),
            spec_z((*ret)@) == spec_z(old(self)@),
    {
        if rcode > 0x0f {
            return self;
        }
        let b = self.0[3];
        let v = rcode as u8;
        self.0[3] = (b & 0x0f) | (v << 4);
        proof {
            assert(v <= 0x0f ==> (((b & 0x0f) | (v << 4)) & 0xf0) >> 4 == v
                && ((b & 0x0f) | (v << 4)) & 0x01 == b & 0x01
                && (((b & 0x0f) | (v << 4)) & 0x0e) >> 1 == (b & 0x0e) >> 1) by (bit_vector);
        }
        self
    }

    /// The question count, bytes 4..6 big-endian.
    pub fn qdcount(&self) -> (r: u16)
        ensures
            r == spec_qdcount(self@),
    {
        self.0[4] as u16 * 256 + self.0[5] as u16
    }

    /// Stores the question count big-endian in bytes 4..6.
    pub fn with_qdcount(&mut self, qdcount: u16) -> (ret: &mut Self)
        ensures
            *final(self) == *final(ret),
            (*ret)@ == old(self)@.update(4, be16_hi(qdcount)).update(5, be16_lo(qdcount)),
            spec_qdcount((*ret)@) == qdcount,
    {
        self.0[4] = (qdcount / 256) as u8;
        self.0[5] = (qdcount % 256) as u8;
        self
    }

    /// The answer count, bytes 6..8 big-endian.
    pub fn ancount(&self) -> (r: u16)
        ensures
            r == spec_ancount(self@),
    {
        self.0[6] as u16 * 256 + self.0[7] as u16
    }

    /// Stores the answer count big-endian in bytes 6..8.
    pub fn with_ancount(&mut self, ancount: u16) -> (ret: &mut Self)
        ensures
            *final(self) == *final(ret),
            (*ret)@ == old(self)@.update(6, be16_hi(ancount)).update(7, be16_lo(ancount)),
            spec_ancount((*ret)@) == ancount,
    {
        self.0[6] = (ancount / 256) as u8;
        self.0[7] = (ancount % 256) as u8;
        self
    }

    /// The authority count, bytes 8..10 big-endian.
    pub fn nscount(&self) -> (r: u16)
        ensures
            r == spec_nscount(self@),
    {
        self.0[8] as u16 * 256 + self.0[9] as u16
    }

    /// Stores the authority count big-endian in bytes 8..10.
    pub fn with_nscount(&mut self, nscount: u16) -> (ret: &mut Self)
        ensures
            *final(self) == *final(ret),
            (*ret)@ == old(self)@.update(8, be16_hi(nscount)).update(9, be16_lo(nscount)),
            spec_nscount((*ret)@) == nscount,
    {
        self.0[8] = (nscount / 256) as u8;
        self.0[9] = (nscount % 256) as u8;
        self
    }

    /// The additional count, bytes 10..12 big-endian.
    pub fn arcount(&self) -> (r: u16)
        ensures
            r == spec_arcount(self@),
    {
        self.0[10] as u16 * 256 + self.0[11] as u16
    }

    /// Stores the additional count big-endian in bytes 10..12.
    pub fn with_arcount(&mut self, arcount: u16) -> (ret: &mut Self)
        ensures
            *final(self) == *final(ret),
            (*ret)@ == old(self)@.update(10, be16_hi(arcount)).update(11, be16_lo(arcount)),
            spec_arcount((*ret)@) == arcount,
    {
        self.0[10] = (arcount / 256) as u8;
        self.0[11] = (arcount % 256) as u8;
        self
    }
}

} // verus!
