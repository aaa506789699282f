//! The fixed twelve-byte header of a message.
use vstd::prelude::*;
use crate::codes::{Opcode, RCode};
use crate::error::DnsError;
use crate::wire::{be16, get16, lemma_get16_be16, push_u16, read_u16};

verus! {

/// The length of an encoded header in bytes.
pub const HEADER_LEN: usize = 12;

#[derive(Debug, Clone, Copy, PartialEq, Eq, Structural)]
pub struct Header {
    /// An identifier chosen by the originator of a query and copied into the reply.
    pub id: u16,
    /// Whether this message is a reply (QR).
    pub is_reply: bool,
    /// The kind of query, copied into the reply.
    pub opcode: Opcode,
    /// Authoritative answer (AA).
    pub authoritative: bool,
    /// Truncation (TC).
    pub truncation: bool,
    /// Recursion desired (RD), copied into the reply.
    pub recursion_desired: bool,
    /// Recursion available (RA).
    pub recursion_available: bool,
    /// The status of a reply.
    pub rcode: RCode,
    pub question_count: u16,
    pub answer_count: u16,
    pub authority_count: u16,
    pub additional_count: u16,
}

/// `m` where `b` holds, else zero.
pub open spec fn flag(b: bool, m: u8) -> u8 {
    if b {
        m
    } else {
        0
    }
}

impl Header {
    /// The opcode and the response code fit their four-bit fields.
    pub open spec fn is_in_range(self) -> bool {
        self.opcode.spec_value() < 16 && self.rcode.spec_value() < 16
    }

    /// QR, opcode, AA, TC and RD packed into the third byte.
    pub open spec fn spec_byte2(self) -> u8 {
        flag(self.is_reply, 0x80) | (self.opcode.spec_value() << 3u8) | flag(self.authoritative, 4)
            | flag(self.truncation, 2) | flag(self.recursion_desired, 1)
    }

    /// RA, three zero bits and the response code packed into the fourth byte.
    pub open spec fn spec_byte3(self) -> u8 {
        flag(self.recursion_available, 0x80) | self.rcode.spec_value()
    }

    /// The twelve bytes of the header on the wire.
    pub open spec fn spec_bytes(self) -> Seq<u8> {
        be16(self.id) + seq![self.spec_byte2(), self.spec_byte3()] + be16(self.question_count)
            + be16(self.answer_count) + be16(self.authority_count) + be16(self.additional_count)
    }

    /// The header that the first twelve bytes of `b` hold; the Z bits are ignored.
    pub open spec fn spec_from_bytes(b: Seq<u8>) -> Header {
        Header {
            id: get16(b, 0),
            is_reply: b[2] & 0x80 != 0,
            opcode: Opcode::spec_from_value((b[2] & 0x78) >> 3u8),
            authoritative: b[2] & 4 != 0,
            truncation: b[2] & 2 != 0,
            recursion_desired: b[2] & 1 != 0,
            recursion_available: b[3] & 0x80 != 0,
            rcode: RCode::spec_from_value(b[3] & 0x0f),
            question_count: get16(b, 4),
            answer_count: get16(b, 6),
            authority_count: get16(b, 8),
            additional_count: get16(b, 10),
        }
    }

    fn byte2(&self) -> (r: u8)
        requires
            self.is_in_range(),
        ensures
            r == self.spec_byte2(),
    {
        let mut byte: u8 = 0;
        if self.is_reply {
            byte = byte | 0x80;
        }
        byte = byte | (self.opcode.value() << 3u8);
        if self.authoritative {
            byte = byte | 4;
        }
        if self.truncation {
            byte = byte | 2;
        }
        if self.recursion_desired {
            byte = byte | 1;
        }
        proof {
            let (a, o, c, d, e) = (
                flag(self.is_reply, 0x80),
                self.opcode.spec_value(),
                flag(self.authoritative, 4),
                flag(self.truncation, 2),
                flag(self.recursion_desired, 1),
            );
            assert(0u8 | a == a && (a | (o << 3u8)) | c | d | e == a | (o << 3u8) | c | d | e)
                by (bit_vector);
            assert(a | 0u8 == a && (a | (o << 3u8)) | 0u8 == a | (o << 3u8)) by (bit_vector);
            assert(a | (o << 3u8) | c | 0u8 == a | (o << 3u8) | c) by (bit_vector);
            assert(a | (o << 3u8) | c | d | 0u8 == a | (o << 3u8) | c | d) by (bit_vector);
            assert(0u8 | (o << 3u8) == (o << 3u8)) by (bit_vector);
        }
        byte
    }

    fn byte3(&self) -> (r: u8)
        ensures
            r == self.spec_byte3(),
    {
        let mut byte: u8 = 0;
        if self.recursion_available {
            byte = byte | 0x80;
        }
        let rc = self.rcode.value();
        proof {
            assert(0u8 | 0x80u8 == 0x80u8) by (bit_vector);
            assert(0u8 | rc == rc) by (bit_vector);
        }
        byte | rc
    }

    /// Appends the twelve bytes of the header to `buf`.
    pub fn write(&self, buf: &mut Vec<u8>)
        requires
            self.is_in_range(),
        ensures
            final(buf)@ == old(buf)@ + self.spec_bytes(),
    {
        push_u16(buf, self.id);
        buf.push(self.byte2());
        buf.push(self.byte3());
        push_u16(buf, self.question_count);
        push_u16(buf, self.answer_count);
        push_u16(buf, self.authority_count);
        push_u16(buf, self.additional_count);
        assert(buf@ =~= old(buf)@ + self.spec_bytes());
    }

    /// The twelve bytes of the header.
    pub fn bytes(&self) -> (r: [u8; 12])
        requires
            self.is_in_range(),
        ensures
            r@ == self.spec_bytes(),
    {
        let r: [u8; 12] = [
            (self.id / 256) as u8,
            (self.id % 256) as u8,
            self.byte2(),
            self.byte3(),
            (self.question_count / 256) as u8,
            (self.question_count % 256) as u8,
            (self.answer_count / 256) as u8,
            (self.answer_count % 256) as u8,
            (self.authority_count / 256) as u8,
            (self.authority_count % 256) as u8,
            (self.additional_count / 256) as u8,
            (self.additional_count % 256) as u8,
        ];
        assert(r@ =~= self.spec_bytes());
        r
    }

    /// Decodes the header from the first twelve bytes of `buf`.
    pub fn from_bytes(buf: &[u8]) -> (r: Result<Header, DnsError>)
        ensures
            buf@.len() < HEADER_LEN ==> r == Err::<Header, DnsError>(DnsError::MalformedInput),
            buf@.len() >= HEADER_LEN ==> r == Ok::<Header, DnsError>(
                Header::spec_from_bytes(buf@),
            ),
    {
        if buf.len() < HEADER_LEN {
            return Err(DnsError::MalformedInput);
        }
        let b2 = buf[2];
        let b3 = buf[3];
        Ok(Header {
            id: read_u16(buf, 0),
            is_reply: b2 & 0x80 != 0,
            opcode: Opcode::from_value((b2 & 0x78) >> 3u8),
            authoritative: b2 & 4 != 0,
            truncation: b2 & 2 != 0,
            recursion_desired: b2 & 1 != 0,
            recursion_available: b3 & 0x80 != 0,
            rcode: RCode::from_value(b3 & 0x0f),
            question_count: read_u16(buf, 4),
            answer_count: read_u16(buf, 6),
            authority_count: read_u16(buf, 8),
            additional_count: read_u16(buf, 10),
        })
    }
}

proof fn lemma_unpack_byte2(a: u8, o: u8, c: u8, d: u8, e: u8)
    requires
        a == 0 || a == 0x80,
        o < 16,
        c == 0 || c == 4,
        d == 0 || d == 2,
        e == 0 || e == 1,
    ensures
        ((a | (o << 3u8) | c | d | e) & 0x80 != 0) == (a != 0),
        ((a | (o << 3u8) | c | d | e) & 0x78) >> 3u8 == o,
        ((a | (o << 3u8) | c | d | e) & 4 != 0) == (c != 0),
        ((a | (o << 3u8) | c | d | e) & 2 != 0) == (d != 0),
        ((a | (o << 3u8) | c | d | e) & 1 != 0) == (e != 0),
{
    assert(((a | (o << 3u8) | c | d | e) & 0x80 != 0) == (a != 0)) by (bit_vector)
        requires a == 0 || a == 0x80, o < 16, c == 0 || c == 4, d == 0 || d == 2, e == 0 || e == 1;
    assert(((a | (o << 3u8) | c | d | e) & 0x78) >> 3u8 == o) by (bit_vector)
        requires a == 0 || a == 0x80, o < 16, c == 0 || c == 4, d == 0 || d == 2, e == 0 || e == 1;
    assert(((a | (o << 3u8) | c | d | e) & 4 != 0) == (c != 0)) by (bit_vector)
        requires a == 0 || a == 0x80, o < 16, c == 0 || c == 4, d == 0 || d == 2, e == 0 || e == 1;
    assert(((a | (o << 3u8) | c | d | e) & 2 != 0) == (d != 0)) by (bit_vector)
        requires a == 0 || a == 0x80, o < 16, c == 0 || c == 4, d == 0 || d == 2, e == 0 || e == 1;
    assert(((a | (o << 3u8) | c | d | e) & 1 != 0) == (e != 0)) by (bit_vector)
        requires a == 0 || a == 0x80, o < 16, c == 0 || c == 4, d == 0 || d == 2, e == 0 || e == 1;
}

proof fn lemma_unpack_byte3(a: u8, r: u8)
    requires
        a == 0 || a == 0x80,
        r < 16,
    ensures
        ((a | r) & 0x80 != 0) == (a != 0),
        (a | r) & 0x0f == r,
{
    assert(((a | r) & 0x80 != 0) == (a != 0)) by (bit_vector)
        requires a == 0 || a == 0x80, r < 16;
    assert((a | r) & 0x0f == r) by (bit_vector)
        requires a == 0 || a == 0x80, r < 16;
}

/// Decoding the encoding of a header whose codes are in range and canonical
/// gives the header back.
pub proof fn lemma_header_round_trip(h: Header)
    requires
        h.is_in_range(),
        h.opcode.is_canonical(),
        h.rcode.is_canonical(),
    ensures
        h.spec_bytes().len() == HEADER_LEN,
        Header::spec_from_bytes(h.spec_bytes()) == h,
{
    let b = h.spec_bytes();
    lemma_unpack_byte2(
        flag(h.is_reply, 0x80),
        h.opcode.spec_value(),
        flag(h.authoritative, 4),
        flag(h.truncation, 2),
        flag(h.recursion_desired, 1),
    );
    lemma_unpack_byte3(flag(h.recursion_available, 0x80), h.rcode.spec_value());
    assert(b[2] == h.spec_byte2() && b[3] == h.spec_byte3());
    assert(b.subrange(4, 6) =~= be16(h.question_count));
    assert(b.subrange(6, 8) =~= be16(h.answer_count));
    assert(b.subrange(8, 10) =~= be16(h.authority_count));
    assert(b.subrange(10, 12) =~= be16(h.additional_count));
    assert(b.subrange(0, 2) =~= be16(h.id));
    lemma_get16_be16(h.id, b, 0);
    lemma_get16_be16(h.question_count, b, 4);
    lemma_get16_be16(h.answer_count, b, 6);
    lemma_get16_be16(h.authority_count, b, 8);
    lemma_get16_be16(h.additional_count, b, 10);
    crate::codes::lemma_opcode_from_value_of_value(h.opcode);
    crate::codes::lemma_rcode_from_value_of_value(h.rcode);
}

} // verus!
