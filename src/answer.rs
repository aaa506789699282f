//! Resource records of the answer section.
use vstd::prelude::*;
use vstd::slice::{slice_subrange, slice_to_vec};
use crate::codes::{QClass, QType};
use crate::error::DnsError;
use crate::name::{labels_bytes, parse_name, Name, NameView};
use crate::wire::{be16, be32, get16, get32, push_bytes, push_u16, push_u32, read_u16, read_u32};

verus! {

/// The length of the fixed fields between a record's name and its data:
/// type, class, time to live and data length.
pub const RECORD_FIXED_LEN: usize = 10;

/// A resource record: a name bound to typed data.
#[derive(Debug, Clone, PartialEq, Eq)]
pub struct Answer {
    /// the name of the node that the record pertains to
    pub name: Name,
    pub rtype: QType,
    pub rclass: QClass,
    /// how long, in seconds, the record may be cached
    pub ttl: i32,
    /// the length of `rdata` in bytes
    pub rdlength: u16,
    pub rdata: Vec<u8>,
}

pub ghost struct AnswerView {
    pub name: NameView,
    pub rtype: QType,
    pub rclass: QClass,
    pub ttl: i32,
    pub rdlength: u16,
    pub rdata: Seq<u8>,
}

impl View for Answer {
    type V = AnswerView;

    open spec fn view(&self) -> AnswerView {
        AnswerView {
            name: self.name@,
            rtype: self.rtype,
            rclass: self.rclass,
            ttl: self.ttl,
            rdlength: self.rdlength,
            rdata: self.rdata@,
        }
    }
}

impl AnswerView {
    /// The name can be written and the data length is that of the data.
    pub open spec fn is_valid(self) -> bool {
        self.name.is_valid() && self.rdata.len() == self.rdlength
    }

    /// The record is valid, its name has no pointer and its codes are
    /// canonical: it reads back from its bytes as it stands.
    pub open spec fn is_literal(self) -> bool {
        &&& self.is_valid()
        &&& self.name.pointer is None
        &&& self.rtype.is_canonical()
        &&& self.rclass.is_canonical()
    }

    /// The bytes of the record on the wire.
    pub open spec fn spec_bytes(self) -> Seq<u8> {
        self.name.spec_bytes() + be16(self.rtype.spec_value()) + be16(self.rclass.spec_value())
            + be32(self.ttl as u32) + be16(self.rdlength) + self.rdata
    }
}

/// The record that starts at `pos` in the message `b`, with the position
/// just past its data.
pub open spec fn parse_answer(b: Seq<u8>, pos: int) -> Option<(AnswerView, int)> {
    match parse_name(b, pos) {
        None => None,
        Some((n, e)) => if e + RECORD_FIXED_LEN > b.len() {
            None
        } else {
            let rdlength = get16(b, e + 8);
            let end = e + RECORD_FIXED_LEN + rdlength;
            if end > b.len() {
                None
            } else {
                Some(
                    (
                        AnswerView {
                            name: n,
                            rtype: QType::spec_from_value(get16(b, e)),
                            rclass: QClass::spec_from_value(get16(b, e + 2)),
                            ttl: get32(b, e + 4) as i32,
                            rdlength,
                            rdata: b.subrange(e + RECORD_FIXED_LEN, end),
                        },
                        end,
                    ),
                )
            }
        },
    }
}

/// The bytes of a literal record read back, wherever they stand, as the same record.
pub proof fn lemma_parse_answer_of_bytes(a: AnswerView, b: Seq<u8>, pos: int)
    requires
        a.is_literal(),
        0 <= pos,
        pos + a.spec_bytes().len() <= b.len(),
        b.subrange(pos, pos + a.spec_bytes().len()) == a.spec_bytes(),
    ensures
        parse_answer(b, pos) == Some((a, pos + a.spec_bytes().len())),
{
    let all = b.subrange(pos, pos + a.spec_bytes().len());
    let l = labels_bytes(a.name.labels).len() as int;
    let e = pos + l + 1;
    assert(b.subrange(pos, e) =~= labels_bytes(a.name.labels) + seq![0u8]) by {
        assert(b.subrange(pos, e) =~= all.subrange(0, l + 1));
    }
    crate::name::lemma_parse_labels_of_bytes(a.name.labels, b, pos);
    assert(b.subrange(e, e + 2) =~= be16(a.rtype.spec_value())) by {
        assert(b.subrange(e, e + 2) =~= all.subrange(l + 1, l + 3));
    }
    assert(b.subrange(e + 2, e + 4) =~= be16(a.rclass.spec_value())) by {
        assert(b.subrange(e + 2, e + 4) =~= all.subrange(l + 3, l + 5));
    }
    assert(b.subrange(e + 4, e + 8) =~= be32(a.ttl as u32)) by {
        assert(b.subrange(e + 4, e + 8) =~= all.subrange(l + 5, l + 9));
    }
    assert(b.subrange(e + 8, e + 10) =~= be16(a.rdlength)) by {
        assert(b.subrange(e + 8, e + 10) =~= all.subrange(l + 9, l + 11));
    }
    let end = e + RECORD_FIXED_LEN + a.rdlength;
    assert(b.subrange(e + RECORD_FIXED_LEN, end) =~= a.rdata) by {
        assert(b.subrange(e + RECORD_FIXED_LEN, end) =~= all.subrange(l + 11, l + 11 + a.rdlength));
    }
    crate::wire::lemma_get16_be16(a.rtype.spec_value(), b, e);
    crate::wire::lemma_get16_be16(a.rclass.spec_value(), b, e + 2);
    crate::wire::lemma_get32_be32(a.ttl as u32, b, e + 4);
    crate::wire::lemma_get16_be16(a.rdlength, b, e + 8);
    let t = a.ttl;
    assert((t as u32) as i32 == t) by (bit_vector);
    crate::codes::lemma_qtype_from_value_of_value(a.rtype);
    crate::codes::lemma_qclass_from_value_of_value(a.rclass);
}

impl Answer {
    /// Appends the record to `buf`: name, type, class, time to live, data
    /// length and data.
    pub fn write(&self, buf: &mut Vec<u8>)
        requires
            self@.is_valid(),
        ensures
            final(buf)@ == old(buf)@ + self@.spec_bytes(),
    {
        self.name.write(buf);
        push_u16(buf, self.rtype.value());
        push_u16(buf, self.rclass.value());
        push_u32(buf, self.ttl as u32);
        push_u16(buf, self.rdlength);
        push_bytes(buf, self.rdata.as_slice());
        assert(buf@ =~= old(buf)@ + self@.spec_bytes());
    }

    /// Reads the record that starts at `*pos` in the message `buf` and moves
    /// `*pos` past its data.
    pub fn read(buf: &[u8], pos: &mut usize) -> (r: Result<Answer, DnsError>)
        ensures
            match parse_answer(buf@, *old(pos) as int) {
                Some((a, e)) => r matches Ok(answer) && answer@ == a && *final(pos) as int == e,
                None => r == Err::<Answer, DnsError>(DnsError::MalformedInput),
            },
    {
        let name = match Name::read(buf, pos) {
            Ok(n) => n,
            Err(e) => {
                return Err(e);
            },
        };
        let at = *pos;
        if buf.len() - at < RECORD_FIXED_LEN {
            return Err(DnsError::MalformedInput);
        }
        let rtype = QType::from_value(read_u16(buf, at));
        let rclass = QClass::from_value(read_u16(buf, at + 2));
        let ttl = read_u32(buf, at + 4) as i32;
        let rdlength = read_u16(buf, at + 8);
        let start = at + RECORD_FIXED_LEN;
        if buf.len() - start < rdlength as usize {
            return Err(DnsError::MalformedInput);
        }
        let end = start + rdlength as usize;
        let rdata = slice_to_vec(slice_subrange(buf, start, end));
        *pos = end;
        Ok(Answer { name, rtype, rclass, ttl, rdlength, rdata })
    }
}

} // verus!
