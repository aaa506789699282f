//! The question section: what a query asks for.
use vstd::prelude::*;
use crate::codes::{QClass, QType};
use crate::error::DnsError;
use crate::name::{labels_bytes, parse_name, Name, NameView};
use crate::wire::{be16, get16, push_u16, read_u16};

verus! {

/// A question: the name asked about, with the type and class of the records wanted.
#[derive(Debug, Clone, PartialEq, Eq)]
pub struct Question {
    pub qname: Name,
    pub qtype: QType,
    pub qclass: QClass,
}

pub ghost struct QuestionView {
    pub qname: NameView,
    pub qtype: QType,
    pub qclass: QClass,
}

impl View for Question {
    type V = QuestionView;

    open spec fn view(&self) -> QuestionView {
        QuestionView { qname: self.qname@, qtype: self.qtype, qclass: self.qclass }
    }
}

impl QuestionView {
    /// The name is valid and has no pointer, and the codes are canonical: the
    /// question reads back from its bytes as it stands.
    pub open spec fn is_literal(self) -> bool {
        &&& self.qname.is_valid()
        &&& self.qname.pointer is None
        &&& self.qtype.is_canonical()
        &&& self.qclass.is_canonical()
    }

    /// The bytes of the question on the wire.
    pub open spec fn spec_bytes(self) -> Seq<u8> {
        self.qname.spec_bytes() + be16(self.qtype.spec_value()) + be16(self.qclass.spec_value())
    }
}

/// The question that starts at `pos` in the message `b`, with the position
/// just past it.
pub open spec fn parse_question(b: Seq<u8>, pos: int) -> Option<(QuestionView, int)> {
    match parse_name(b, pos) {
        None => None,
        Some((n, e)) => if e + 4 > b.len() {
            None
        } else {
            Some(
                (
                    QuestionView {
                        qname: n,
                        qtype: QType::spec_from_value(get16(b, e)),
                        qclass: QClass::spec_from_value(get16(b, e + 2)),
                    },
                    e + 4,
                ),
            )
        },
    }
}

/// The bytes of a literal question read back, wherever they stand, as the same question.
pub proof fn lemma_parse_question_of_bytes(q: QuestionView, b: Seq<u8>, pos: int)
    requires
        q.is_literal(),
        0 <= pos,
        pos + q.spec_bytes().len() <= b.len(),
        b.subrange(pos, pos + q.spec_bytes().len()) == q.spec_bytes(),
    ensures
        parse_question(b, pos) == Some((q, pos + q.spec_bytes().len())),
{
    let l = labels_bytes(q.qname.labels).len() as int;
    let e = pos + l + 1;
    assert(b.subrange(pos, e) =~= labels_bytes(q.qname.labels) + seq![0u8]) by {
        assert(b.subrange(pos, e) =~= b.subrange(pos, pos + q.spec_bytes().len()).subrange(0, l + 1));
    }
    crate::name::lemma_parse_labels_of_bytes(q.qname.labels, b, pos);
    assert(b.subrange(e, e + 2) =~= be16(q.qtype.spec_value())) by {
        assert(b.subrange(e, e + 2) =~= b.subrange(pos, pos + q.spec_bytes().len()).subrange(l + 1, l + 3));
    }
    assert(b.subrange(e + 2, e + 4) =~= be16(q.qclass.spec_value())) by {
        assert(b.subrange(e + 2, e + 4) =~= b.subrange(pos, pos + q.spec_bytes().len()).subrange(l + 3, l + 5));
    }
    crate::wire::lemma_get16_be16(q.qtype.spec_value(), b, e);
    crate::wire::lemma_get16_be16(q.qclass.spec_value(), b, e + 2);
    crate::codes::lemma_qtype_from_value_of_value(q.qtype);
    crate::codes::lemma_qclass_from_value_of_value(q.qclass);
}

impl Question {
    /// Appends the question to `buf`: its name, type and class.
    pub fn write(&self, buf: &mut Vec<u8>)
        requires
            self.qname@.is_valid(),
        ensures
            final(buf)@ == old(buf)@ + self@.spec_bytes(),
    {
        self.qname.write(buf);
        push_u16(buf, self.qtype.value());
        push_u16(buf, self.qclass.value());
        assert(buf@ =~= old(buf)@ + self@.spec_bytes());
    }

    /// Reads the question that starts at `*pos` in the message `buf` and moves
    /// `*pos` past it.
    pub fn read(buf: &[u8], pos: &mut usize) -> (r: Result<Question, DnsError>)
        ensures
            match parse_question(buf@, *old(pos) as int) {
                Some((q, e)) => r matches Ok(question) && question@ == q && *final(pos) as int
                    == e,
                None => r == Err::<Question, DnsError>(DnsError::MalformedInput),
            },
    {
        let qname = match Name::read(buf, pos) {
            Ok(n) => n,
            Err(e) => {
                return Err(e);
            },
        };
        if buf.len() - *pos < 4 {
            return Err(DnsError::MalformedInput);
        }
        let qtype = QType::from_value(read_u16(buf, *pos));
        let qclass = QClass::from_value(read_u16(buf, *pos + 2));
        *pos = *pos + 4;
        Ok(Question { qname, qtype, qclass })
    }

    /// A question with the same type and class whose name has its pointer
    /// followed through the message `msg`, so that it can be written into
    /// another message.
    pub fn with_resolved_name(&self, msg: &[u8]) -> (r: Result<Question, DnsError>)
        ensures
            match self.qname@.expanded(msg@) {
                Some(ls) => r matches Ok(q) && q@ == (QuestionView {
                    qname: NameView { labels: ls, pointer: None },
                    qtype: self.qtype,
                    qclass: self.qclass,
                }),
                None => r == Err::<Question, DnsError>(DnsError::MalformedInput),
            },
    {
        match self.qname.resolve(msg) {
            Ok(qname) => Ok(Question { qname, qtype: self.qtype, qclass: self.qclass }),
            Err(e) => Err(e),
        }
    }

    /// A question with the same name, type and class.
    pub fn copy(&self) -> (r: Question)
        ensures
            r@ == self@,
    {
        Question { qname: self.qname.copy(), qtype: self.qtype, qclass: self.qclass }
    }
}

} // verus!
