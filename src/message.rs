//! A whole message: header, questions and answers in one buffer.
use vstd::prelude::*;
use crate::answer::{parse_answer, Answer, AnswerView};
use crate::codes::{Opcode, RCode};
use crate::error::DnsError;
use crate::header::{Header, HEADER_LEN};
use crate::question::{parse_question, Question, QuestionView};
use crate::wire::{lemma_flatten_push, prepend_items};

verus! {

/// The largest number of records that a count field of the header can announce.
pub const MAX_COUNT: usize = 0xffff;

#[derive(Debug)]
pub struct Message {
    pub header: Header,
    pub questions: Vec<Question>,
    pub answers: Vec<Answer>,
}

pub ghost struct MessageView {
    pub header: Header,
    pub questions: Seq<QuestionView>,
    pub answers: Seq<AnswerView>,
}

impl View for Message {
    type V = MessageView;

    open spec fn view(&self) -> MessageView {
        MessageView {
            header: self.header,
            questions: self.questions@.map_values(|q: Question| q@),
            answers: self.answers@.map_values(|a: Answer| a@),
        }
    }
}

impl MessageView {
    /// The header can be packed, the records can be written, and their
    /// numbers fit the count fields.
    pub open spec fn is_valid(self) -> bool {
        &&& self.header.is_in_range()
        &&& self.questions.len() <= MAX_COUNT
        &&& self.answers.len() <= MAX_COUNT
        &&& forall|i: int| 0 <= i < self.questions.len() ==> #[trigger] self.questions[i].qname.is_valid()
        &&& forall|i: int| 0 <= i < self.answers.len() ==> #[trigger] self.answers[i].is_valid()
    }

    /// The header as written: the counts are those of the records that the
    /// message holds, and it holds no authority or additional records.
    pub open spec fn written_header(self) -> Header {
        Header {
            question_count: self.questions.len() as u16,
            answer_count: self.answers.len() as u16,
            authority_count: 0,
            additional_count: 0,
            ..self.header
        }
    }

    /// The bytes of the message on the wire.
    pub open spec fn spec_bytes(self) -> Seq<u8> {
        self.written_header().spec_bytes() + self.questions.map_values(
            |q: QuestionView| q.spec_bytes(),
        ).flatten() + self.answers.map_values(|a: AnswerView| a.spec_bytes()).flatten()
    }

    /// The reply to this message with the given status and answers: the id,
    /// opcode, recursion-desired flag and questions are kept.
    pub open spec fn spec_reply(self, rcode: RCode, answers: Seq<AnswerView>) -> MessageView {
        MessageView {
            header: Header {
                id: self.header.id,
                is_reply: true,
                opcode: self.header.opcode,
                authoritative: false,
                truncation: false,
                recursion_desired: self.header.recursion_desired,
                recursion_available: false,
                rcode,
                question_count: self.questions.len() as u16,
                answer_count: answers.len() as u16,
                authority_count: 0,
                additional_count: 0,
            },
            questions: self.questions,
            answers,
        }
    }
}

/// The `n` questions that start at `pos` in `b`, with the position just past them.
pub open spec fn parse_questions(b: Seq<u8>, pos: int, n: nat) -> Option<(Seq<QuestionView>, int)>
    decreases n,
{
    if n == 0 {
        Some((Seq::empty(), pos))
    } else {
        match parse_question(b, pos) {
            None => None,
            Some((q, e)) => prepend_items(seq![q], parse_questions(b, e, (n - 1) as nat)),
        }
    }
}

/// The `n` records that start at `pos` in `b`, with the position just past them.
pub open spec fn parse_answers(b: Seq<u8>, pos: int, n: nat) -> Option<(Seq<AnswerView>, int)>
    decreases n,
{
    if n == 0 {
        Some((Seq::empty(), pos))
    } else {
        match parse_answer(b, pos) {
            None => None,
            Some((a, e)) => prepend_items(seq![a], parse_answers(b, e, (n - 1) as nat)),
        }
    }
}

/// The message that `b` holds: the header, then as many questions and answers
/// as it announces; any bytes after them are not read.
pub open spec fn parse_message(b: Seq<u8>) -> Option<MessageView> {
    if b.len() < HEADER_LEN {
        None
    } else {
        let header = Header::spec_from_bytes(b);
        match parse_questions(b, HEADER_LEN as int, header.question_count as nat) {
            None => None,
            Some((questions, e)) => match parse_answers(b, e, header.answer_count as nat) {
                None => None,
                Some((answers, _)) => Some(MessageView { header, questions, answers }),
            },
        }
    }
}

proof fn lemma_parse_questions_of_bytes(qs: Seq<QuestionView>, b: Seq<u8>, pos: int)
    requires
        forall|i: int| 0 <= i < qs.len() ==> #[trigger] qs[i].is_literal(),
        0 <= pos,
        pos + qs.map_values(|q: QuestionView| q.spec_bytes()).flatten().len() <= b.len(),
        b.subrange(pos, pos + qs.map_values(|q: QuestionView| q.spec_bytes()).flatten().len())
            == qs.map_values(|q: QuestionView| q.spec_bytes()).flatten(),
    ensures
        parse_questions(b, pos, qs.len()) == Some(
            (qs, pos + qs.map_values(|q: QuestionView| q.spec_bytes()).flatten().len()),
        ),
    decreases qs.len(),
{
    let flat = qs.map_values(|q: QuestionView| q.spec_bytes()).flatten();
    if qs.len() == 0 {
        assert(qs =~= Seq::<QuestionView>::empty());
    } else {
        let q = qs[0];
        let rest = qs.drop_first();
        let rflat = rest.map_values(|q: QuestionView| q.spec_bytes()).flatten();
        let n = q.spec_bytes().len() as int;
        assert(qs.map_values(|q: QuestionView| q.spec_bytes()).drop_first() =~= rest.map_values(
            |q: QuestionView| q.spec_bytes(),
        ));
        assert(flat == q.spec_bytes() + rflat);
        assert(q.is_literal());
        assert(b.subrange(pos, pos + n) =~= q.spec_bytes()) by {
            assert(b.subrange(pos, pos + n) =~= b.subrange(pos, pos + flat.len()).subrange(0, n));
        }
        crate::question::lemma_parse_question_of_bytes(q, b, pos);
        assert(b.subrange(pos + n, pos + n + rflat.len()) =~= rflat) by {
            assert(b.subrange(pos + n, pos + n + rflat.len()) =~= b.subrange(
                pos,
                pos + flat.len(),
            ).subrange(n, flat.len() as int));
        }
        assert forall|i: int| 0 <= i < rest.len() implies #[trigger] rest[i].is_literal() by {
            assert(rest[i] == qs[i + 1]);
        }
        lemma_parse_questions_of_bytes(rest, b, pos + n);
        assert(seq![q] + rest =~= qs);
    }
}

proof fn lemma_parse_answers_of_bytes(xs: Seq<AnswerView>, b: Seq<u8>, pos: int)
    requires
        forall|i: int| 0 <= i < xs.len() ==> #[trigger] xs[i].is_literal(),
        0 <= pos,
        pos + xs.map_values(|a: AnswerView| a.spec_bytes()).flatten().len() <= b.len(),
        b.subrange(pos, pos + xs.map_values(|a: AnswerView| a.spec_bytes()).flatten().len())
            == xs.map_values(|a: AnswerView| a.spec_bytes()).flatten(),
    ensures
        parse_answers(b, pos, xs.len()) == Some(
            (xs, pos + xs.map_values(|a: AnswerView| a.spec_bytes()).flatten().len()),
        ),
    decreases xs.len(),
{
    let flat = xs.map_values(|a: AnswerView| a.spec_bytes()).flatten();
    if xs.len() == 0 {
        assert(xs =~= Seq::<AnswerView>::empty());
    } else {
        let a = xs[0];
        let rest = xs.drop_first();
        let rflat = rest.map_values(|a: AnswerView| a.spec_bytes()).flatten();
        let n = a.spec_bytes().len() as int;
        assert(xs.map_values(|a: AnswerView| a.spec_bytes()).drop_first() =~= rest.map_values(
            |a: AnswerView| a.spec_bytes(),
        ));
        assert(flat == a.spec_bytes() + rflat);
        assert(a.is_literal());
        assert(b.subrange(pos, pos + n) =~= a.spec_bytes()) by {
            assert(b.subrange(pos, pos + n) =~= b.subrange(pos, pos + flat.len()).subrange(0, n));
        }
        crate::answer::lemma_parse_answer_of_bytes(a, b, pos);
        assert(b.subrange(pos + n, pos + n + rflat.len()) =~= rflat) by {
            assert(b.subrange(pos + n, pos + n + rflat.len()) =~= b.subrange(
                pos,
                pos + flat.len(),
            ).subrange(n, flat.len() as int));
        }
        assert forall|i: int| 0 <= i < rest.len() implies #[trigger] rest[i].is_literal() by {
            assert(rest[i] == xs[i + 1]);
        }
        lemma_parse_answers_of_bytes(rest, b, pos + n);
        assert(seq![a] + rest =~= xs);
    }
}

/// Decoding the encoding of a message gives it back, where its counts are
/// those that the codec writes, its codes are canonical, and its names have
/// no pointer.
pub proof fn lemma_message_round_trip(m: MessageView)
    requires
        m.is_valid(),
        m.written_header() == m.header,
        m.header.opcode.is_canonical(),
        m.header.rcode.is_canonical(),
        forall|i: int| 0 <= i < m.questions.len() ==> #[trigger] m.questions[i].is_literal(),
        forall|i: int| 0 <= i < m.answers.len() ==> #[trigger] m.answers[i].is_literal(),
    ensures
        parse_message(m.spec_bytes()) == Some(m),
{
    let b = m.spec_bytes();
    let hb = m.header.spec_bytes();
    let qflat = m.questions.map_values(|q: QuestionView| q.spec_bytes()).flatten();
    let aflat = m.answers.map_values(|a: AnswerView| a.spec_bytes()).flatten();
    crate::header::lemma_header_round_trip(m.header);
    assert(b == hb + qflat + aflat);
    assert forall|i: int| 0 <= i < HEADER_LEN implies b[i] == hb[i] by {}
    assert(Header::spec_from_bytes(b) == m.header);
    let qend = HEADER_LEN + qflat.len();
    assert(b.subrange(HEADER_LEN as int, qend) =~= qflat);
    lemma_parse_questions_of_bytes(m.questions, b, HEADER_LEN as int);
    assert(b.subrange(qend, qend + aflat.len()) =~= aflat);
    lemma_parse_answers_of_bytes(m.answers, b, qend);
}

impl Message {
    /// Whether the message can be encoded: see `MessageView::is_valid`.
    pub fn is_valid(&self) -> (r: bool)
        ensures
            r == self@.is_valid(),
    {
        if self.header.opcode.value() >= 16 || self.header.rcode.value() >= 16
            || self.questions.len() > MAX_COUNT || self.answers.len() > MAX_COUNT {
            return false;
        }
        let mut i: usize = 0;
        while i < self.questions.len()
            invariant
                i <= self.questions@.len(),
                forall|j: int| 0 <= j < i ==> #[trigger] self@.questions[j].qname.is_valid(),
            decreases self.questions@.len() - i,
        {
            assert(self@.questions[i as int] == self.questions@[i as int]@);
            if !self.questions[i].qname.is_valid() {
                assert(!self@.questions[i as int].qname.is_valid());
                return false;
            }
            i = i + 1;
        }
        let mut i: usize = 0;
        while i < self.answers.len()
            invariant
                i <= self.answers@.len(),
                forall|j: int| 0 <= j < i ==> #[trigger] self@.answers[j].is_valid(),
            decreases self.answers@.len() - i,
        {
            let a = &self.answers[i];
            assert(self@.answers[i as int] == a@);
            if !a.name.is_valid() || a.rdata.len() != a.rdlength as usize {
                assert(!self@.answers[i as int].is_valid());
                return false;
            }
            i = i + 1;
        }
        true
    }

    /// The message on the wire: the header with the counts of the records
    /// written, then each question, then each answer.
    pub fn as_bytes(&self) -> (r: Vec<u8>)
        requires
            self@.is_valid(),
        ensures
            r@ == self@.spec_bytes(),
    {
        let ghost m = self@;
        let header = Header {
            question_count: self.questions.len() as u16,
            answer_count: self.answers.len() as u16,
            authority_count: 0,
            additional_count: 0,
            ..self.header
        };
        let mut buf: Vec<u8> = Vec::with_capacity(512);
        header.write(&mut buf);
        assert(header == m.written_header());
        let ghost qbytes = m.questions.map_values(|q: QuestionView| q.spec_bytes());
        let mut i: usize = 0;
        while i < self.questions.len()
            invariant
                m == self@,
                m.is_valid(),
                qbytes == m.questions.map_values(|q: QuestionView| q.spec_bytes()),
                i <= self.questions@.len(),
                buf@ == m.written_header().spec_bytes() + qbytes.take(i as int).flatten(),
            decreases self.questions@.len() - i,
        {
            assert(m.questions[i as int] == self.questions@[i as int]@);
            assert(m.questions[i as int].qname.is_valid());
            self.questions[i].write(&mut buf);
            proof {
                assert(qbytes.take(i + 1) =~= qbytes.take(i as int).push(qbytes[i as int]));
                lemma_flatten_push(qbytes.take(i as int), qbytes[i as int]);
            }
            i = i + 1;
            assert(buf@ =~= m.written_header().spec_bytes() + qbytes.take(i as int).flatten());
        }
        assert(qbytes.take(i as int) =~= qbytes);
        let ghost prefix = buf@;
        let ghost abytes = m.answers.map_values(|a: AnswerView| a.spec_bytes());
        let mut i: usize = 0;
        while i < self.answers.len()
            invariant
                m == self@,
                m.is_valid(),
                abytes == m.answers.map_values(|a: AnswerView| a.spec_bytes()),
                i <= self.answers@.len(),
                buf@ == prefix + abytes.take(i as int).flatten(),
            decreases self.answers@.len() - i,
        {
            assert(m.answers[i as int] == self.answers@[i as int]@);
            assert(m.answers[i as int].is_valid());
            self.answers[i].write(&mut buf);
            proof {
                assert(abytes.take(i + 1) =~= abytes.take(i as int).push(abytes[i as int]));
                lemma_flatten_push(abytes.take(i as int), abytes[i as int]);
            }
            i = i + 1;
            assert(buf@ =~= prefix + abytes.take(i as int).flatten());
        }
        assert(abytes.take(i as int) =~= abytes);
        buf
    }

    /// Decodes a message: the header, then as many questions and answers as
    /// it announces.
    pub fn from_bytes(buf: &[u8]) -> (r: Result<Message, DnsError>)
        ensures
            match parse_message(buf@) {
                Some(m) => r matches Ok(msg) && msg@ == m,
                None => r == Err::<Message, DnsError>(DnsError::MalformedInput),
            },
    {
        let header = match Header::from_bytes(buf) {
            Ok(h) => h,
            Err(e) => {
                return Err(e);
            },
        };
        let ghost b = buf@;
        let mut pos: usize = HEADER_LEN;
        let mut questions: Vec<Question> = Vec::new();
        let mut i: u16 = 0;
        while i < header.question_count
            invariant
                b == buf@,
                b.len() >= HEADER_LEN,
                header == Header::spec_from_bytes(b),
                i <= header.question_count,
                parse_questions(b, HEADER_LEN as int, header.question_count as nat) == prepend_items(
                    questions@.map_values(|q: Question| q@),
                    parse_questions(b, pos as int, (header.question_count - i) as nat),
                ),
            decreases header.question_count - i,
        {
            let ghost before = questions@.map_values(|q: Question| q@);
            let ghost at = pos as int;
            let q = match Question::read(buf, &mut pos) {
                Ok(q) => q,
                Err(e) => {
                    assert(parse_questions(b, at, (header.question_count - i) as nat) is None);
                    return Err(e);
                },
            };
            let ghost qv = q@;
            questions.push(q);
            i = i + 1;
            proof {
                assert(questions@.map_values(|q: Question| q@) =~= before + seq![qv]);
                match parse_questions(b, pos as int, (header.question_count - i) as nat) {
                    Some((qs, e)) => {
                        assert(before + (seq![qv] + qs) =~= (before + seq![qv]) + qs);
                    },
                    None => {},
                }
            }
        }
        let ghost qend = pos as int;
        assert(parse_questions(b, HEADER_LEN as int, header.question_count as nat) == Some(
            (questions@.map_values(|q: Question| q@), qend),
        )) by {
            assert(questions@.map_values(|q: Question| q@) =~= questions@.map_values(
                |q: Question| q@,
            ) + Seq::<QuestionView>::empty());
        }
        let mut answers: Vec<Answer> = Vec::new();
        let mut i: u16 = 0;
        while i < header.answer_count
            invariant
                b == buf@,
                b.len() >= HEADER_LEN,
                header == Header::spec_from_bytes(b),
                i <= header.answer_count,
                parse_questions(b, HEADER_LEN as int, header.question_count as nat) == Some(
                    (questions@.map_values(|q: Question| q@), qend),
                ),
                parse_answers(b, qend, header.answer_count as nat) == prepend_items(
                    answers@.map_values(|a: Answer| a@),
                    parse_answers(b, pos as int, (header.answer_count - i) as nat),
                ),
            decreases header.answer_count - i,
        {
            let ghost before = answers@.map_values(|a: Answer| a@);
            let ghost at = pos as int;
            let a = match Answer::read(buf, &mut pos) {
                Ok(a) => a,
                Err(e) => {
                    assert(parse_answers(b, at, (header.answer_count - i) as nat) is None);
                    return Err(e);
                },
            };
            let ghost av = a@;
            answers.push(a);
            i = i + 1;
            proof {
                assert(answers@.map_values(|a: Answer| a@) =~= before + seq![av]);
                match parse_answers(b, pos as int, (header.answer_count - i) as nat) {
                    Some((xs, e)) => {
                        assert(before + (seq![av] + xs) =~= (before + seq![av]) + xs);
                    },
                    None => {},
                }
            }
        }
        proof {
            assert(questions@.map_values(|q: Question| q@) =~= questions@.map_values(
                |q: Question| q@,
            ) + Seq::<QuestionView>::empty());
            assert(answers@.map_values(|a: Answer| a@) =~= answers@.map_values(|a: Answer| a@)
                + Seq::<AnswerView>::empty());
        }
        Ok(Message { header, questions, answers })
    }

    /// The reply to this message with the given status and answers.
    pub fn reply(&self, rcode: RCode, answers: Vec<Answer>) -> (r: Message)
        requires
            self.questions@.len() <= MAX_COUNT,
            answers@.len() <= MAX_COUNT,
        ensures
            r@ == self@.spec_reply(rcode, answers@.map_values(|a: Answer| a@)),
    {
        let mut questions: Vec<Question> = Vec::new();
        let mut i: usize = 0;
        while i < self.questions.len()
            invariant
                i <= self.questions@.len(),
                questions@.map_values(|q: Question| q@) == self@.questions.take(i as int),
            decreases self.questions@.len() - i,
        {
            assert(self@.questions[i as int] == self.questions@[i as int]@);
            let ghost before = questions@.map_values(|q: Question| q@);
            let q = self.questions[i].copy();
            questions.push(q);
            assert(questions@.map_values(|q: Question| q@) =~= before.push(q@));
            i = i + 1;
            assert(questions@.map_values(|q: Question| q@) =~= self@.questions.take(i as int));
        }
        assert(self@.questions.take(i as int) =~= self@.questions);
        let header = Header {
            id: self.header.id,
            is_reply: true,
            opcode: self.header.opcode,
            authoritative: false,
            truncation: false,
            recursion_desired: self.header.recursion_desired,
            recursion_available: false,
            rcode,
            question_count: self.questions.len() as u16,
            answer_count: answers.len() as u16,
            authority_count: 0,
            additional_count: 0,
        };
        Message { header, questions, answers }
    }
}

} // verus!
