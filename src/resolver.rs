//! Resolvers turn a question into answer records; `handle_request` serves a
//! whole query datagram with one of them.
use vstd::prelude::*;
use crate::answer::{Answer, AnswerView};
use crate::codes::{Opcode, QClass, QType, RCode};
use crate::error::DnsError;
use crate::header::{Header, HEADER_LEN};
use crate::message::{parse_answers, parse_message, parse_questions, Message, MessageView, MAX_COUNT};
use crate::name::{labels_bytes, NameView};
use crate::question::{parse_question, Question, QuestionView};
use crate::wire::be16;

verus! {

/// A strategy that answers one question of the message `msg`.
pub trait Resolver {
    /// The answer records for `question`, which was read from the message
    /// `msg`; a failure is never reported as an empty set of answers.
    fn resolve(&self, question: &Question, msg: &[u8]) -> Result<Vec<Answer>, DnsError>;
}

/// The time to live of a synthesized answer, in seconds.
pub const DUMMY_TTL: i32 = 60;

/// The data of a synthesized answer: a stand-in IPv4 address.
pub open spec fn dummy_rdata() -> Seq<u8> {
    seq![8u8, 8u8, 8u8, 8u8]
}

/// The answer synthesized for `q`: its name, type and class, a fixed time to
/// live and a fixed address.
pub open spec fn dummy_answer(q: QuestionView) -> AnswerView {
    AnswerView {
        name: q.qname,
        rtype: q.qtype,
        rclass: q.qclass,
        ttl: DUMMY_TTL,
        rdlength: 4,
        rdata: dummy_rdata(),
    }
}

/// A resolver that needs no upstream server: it answers each question with
/// one synthesized record.
pub struct DummyResolver;

impl DummyResolver {
    /// The one answer that this resolver gives to `question`.
    pub fn answer_for(question: &Question) -> (r: Answer)
        ensures
            r@ == dummy_answer(question@),
    {
        let rdata: Vec<u8> = vec![8u8, 8u8, 8u8, 8u8];
        assert(rdata@ =~= dummy_rdata());
        Answer {
            name: question.qname.copy(),
            rtype: question.qtype,
            rclass: question.qclass,
            ttl: DUMMY_TTL,
            rdlength: 4,
            rdata,
        }
    }
}

impl Resolver for DummyResolver {
    /// Exactly one answer, `dummy_answer` of the question, whatever `msg` holds.
    fn resolve(&self, question: &Question, msg: &[u8]) -> (r: Result<Vec<Answer>, DnsError>)
        ensures
            r matches Ok(v) && v@.map_values(|a: Answer| a@) == seq![dummy_answer(question@)],
    {
        let v = vec![DummyResolver::answer_for(question)];
        assert(v@.map_values(|a: Answer| a@) =~= seq![dummy_answer(question@)]);
        Ok(v)
    }
}

/// The query sent upstream for a question of type `qtype` and class `qclass`
/// on the labels `labels`: id 0, a standard query without recursion, one
/// question and nothing else.
pub open spec fn forward_query_message(labels: Seq<Seq<u8>>, qtype: QType, qclass: QClass) -> MessageView {
    MessageView {
        header: Header {
            id: 0,
            is_reply: false,
            opcode: Opcode::Query,
            authoritative: false,
            truncation: false,
            recursion_desired: false,
            recursion_available: false,
            rcode: RCode::NoError,
            question_count: 1,
            answer_count: 0,
            authority_count: 0,
            additional_count: 0,
        },
        questions: seq![
            QuestionView { qname: NameView { labels, pointer: None }, qtype, qclass },
        ],
        answers: Seq::empty(),
    }
}

/// The query sent upstream decodes to exactly one question, on the expanded
/// labels and with no pointer, so that no offset of the inbound message
/// leaks into it.
pub proof fn lemma_forward_query_decodes(labels: Seq<Seq<u8>>, qtype: QType, qclass: QClass)
    requires
        (NameView { labels, pointer: None }).is_valid(),
        qtype.is_canonical(),
        qclass.is_canonical(),
    ensures
        parse_message(forward_query_message(labels, qtype, qclass).spec_bytes()) == Some(
            forward_query_message(labels, qtype, qclass),
        ),
{
    let m = forward_query_message(labels, qtype, qclass);
    let b = m.spec_bytes();
    let hb = m.header.spec_bytes();
    let qv = m.questions[0];
    let nb = qv.qname.spec_bytes();
    let qbytes = m.questions.map_values(|q: QuestionView| q.spec_bytes());
    assert(m.written_header() == m.header);
    crate::header::lemma_header_round_trip(m.header);
    assert(qbytes =~= seq![qv.spec_bytes()]);
    qbytes.lemma_flatten_one_element();
    assert(m.answers.map_values(|a: AnswerView| a.spec_bytes()) =~= Seq::<Seq<u8>>::empty());
    assert(b =~= hb + nb + be16(qtype.spec_value()) + be16(qclass.spec_value()));
    assert forall|i: int| 0 <= i < HEADER_LEN implies b[i] == hb[i] by {}
    assert(Header::spec_from_bytes(b) == Header::spec_from_bytes(hb));
    let l = labels_bytes(labels).len() as int;
    assert(b.subrange(12, 12 + l + 1) =~= labels_bytes(labels) + seq![0u8]);
    crate::name::lemma_parse_labels_of_bytes(labels, b, 12);
    let e = 12 + l + 1;
    assert(b.subrange(e, e + 2) =~= be16(qtype.spec_value()));
    assert(b.subrange(e + 2, e + 4) =~= be16(qclass.spec_value()));
    crate::wire::lemma_get16_be16(qtype.spec_value(), b, e);
    crate::wire::lemma_get16_be16(qclass.spec_value(), b, e + 2);
    crate::codes::lemma_qtype_from_value_of_value(qtype);
    crate::codes::lemma_qclass_from_value_of_value(qclass);
    assert(parse_question(b, 12) == Some((qv, e + 4)));
    assert(parse_questions(b, e + 4, 0) == Some((Seq::<QuestionView>::empty(), e + 4)));
    assert(seq![qv] + Seq::<QuestionView>::empty() =~= m.questions);
    assert(parse_questions(b, 12, 1) == Some((m.questions, e + 4)));
    assert(parse_answers(b, e + 4, 0) == Some((Seq::<AnswerView>::empty(), e + 4)));
    assert(m.answers =~= Seq::<AnswerView>::empty());
}

/// The bytes of the query that forwards `question`, read from the message
/// `msg`, to an upstream server. Its name is written with every pointer
/// followed, since offsets into `msg` mean nothing in the new message.
pub fn forward_query(question: &Question, msg: &[u8]) -> (r: Result<Vec<u8>, DnsError>)
    ensures
        match question.qname@.expanded(msg@) {
            Some(ls) => if (NameView { labels: ls, pointer: None }).is_valid() {
                r matches Ok(bytes) && bytes@ == forward_query_message(
                    ls,
                    question.qtype,
                    question.qclass,
                ).spec_bytes()
            } else {
                r == Err::<Vec<u8>, DnsError>(DnsError::MalformedInput)
            },
            None => r == Err::<Vec<u8>, DnsError>(DnsError::MalformedInput),
        },
{
    let q = match question.with_resolved_name(msg) {
        Ok(q) => q,
        Err(e) => {
            return Err(e);
        },
    };
    if !q.qname.is_valid() {
        return Err(DnsError::MalformedInput);
    }
    let ghost qv = q@;
    let query = Message {
        header: Header {
            id: 0,
            is_reply: false,
            opcode: Opcode::Query,
            authoritative: false,
            truncation: false,
            recursion_desired: false,
            recursion_available: false,
            rcode: RCode::NoError,
            question_count: 1,
            answer_count: 0,
            authority_count: 0,
            additional_count: 0,
        },
        questions: vec![q],
        answers: Vec::new(),
    };
    assert(query@.questions =~= seq![qv]);
    assert(query@.answers =~= Seq::<AnswerView>::empty());
    assert(query@ == forward_query_message(qv.qname.labels, question.qtype, question.qclass));
    Ok(query.as_bytes())
}

/// The answers of the upstream server's reply `reply`, as they stand.
pub fn answers_from_reply(reply: &[u8]) -> (r: Result<Vec<Answer>, DnsError>)
    ensures
        match parse_message(reply@) {
            Some(m) => r matches Ok(answers) && answers@.map_values(|a: Answer| a@) == m.answers,
            None => r == Err::<Vec<Answer>, DnsError>(DnsError::MalformedInput),
        },
{
    match Message::from_bytes(reply) {
        Ok(m) => Ok(m.answers),
        Err(e) => Err(e),
    }
}


/// `reply` answers `m` with `found[i]` for its question `i`, concatenated in
/// order, or with `ServerFailure` where they are too many to count.
pub open spec fn replies_with(reply: MessageView, m: MessageView, found: Seq<Seq<AnswerView>>) -> bool {
    if found.flatten().len() <= MAX_COUNT {
        reply == m.spec_reply(RCode::NoError, found.flatten())
    } else {
        reply == m.spec_reply(RCode::ServerFailure, Seq::empty())
    }
}

/// The answers of each resolved question, concatenated in question order.
pub open spec fn concat_answers(found: Seq<Vec<Answer>>) -> Seq<AnswerView> {
    found.map_values(|v: Vec<Answer>| v@.map_values(|a: Answer| a@)).flatten()
}

/// The reply to `request` that carries `found[i]`, the answers to its
/// question `i`, one after another in question order. Should they outnumber
/// what the count field can announce, the reply is `ServerFailure` with none.
pub fn reply_with_answers(request: &Message, found: Vec<Vec<Answer>>) -> (r: Message)
    requires
        request@.questions.len() <= MAX_COUNT,
    ensures
        concat_answers(found@).len() <= MAX_COUNT ==> r@ == request@.spec_reply(
            RCode::NoError,
            concat_answers(found@),
        ),
        concat_answers(found@).len() > MAX_COUNT ==> r@ == request@.spec_reply(
            RCode::ServerFailure,
            Seq::empty(),
        ),
{
    let ghost orig = found@;
    let ghost all = orig.map_values(|v: Vec<Answer>| v@.map_values(|a: Answer| a@));
    let ghost n = orig.len();
    let mut found = found;
    let total = found.len();
    let mut answers: Vec<Answer> = Vec::new();
    let mut k: usize = 0;
    while found.len() > 0
        invariant
            k + found@.len() == n,
            n == total,
            all.len() == n,
            all == orig.map_values(|v: Vec<Answer>| v@.map_values(|a: Answer| a@)),
            found@ == orig.subrange(k as int, n as int),
            answers@.map_values(|a: Answer| a@) == all.take(k as int).flatten(),
        decreases found@.len(),
    {
        let ghost before = answers@.map_values(|a: Answer| a@);
        assert(found@[0] == orig[k as int]);
        let mut part = found.remove(0);
        let ghost pv = part@.map_values(|a: Answer| a@);
        assert(pv == all[k as int]);
        answers.append(&mut part);
        proof {
            assert(answers@.map_values(|a: Answer| a@) =~= before + pv);
            assert(all.take(k + 1) =~= all.take(k as int).push(all[k as int]));
            crate::wire::lemma_flatten_push(all.take(k as int), all[k as int]);
            assert(found@ =~= orig.subrange(k + 1, n as int));
        }
        k = k + 1;
    }
    assert(all.take(k as int) =~= all);
    if answers.len() > MAX_COUNT {
        let r = request.reply(RCode::ServerFailure, Vec::new());
        assert(Seq::<Answer>::empty().map_values(|a: Answer| a@) =~= Seq::<AnswerView>::empty());
        return r;
    }
    request.reply(RCode::NoError, answers)
}

proof fn lemma_parse_questions_len(b: Seq<u8>, pos: int, n: nat)
    ensures
        parse_questions(b, pos, n) matches Some((qs, _)) ==> qs.len() == n,
    decreases n,
{
    if n > 0 {
        if let Some((q, e)) = parse_question(b, pos) {
            lemma_parse_questions_len(b, e, (n - 1) as nat);
        }
    }
}

/// The reply to the query datagram `msg`. A standard query has each of its
/// questions resolved in turn and their answers concatenated in order (see
/// `reply_with_answers`); any other opcode is answered with `NotImplemented`
/// and no answers. A failure of the resolver fails the whole reply.
pub fn handle_request<R: Resolver>(resolver: &R, msg: &[u8]) -> (r: Result<Message, DnsError>)
    ensures
        match parse_message(msg@) {
            None => r == Err::<Message, DnsError>(DnsError::MalformedInput),
            Some(m) => if m.header.opcode != Opcode::Query {
                r matches Ok(reply) && reply@ == m.spec_reply(RCode::NotImplemented, Seq::empty())
            } else if m.questions.len() == 0 {
                r matches Ok(reply) && reply@ == m.spec_reply(RCode::NoError, Seq::empty())
            } else {
                r matches Ok(reply) ==> exists|found: Seq<Seq<AnswerView>>|
                    found.len() == m.questions.len() && #[trigger] replies_with(
                        reply@,
                        m,
                        found,
                    )
            },
        },
{
    let request = match Message::from_bytes(msg) {
        Ok(m) => m,
        Err(e) => {
            return Err(e);
        },
    };
    proof {
        lemma_parse_questions_len(msg@, 12, request.header.question_count as nat);
    }
    assert(request@.questions.len() <= MAX_COUNT);
    match request.header.opcode {
        Opcode::Query => {},
        _ => {
            let r = request.reply(RCode::NotImplemented, Vec::new());
            assert(Seq::<Answer>::empty().map_values(|a: Answer| a@) =~= Seq::<AnswerView>::empty());
            return Ok(r);
        },
    }
    let mut found: Vec<Vec<Answer>> = Vec::new();
    let mut i: usize = 0;
    while i < request.questions.len()
        invariant
            i <= request.questions@.len(),
            found@.len() == i,
            parse_message(msg@) == Some(request@),
            request.header.opcode == Opcode::Query,
        decreases request.questions@.len() - i,
    {
        match resolver.resolve(&request.questions[i], msg) {
            Ok(answers) => {
                found.push(answers);
            },
            Err(e) => {
                return Err(e);
            },
        }
        i = i + 1;
    }
    proof {
        if request@.questions.len() == 0 {
            assert(found@ =~= Seq::<Vec<Answer>>::empty());
            assert(found@.map_values(|v: Vec<Answer>| v@.map_values(|a: Answer| a@)) =~= Seq::<
                Seq<AnswerView>,
            >::empty());
        }
    }
    let ghost fv = found@.map_values(|v: Vec<Answer>| v@.map_values(|a: Answer| a@));
    let reply = reply_with_answers(&request, found);
    assert(fv.len() == request@.questions.len());
    assert(replies_with(reply@, request@, fv));
    Ok(reply)
}

} // verus!
