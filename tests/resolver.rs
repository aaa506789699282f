use dns_starter_rust::{
    answers_from_reply, forward_query, handle_request, reply_with_answers, Answer, DnsError, DummyResolver, Header,
    Message, Name, Opcode, QClass, QType, Question, RCode, Resolver, UpstreamStep,
};

fn name(labels: &[&str]) -> Name {
    Name { parts: labels.iter().map(|l| l.as_bytes().to_vec()).collect(), pointer: None }
}

fn query_header(opcode: Opcode, question_count: u16) -> Header {
    Header {
        id: 1234,
        is_reply: false,
        opcode,
        authoritative: false,
        truncation: false,
        recursion_desired: true,
        recursion_available: false,
        rcode: RCode::NoError,
        question_count,
        answer_count: 0,
        authority_count: 0,
        additional_count: 0,
    }
}

fn question(labels: &[&str], qtype: QType) -> Question {
    Question { qname: name(labels), qtype, qclass: QClass::IN }
}

fn datagram(opcode: Opcode, questions: Vec<Question>) -> Vec<u8> {
    let m = Message { header: query_header(opcode, questions.len() as u16), questions, answers: vec![] };
    m.as_bytes()
}

#[test]
fn dummy_reply_to_a_standard_query() {
    let bytes = datagram(Opcode::Query, vec![question(&["codecrafters", "io"], QType::A)]);
    let reply = handle_request(&DummyResolver, &bytes).unwrap();
    assert!(reply.header.is_reply);
    assert_eq!(reply.header.id, 1234);
    assert_eq!(reply.header.opcode, Opcode::Query);
    assert!(reply.header.recursion_desired);
    assert_eq!(reply.header.rcode, RCode::NoError);
    assert_eq!(reply.header.question_count, 1);
    assert_eq!(reply.header.answer_count, 1);
    assert_eq!(reply.questions, vec![question(&["codecrafters", "io"], QType::A)]);
    let a = &reply.answers[0];
    assert_eq!(a.name, name(&["codecrafters", "io"]));
    assert_eq!(a.rtype, QType::A);
    assert_eq!(a.rclass, QClass::IN);
    assert_eq!(a.ttl, 60);
    assert_eq!(a.rdlength, 4);
    assert_eq!(a.rdata, vec![8, 8, 8, 8]);
    let wire = reply.as_bytes();
    let back = Message::from_bytes(&wire).unwrap();
    assert_eq!(back.header, reply.header);
    assert_eq!(back.answers, reply.answers);
}

#[test]
fn inverse_query_is_not_implemented() {
    let bytes = datagram(Opcode::IQuery, vec![question(&["codecrafters", "io"], QType::A)]);
    let reply = handle_request(&DummyResolver, &bytes).unwrap();
    assert!(reply.header.is_reply);
    assert_eq!(reply.header.id, 1234);
    assert_eq!(reply.header.opcode, Opcode::IQuery);
    assert_eq!(reply.header.answer_count, 0);
    assert_eq!(reply.header.rcode, RCode::NotImplemented);
    assert!(reply.answers.is_empty());
    for op in [Opcode::Status, Opcode::Reserved(9)] {
        let bytes = datagram(op, vec![question(&["a"], QType::A)]);
        let reply = handle_request(&DummyResolver, &bytes).unwrap();
        assert_eq!(reply.header.rcode, RCode::NotImplemented);
        assert_eq!(reply.header.opcode, op);
    }
}

#[test]
fn two_questions_get_answers_in_order() {
    let bytes = datagram(
        Opcode::Query,
        vec![question(&["abc", "longassdomainname", "com"], QType::A), question(&["def", "org"], QType::MX)],
    );
    let reply = handle_request(&DummyResolver, &bytes).unwrap();
    assert_eq!(reply.header.question_count, 2);
    assert_eq!(reply.header.answer_count, 2);
    assert_eq!(reply.answers[0].name, name(&["abc", "longassdomainname", "com"]));
    assert_eq!(reply.answers[1].name, name(&["def", "org"]));
    assert_eq!(reply.answers[1].rtype, QType::MX);
}

#[test]
fn truncated_request_is_malformed() {
    let bytes = datagram(Opcode::Query, vec![question(&["abc"], QType::A)]);
    assert_eq!(handle_request(&DummyResolver, &bytes[..bytes.len() - 2]).err(), Some(DnsError::MalformedInput));
    assert_eq!(handle_request(&DummyResolver, &bytes[..4]).err(), Some(DnsError::MalformedInput));
}

struct FailingResolver;

impl Resolver for FailingResolver {
    fn resolve(&self, _question: &Question, _msg: &[u8]) -> Result<Vec<Answer>, DnsError> {
        Err(DnsError::UpstreamFailure(UpstreamStep::Receive))
    }
}

struct SilentResolver;

impl Resolver for SilentResolver {
    fn resolve(&self, _question: &Question, _msg: &[u8]) -> Result<Vec<Answer>, DnsError> {
        Ok(Vec::new())
    }
}

#[test]
fn resolver_failure_is_not_an_empty_answer() {
    let bytes = datagram(Opcode::Query, vec![question(&["abc"], QType::A)]);
    assert_eq!(
        handle_request(&FailingResolver, &bytes).err(),
        Some(DnsError::UpstreamFailure(UpstreamStep::Receive))
    );
    let reply = handle_request(&SilentResolver, &bytes).unwrap();
    assert_eq!(reply.header.rcode, RCode::NoError);
    assert_eq!(reply.header.answer_count, 0);
    let bytes = datagram(Opcode::Status, vec![question(&["abc"], QType::A)]);
    assert_eq!(handle_request(&FailingResolver, &bytes).unwrap().header.rcode, RCode::NotImplemented);
}

#[test]
fn dummy_resolver_through_the_trait() {
    let q = question(&["x", "y"], QType::TXT);
    let answers = DummyResolver.resolve(&q, &[]).unwrap();
    assert_eq!(answers, vec![DummyResolver::answer_for(&q)]);
    assert_eq!(answers[0].rtype, QType::TXT);
}

/// A datagram whose second question names `www` and then points at the first
/// question's name at offset 12.
fn datagram_with_pointer() -> Vec<u8> {
    let mut bytes = query_header(Opcode::Query, 2).bytes().to_vec();
    question(&["codecrafters", "io"], QType::A).write(&mut bytes);
    bytes.extend_from_slice(&[3, b'w', b'w', b'w', 0xc0, 12, 0, 1, 0, 1]);
    bytes
}

#[test]
fn forwarded_query_expands_pointers() {
    let inbound = datagram_with_pointer();
    let request = Message::from_bytes(&inbound).unwrap();
    assert_eq!(request.questions[1].qname.pointer, Some(12));
    let out = forward_query(&request.questions[1], &inbound).unwrap();
    let mut expected = vec![0, 0, 0, 0, 0, 1, 0, 0, 0, 0, 0, 0];
    expected.extend_from_slice(&[3, b'w', b'w', b'w', 12]);
    expected.extend_from_slice(b"codecrafters");
    expected.extend_from_slice(&[2, b'i', b'o', 0, 0, 1, 0, 1]);
    assert_eq!(out, expected);
    assert!(!out.contains(&0xc0));
    let sent = Message::from_bytes(&out).unwrap();
    assert_eq!(sent.questions[0].qname, name(&["www", "codecrafters", "io"]));
    assert_eq!(sent.questions[0].qname.pointer, None);
}

#[test]
fn forwarded_query_with_bad_pointer_fails() {
    let q = Question { qname: Name { parts: vec![], pointer: Some(200) }, qtype: QType::A, qclass: QClass::IN };
    assert_eq!(forward_query(&q, &datagram_with_pointer()), Err(DnsError::MalformedInput));
    let long = question(&[&"a".repeat(64)], QType::A);
    assert_eq!(forward_query(&long, &[]), Err(DnsError::MalformedInput));
}

#[test]
fn with_resolved_name_keeps_type_and_class() {
    let inbound = datagram_with_pointer();
    let request = Message::from_bytes(&inbound).unwrap();
    let q = request.questions[1].with_resolved_name(&inbound).unwrap();
    assert_eq!(q, Question { qname: name(&["www", "codecrafters", "io"]), qtype: QType::A, qclass: QClass::IN });
}

#[test]
fn upstream_reply_answers_are_returned_verbatim() {
    let bytes = datagram(Opcode::Query, vec![question(&["a", "b"], QType::A), question(&["c"], QType::NS)]);
    let reply = handle_request(&DummyResolver, &bytes).unwrap().as_bytes();
    let answers = answers_from_reply(&reply).unwrap();
    assert_eq!(answers.len(), 2);
    assert_eq!(answers[0].name, name(&["a", "b"]));
    assert_eq!(answers[1].rtype, QType::NS);
    assert_eq!(answers_from_reply(&reply[..reply.len() - 1]), Err(DnsError::MalformedInput));
}

#[test]
fn query_without_questions_gets_an_empty_reply() {
    let bytes = datagram(Opcode::Query, vec![]);
    let reply = handle_request(&FailingResolver, &bytes).unwrap();
    assert!(reply.header.is_reply);
    assert_eq!(reply.header.rcode, RCode::NoError);
    assert_eq!(reply.header.question_count, 0);
    assert_eq!(reply.header.answer_count, 0);
}

#[test]
fn reply_concatenates_answers_in_question_order() {
    let bytes = datagram(Opcode::Query, vec![question(&["a"], QType::A), question(&["b"], QType::NS)]);
    let request = Message::from_bytes(&bytes).unwrap();
    let first = DummyResolver::answer_for(&request.questions[0]);
    let second = DummyResolver::answer_for(&request.questions[1]);
    let reply = reply_with_answers(&request, vec![vec![first.clone()], vec![], vec![second.clone(), first.clone()]]);
    assert_eq!(reply.header.rcode, RCode::NoError);
    assert_eq!(reply.header.answer_count, 3);
    assert_eq!(reply.answers, vec![first.clone(), second, first]);
    assert_eq!(reply.header.id, 1234);
    assert_eq!(reply.questions, request.questions);
}

#[test]
fn too_many_answers_give_server_failure() {
    let bytes = datagram(Opcode::Query, vec![question(&["a"], QType::A)]);
    let request = Message::from_bytes(&bytes).unwrap();
    let one = DummyResolver::answer_for(&request.questions[0]);
    let reply = reply_with_answers(&request, vec![vec![one.clone(); 0xffff], vec![one.clone()]]);
    assert_eq!(reply.header.rcode, RCode::ServerFailure);
    assert_eq!(reply.header.answer_count, 0);
    assert!(reply.answers.is_empty());
    let reply = reply_with_answers(&request, vec![vec![one; 0xffff]]);
    assert_eq!(reply.header.rcode, RCode::NoError);
    assert_eq!(reply.header.answer_count, 0xffff);
}

#[test]
fn dummy_reply_bytes_end_with_the_answer() {
    let bytes = datagram(Opcode::Query, vec![question(&["codecrafters", "io"], QType::A)]);
    let reply = handle_request(&DummyResolver, &bytes).unwrap().as_bytes();
    assert_eq!(reply[0..2], [0x04, 0xd2]);
    assert_eq!(reply[2], 0x81);
    assert_eq!(reply[6..8], [0, 1]);
    let mut tail = vec![12];
    tail.extend_from_slice(b"codecrafters");
    tail.extend_from_slice(&[2, b'i', b'o', 0, 0, 1, 0, 1, 0, 0, 0, 60, 0, 4, 8, 8, 8, 8]);
    assert!(reply.ends_with(&tail));
}
