use dns_starter_rust::{
    Answer, DnsError, Header, Message, Name, Opcode, QClass, QType, Question, RCode,
};

fn name(labels: &[&str]) -> Name {
    Name { parts: labels.iter().map(|l| l.as_bytes().to_vec()).collect(), pointer: None }
}

fn sample_header() -> Header {
    Header {
        id: 0x04d2,
        is_reply: true,
        opcode: Opcode::Status,
        authoritative: true,
        truncation: false,
        recursion_desired: true,
        recursion_available: true,
        rcode: RCode::NotImplemented,
        question_count: 1,
        answer_count: 2,
        authority_count: 3,
        additional_count: 4,
    }
}

#[test]
fn header_packs_fields_big_endian() {
    let bytes = sample_header().bytes();
    assert_eq!(bytes, [0x04, 0xd2, 0x95, 0x84, 0, 1, 0, 2, 0, 3, 0, 4]);
    let mut buf = vec![0xff];
    sample_header().write(&mut buf);
    assert_eq!(buf[1..], bytes[..]);
}

#[test]
fn header_round_trip() {
    let h = sample_header();
    assert_eq!(Header::from_bytes(&h.bytes()), Ok(h));
    let q = Header {
        id: 0xffff,
        is_reply: false,
        opcode: Opcode::Reserved(15),
        authoritative: false,
        truncation: true,
        recursion_desired: false,
        recursion_available: false,
        rcode: RCode::Reserved(9),
        question_count: 0xffff,
        answer_count: 0,
        authority_count: 0x1234,
        additional_count: 0x00ff,
    };
    assert_eq!(Header::from_bytes(&q.bytes()), Ok(q));
}

#[test]
fn header_ignores_z_bits_and_needs_twelve_bytes() {
    let mut bytes = sample_header().bytes();
    bytes[3] |= 0x70;
    assert_eq!(Header::from_bytes(&bytes), Ok(sample_header()));
    assert_eq!(Header::from_bytes(&bytes[..11]), Err(DnsError::MalformedInput));
    assert_eq!(Header::from_bytes(&[]), Err(DnsError::MalformedInput));
}

#[test]
fn unknown_code_round_trip() {
    assert_eq!(QType::from_value(99), QType::Reserved(99));
    assert_eq!(QType::from_value(99).value(), 99);
    assert_eq!(QType::from_value(255), QType::ANY);
    assert_eq!(QType::AXFR.value(), 252);
    assert_eq!(QClass::from_value(1), QClass::IN);
    assert_eq!(QClass::from_value(7), QClass::Reserved(7));
    assert_eq!(Opcode::from_value(1), Opcode::IQuery);
    assert_eq!(Opcode::from_value(3).value(), 3);
    assert_eq!(RCode::from_value(4), RCode::NotImplemented);
    assert_eq!(RCode::Refused.value(), 5);
    for n in 0..=u16::MAX {
        assert_eq!(QType::from_value(n).value(), n);
        assert_eq!(QClass::from_value(n).value(), n);
    }
}

#[test]
fn name_encodes_labels_then_root() {
    let mut buf = Vec::new();
    name(&["codecrafters", "io"]).write(&mut buf);
    let mut expected = vec![12];
    expected.extend_from_slice(b"codecrafters");
    expected.push(2);
    expected.extend_from_slice(b"io");
    expected.push(0);
    assert_eq!(buf, expected);
}

#[test]
fn name_round_trip() {
    let n = name(&["www", "example", "com"]);
    let mut buf = Vec::new();
    n.write(&mut buf);
    let mut pos = 0;
    assert_eq!(Name::read(&buf, &mut pos), Ok(n));
    assert_eq!(pos, buf.len());
    let root = name(&[]);
    let mut buf = Vec::new();
    root.write(&mut buf);
    assert_eq!(buf, vec![0]);
    let mut pos = 0;
    assert_eq!(Name::read(&buf, &mut pos), Ok(root));
}

#[test]
fn name_validity_limits_labels() {
    assert!(name(&["a", &"b".repeat(63)]).is_valid());
    assert!(!name(&[&"b".repeat(64)]).is_valid());
    assert!(!name(&["a", ""]).is_valid());
    assert!(!Name { parts: vec![], pointer: Some(0x4000) }.is_valid());
    assert!(Name { parts: vec![], pointer: Some(0x3fff) }.is_valid());
}

/// A message prefix with `codecrafters.io` at offset 12 and, after it, a
/// name `abc` followed by a pointer to offset 12.
fn buffer_with_pointer() -> (Vec<u8>, usize) {
    let mut buf = vec![0; 12];
    name(&["codecrafters", "io"]).write(&mut buf);
    let later = buf.len();
    buf.extend_from_slice(&[3, b'a', b'b', b'c', 0xc0, 12]);
    (buf, later)
}

#[test]
fn name_keeps_pointer_and_moves_past_it() {
    let (buf, later) = buffer_with_pointer();
    let mut pos = later;
    let n = Name::read(&buf, &mut pos).unwrap();
    assert_eq!(n, Name { parts: vec![b"abc".to_vec()], pointer: Some(12) });
    assert_eq!(pos, buf.len());
    let mut out = Vec::new();
    n.write(&mut out);
    assert_eq!(out, buf[later..].to_vec());
}

#[test]
fn pointer_expands_to_the_earlier_name() {
    let (mut buf, _) = buffer_with_pointer();
    let at = buf.len();
    buf.extend_from_slice(&[0xc0, 12]);
    let mut pos = at;
    let bare = Name::read(&buf, &mut pos).unwrap();
    assert_eq!(pos, at + 2);
    let mut pos = 12;
    let direct = Name::read(&buf, &mut pos).unwrap();
    assert_eq!(bare.resolve(&buf), Ok(direct.clone()));
    assert_eq!(direct.resolve(&buf), Ok(name(&["codecrafters", "io"])));
}

#[test]
fn pointer_chain_expands_fully() {
    let (mut buf, later) = buffer_with_pointer();
    let at = buf.len();
    buf.extend_from_slice(&[1, b'x', 0xc0, later as u8]);
    let mut pos = at;
    let n = Name::read(&buf, &mut pos).unwrap();
    assert_eq!(n.resolve(&buf), Ok(name(&["x", "abc", "codecrafters", "io"])));
}

#[test]
fn forward_and_self_pointers_are_malformed() {
    let buf = vec![0, 0, 0xc0, 2];
    let mut pos = 2;
    assert_eq!(Name::read(&buf, &mut pos), Err(DnsError::MalformedInput));
    let buf = vec![0xc0, 4, 0, 0, 0];
    let mut pos = 0;
    assert_eq!(Name::read(&buf, &mut pos), Err(DnsError::MalformedInput));
    let fake = Name { parts: vec![], pointer: Some(2) };
    let buf = vec![0, 0, 1, b'a', 0xc0, 2];
    assert_eq!(fake.resolve(&buf), Err(DnsError::MalformedInput));
}

#[test]
fn truncated_names_are_malformed() {
    let mut pos = 0;
    assert_eq!(Name::read(&[3, b'a', b'b'], &mut pos), Err(DnsError::MalformedInput));
    let mut pos = 0;
    assert_eq!(Name::read(&[1, b'a'], &mut pos), Err(DnsError::MalformedInput));
    let mut pos = 1;
    assert_eq!(Name::read(&[0, 0xc0], &mut pos), Err(DnsError::MalformedInput));
    let mut pos = 5;
    assert_eq!(Name::read(&[0], &mut pos), Err(DnsError::MalformedInput));
}

fn sample_question() -> Question {
    Question { qname: name(&["codecrafters", "io"]), qtype: QType::A, qclass: QClass::IN }
}

fn sample_answer() -> Answer {
    Answer {
        name: name(&["codecrafters", "io"]),
        rtype: QType::A,
        rclass: QClass::IN,
        ttl: 60,
        rdlength: 4,
        rdata: vec![8, 8, 8, 8],
    }
}

#[test]
fn question_round_trip() {
    let q = sample_question();
    let mut buf = Vec::new();
    q.write(&mut buf);
    assert_eq!(buf[buf.len() - 4..], [0, 1, 0, 1]);
    let mut pos = 0;
    assert_eq!(Question::read(&buf, &mut pos), Ok(q));
    assert_eq!(pos, buf.len());
    let mut pos = 0;
    assert_eq!(Question::read(&buf[..buf.len() - 1], &mut pos), Err(DnsError::MalformedInput));
}

#[test]
fn answer_layout_and_round_trip() {
    let a = Answer { ttl: -2, ..sample_answer() };
    let mut buf = Vec::new();
    a.write(&mut buf);
    let n = 1 + 12 + 1 + 2 + 1;
    assert_eq!(buf.len(), n + 10 + 4);
    assert_eq!(buf[n..], [0, 1, 0, 1, 0xff, 0xff, 0xff, 0xfe, 0, 4, 8, 8, 8, 8]);
    let mut pos = 0;
    assert_eq!(Answer::read(&buf, &mut pos), Ok(a));
    assert_eq!(pos, buf.len());
}

#[test]
fn answer_read_advances_exactly_past_its_data() {
    let a = sample_answer();
    let b = Answer { name: name(&["x"]), ttl: 0x01020304, rdlength: 2, rdata: vec![7, 9], ..sample_answer() };
    let mut buf = Vec::new();
    a.write(&mut buf);
    b.write(&mut buf);
    let mut pos = 0;
    assert_eq!(Answer::read(&buf, &mut pos), Ok(a));
    assert_eq!(Answer::read(&buf, &mut pos), Ok(b));
    assert_eq!(pos, buf.len());
}

#[test]
fn truncated_answer_is_malformed() {
    let mut buf = Vec::new();
    sample_answer().write(&mut buf);
    let mut pos = 0;
    assert_eq!(Answer::read(&buf[..buf.len() - 1], &mut pos), Err(DnsError::MalformedInput));
    let mut pos = 0;
    assert_eq!(Answer::read(&buf[..20], &mut pos), Err(DnsError::MalformedInput));
}

#[test]
fn message_round_trip_and_counts() {
    let header = Header {
        id: 7,
        is_reply: true,
        opcode: Opcode::Query,
        authoritative: false,
        truncation: false,
        recursion_desired: true,
        recursion_available: false,
        rcode: RCode::NoError,
        question_count: 9,
        answer_count: 9,
        authority_count: 9,
        additional_count: 9,
    };
    let m = Message { header, questions: vec![sample_question()], answers: vec![sample_answer()] };
    assert!(m.is_valid());
    let bytes = m.as_bytes();
    assert_eq!(bytes[4..12], [0, 1, 0, 1, 0, 0, 0, 0]);
    let back = Message::from_bytes(&bytes).unwrap();
    assert_eq!(back.header.question_count, 1);
    assert_eq!(back.header.answer_count, 1);
    assert_eq!(back.header.id, 7);
    assert_eq!(back.questions, m.questions);
    assert_eq!(back.answers, m.answers);
}

#[test]
fn message_shorter_than_its_counts_is_malformed() {
    let header = Header {
        id: 7,
        is_reply: false,
        opcode: Opcode::Query,
        authoritative: false,
        truncation: false,
        recursion_desired: true,
        recursion_available: false,
        rcode: RCode::NoError,
        question_count: 2,
        answer_count: 0,
        authority_count: 0,
        additional_count: 0,
    };
    let mut bytes = header.bytes().to_vec();
    sample_question().write(&mut bytes);
    assert_eq!(Message::from_bytes(&bytes).err(), Some(DnsError::MalformedInput));
    assert_eq!(Message::from_bytes(&bytes[..5]).err(), Some(DnsError::MalformedInput));
}

#[test]
fn invalid_message_is_reported() {
    let mut m = Message {
        header: sample_header(),
        questions: vec![sample_question()],
        answers: vec![sample_answer()],
    };
    assert!(m.is_valid());
    m.answers[0].rdlength = 5;
    assert!(!m.is_valid());
    m.answers.clear();
    m.header.opcode = Opcode::Reserved(16);
    assert!(!m.is_valid());
}

#[test]
fn length_byte_uses_its_low_six_bits() {
    let mut pos = 0;
    assert_eq!(Name::read(&[0x41, b'a', 0], &mut pos), Ok(name(&["a"])));
    assert_eq!(pos, 3);
    let mut pos = 0;
    assert_eq!(Name::read(&[0x82, b'a', b'b', 0], &mut pos), Ok(name(&["ab"])));
    let mut pos = 0;
    let n = Name::read(&[0x40, 0], &mut pos).unwrap();
    assert_eq!(n, Name { parts: vec![vec![]], pointer: None });
    assert!(!n.is_valid());
}
