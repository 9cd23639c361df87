use dnsnfset::dispatch::{handle_packet, process_response};
use dnsnfset::dns::{decode, DecodeError, DnsMessage, Question, RecordData};
use dnsnfset::rule::RuleSet;

const HEADER_ONE_ANSWER: [u8; 12] = [0x12, 0x34, 0x81, 0x80, 0, 1, 0, 1, 0, 0, 0, 0];

fn question_foo_com(qtype: u8) -> Vec<u8> {
    vec![3, b'f', b'o', b'o', 3, b'c', b'o', b'm', 0, 0, qtype, 0, 1]
}

fn response(qtype: u8, answer: &[u8]) -> Vec<u8> {
    let mut m = HEADER_ONE_ANSWER.to_vec();
    m.extend(question_foo_com(qtype));
    m.extend_from_slice(answer);
    m
}

const A_ANSWER: [u8; 16] = [0xc0, 0x0c, 0, 1, 0, 1, 0, 0, 0x0e, 0x10, 0, 4, 93, 184, 216, 34];

const CNAME_ANSWER: [u8; 18] =
    [0xc0, 0x0c, 0, 5, 0, 1, 0, 0, 0x0e, 0x10, 0, 6, 3, b'b', b'a', b'r', 0xc0, 0x10];

#[test]
fn end_to_end_a_record() {
    let rules = RuleSet::from_text(",,inet,myset,ipv4_addr\n").unwrap();
    let msg = response(1, &A_ANSWER);
    let mut submitted = Vec::new();
    if let Some(cmd) = process_response(&msg, &rules).unwrap() {
        submitted.push(cmd);
    }
    assert_eq!(submitted, vec!["add element inet myset { 93.184.216.34 }; ".to_string()]);
}

#[test]
fn end_to_end_cname_only() {
    let rules = RuleSet::from_text(",,inet,myset,ipv4_addr\n").unwrap();
    let msg = response(1, &CNAME_ANSWER);
    assert_eq!(process_response(&msg, &rules), Ok(None));
}

#[test]
fn decoded_message_fields() {
    let m = decode(&response(1, &A_ANSWER)).unwrap();
    assert_eq!(m.questions.len(), 1);
    assert_eq!(m.questions[0].qname, "foo.com");
    assert_eq!(m.questions[0].qtype, 1);
    assert_eq!(m.answers, vec![RecordData::A([93, 184, 216, 34])]);
    let m = decode(&response(5, &CNAME_ANSWER)).unwrap();
    assert_eq!(m.questions[0].qtype, 5);
    assert_eq!(m.answers, vec![RecordData::Other]);
}

#[test]
fn decoded_aaaa_record() {
    let mut answer = vec![0xc0, 0x0c, 0, 28, 0, 1, 0, 0, 0, 60, 0, 16];
    answer.extend_from_slice(&[0x20, 0x01, 0x0d, 0xb8, 0, 0, 0, 0, 0, 0, 0, 0, 0, 0, 0, 1]);
    let m = decode(&response(28, &answer)).unwrap();
    assert_eq!(m.answers, vec![RecordData::Aaaa([0x2001, 0xdb8, 0, 0, 0, 0, 0, 1])]);
    let rules = RuleSet::from_text("com,ip6,filter,v6,ipv6\ncom,ip,filter,v4,ipv4\n").unwrap();
    assert_eq!(
        process_response(&response(28, &answer), &rules),
        Ok(Some("add element ip6 filter v6 { 2001:db8::1 }; ".to_string()))
    );
}

#[test]
fn short_header_is_an_error() {
    assert_eq!(decode(&[0u8; 11]).err(), Some(DecodeError::MalformedHeader));
    assert_eq!(decode(&[]).err(), Some(DecodeError::MalformedHeader));
    let rules = RuleSet::new();
    assert!(process_response(&[1, 2, 3], &rules).is_err());
}

#[test]
fn answer_count_beyond_buffer_is_an_error() {
    let mut msg = response(1, &A_ANSWER);
    msg[7] = 5;
    assert_eq!(decode(&msg).err(), Some(DecodeError::TruncatedRecord));
    let header_only = [0x12, 0x34, 0x81, 0x80, 0, 0, 0, 9, 0, 0, 0, 0];
    assert!(decode(&header_only).is_err());
}

#[test]
fn decode_error_classes() {
    let mut reserved = response(1, &A_ANSWER);
    reserved[3] |= 0x40;
    assert_eq!(decode(&reserved).err(), Some(DecodeError::MalformedHeader));
    let mut bad_label = response(1, &A_ANSWER);
    bad_label[12] = 0x80;
    assert_eq!(decode(&bad_label).err(), Some(DecodeError::MalformedName));
    let mut bad_qtype = response(1, &A_ANSWER);
    bad_qtype[21] = 0x99;
    bad_qtype[22] = 0x99;
    assert_eq!(decode(&bad_qtype).err(), Some(DecodeError::UnsupportedQueryType));
}

#[test]
fn unmatched_name_gives_no_command() {
    let rules = RuleSet::from_text("example.org,,t,s,ipv4\n").unwrap();
    assert_eq!(process_response(&response(1, &A_ANSWER), &rules), Ok(None));
}

#[test]
fn command_from_first_address_question() {
    let rules = RuleSet::from_text("a.net,,t,sa,ipv4\nb.net,inet,t,sb,ipv6,2m\n").unwrap();
    let msg = DnsMessage {
        questions: vec![
            Question { qname: "a.net".to_string(), qtype: 16 },
            Question { qname: "B.NET.".to_string(), qtype: 28 },
            Question { qname: "a.net".to_string(), qtype: 1 },
        ],
        answers: vec![
            RecordData::A([1, 1, 1, 1]),
            RecordData::Other,
            RecordData::Aaaa([0xfe80, 0, 0, 0, 0, 0, 0, 2]),
            RecordData::Aaaa([0, 0, 0, 0, 0, 0, 0, 1]),
        ],
    };
    assert_eq!(
        handle_packet(&msg, &rules),
        "add element inet t sb { fe80::2 timeout 2m }; add element inet t sb { ::1 timeout 2m }; "
    );
    let none = DnsMessage { questions: vec![Question { qname: "a.net".to_string(), qtype: 15 }], answers: vec![] };
    assert_eq!(handle_packet(&none, &rules), "");
}

#[test]
fn every_set_gets_every_fitting_address() {
    let rules = RuleSet::from_text(",,t,all,ipv4\nnet,,t,n,ipv4\n").unwrap();
    let msg = DnsMessage {
        questions: vec![Question { qname: "x.net".to_string(), qtype: 1 }],
        answers: vec![RecordData::A([1, 0, 0, 1]), RecordData::A([2, 0, 0, 2])],
    };
    assert_eq!(
        handle_packet(&msg, &rules),
        "add element t all { 1.0.0.1 }; add element t all { 2.0.0.2 }; \
         add element t n { 1.0.0.1 }; add element t n { 2.0.0.2 }; "
    );
}
