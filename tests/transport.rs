use dnsnfset::dnstap::{response_payload, EnvelopeError};
use dnsnfset::framestream::{
    control_frame, parse_control, read_be32, step, Action, Event, FrameError, Stage,
    CONTROL_ACCEPT, CONTROL_READY, CONTROL_START, CONTROL_STOP,
};
use dnsnfset::packet::udp_payload;
use dnsnfset::socks::AutoRemoveFile;

fn envelope(response: &[u8]) -> Vec<u8> {
    let mut inner = vec![0x08, 6, 0x4d, 1, 2, 3, 4];
    inner.push(0x72);
    inner.push(response.len() as u8);
    inner.extend_from_slice(response);
    let mut outer = vec![0x0a, 3, b'u', b'n', b'b', 0x78, 1, 0x72, inner.len() as u8];
    outer.extend(inner);
    outer
}

#[test]
fn envelope_response_is_found() {
    let frame = envelope(&[9, 8, 7]);
    assert_eq!(response_payload(&frame), Ok(vec![9u8, 8, 7]));
}

#[test]
fn envelope_built_by_protobuf() {
    let mut inner = Vec::new();
    {
        let mut os = protobuf::CodedOutputStream::vec(&mut inner);
        os.write_enum(1, 6).unwrap();
        os.write_uint64(12, 1_700_000_000).unwrap();
        os.write_bytes(14, &[0xab; 300]).unwrap();
        os.flush().unwrap();
    }
    let mut frame = Vec::new();
    {
        let mut os = protobuf::CodedOutputStream::vec(&mut frame);
        os.write_bytes(2, b"1.17").unwrap();
        os.write_bytes(14, &inner).unwrap();
        os.write_enum(15, 1).unwrap();
        os.flush().unwrap();
    }
    assert_eq!(response_payload(&frame).unwrap(), vec![0xab; 300]);
}

#[test]
fn envelope_without_response_is_empty() {
    let frame = vec![0x78, 1, 0x72, 2, 0x08, 5];
    assert_eq!(response_payload(&frame), Ok(vec![]));
    assert_eq!(response_payload(&[0x78, 1]), Ok(vec![]));
}

#[test]
fn malformed_envelope() {
    assert_eq!(response_payload(&[0x72, 5, 1]), Err(EnvelopeError::Malformed));
    assert_eq!(response_payload(&[0x0b]), Err(EnvelopeError::Malformed));
    assert_eq!(response_payload(&[0x78]), Err(EnvelopeError::Malformed));
    assert_eq!(response_payload(&[0x00, 1]), Err(EnvelopeError::Malformed));
    assert_eq!(response_payload(&[0x78, 1, 0x72, 0x80, 0x80]), Err(EnvelopeError::Malformed));
}

#[test]
fn required_type_fields() {
    assert_eq!(response_payload(&[]), Err(EnvelopeError::Malformed));
    assert_eq!(response_payload(&[0x72, 2, 0x72, 0]), Err(EnvelopeError::Malformed));
    assert_eq!(response_payload(&[0x78, 1, 0x72, 2, 0x72, 0]), Err(EnvelopeError::Malformed));
}

#[test]
fn known_fields_need_their_wire_type() {
    assert_eq!(response_payload(&[0x78, 1, 0x70, 2]), Err(EnvelopeError::Malformed));
    assert_eq!(response_payload(&[0x7d, 0, 0, 0, 0]), Err(EnvelopeError::Malformed));
    assert_eq!(response_payload(&[0x78, 1, 0x72, 4, 0x08, 1, 0x70, 2]), Err(EnvelopeError::Malformed));
}

#[test]
fn unknown_fields_and_groups_are_skipped() {
    let frame = [0xa3, 0x01, 0x08, 1, 0xa4, 0x01, 0x78, 1, 0xa8, 0x01, 7, 0x72, 5, 0x08, 1, 0x72, 1, 42];
    assert_eq!(response_payload(&frame), Ok(vec![42]));
}

#[test]
fn repeated_messages_merge() {
    assert_eq!(
        response_payload(&[0x78, 1, 0x72, 3, 0x72, 1, 7, 0x72, 2, 0x08, 1]),
        Ok(vec![7])
    );
    assert_eq!(
        response_payload(&[0x78, 1, 0x72, 5, 0x08, 1, 0x72, 1, 7, 0x72, 4, 0x72, 2, 8, 9]),
        Ok(vec![8, 9])
    );
}

const DNSTAP_TYPE: &[u8] = b"protobuf:dnstap.Dnstap";

fn ready_frame() -> Vec<u8> {
    let mut c = vec![0, 0, 0, 4, 0, 0, 0, 1, 0, 0, 0, DNSTAP_TYPE.len() as u8];
    c.extend_from_slice(DNSTAP_TYPE);
    c
}

#[test]
fn control_frame_is_read() {
    let f = parse_control(&ready_frame()).unwrap();
    assert_eq!(f.kind, CONTROL_READY);
    assert_eq!(f.content_types, vec![DNSTAP_TYPE.to_vec()]);
    let f = parse_control(&[0, 0, 0, 2]).unwrap();
    assert_eq!(f.kind, CONTROL_START);
    assert!(f.content_types.is_empty());
}

#[test]
fn malformed_control_frames() {
    assert_eq!(parse_control(&[0, 0, 4]).err(), Some(FrameError::Malformed));
    assert_eq!(parse_control(&[0, 0, 0, 4, 0, 0, 0, 2, 0, 0, 0, 0]).err(), Some(FrameError::Malformed));
    assert_eq!(parse_control(&[0, 0, 0, 4, 0, 0, 0, 1, 0, 0, 0, 9, 1]).err(), Some(FrameError::Malformed));
}

#[test]
fn accept_frame_bytes() {
    let types = vec![DNSTAP_TYPE.to_vec()];
    let bytes = control_frame(CONTROL_ACCEPT, &types);
    let mut expected = vec![0, 0, 0, 0, 0, 0, 0, 34, 0, 0, 0, 1, 0, 0, 0, 1, 0, 0, 0, 22];
    expected.extend_from_slice(DNSTAP_TYPE);
    assert_eq!(bytes, expected);
    assert_eq!(read_be32(&bytes, 4), 34);
    let back = parse_control(&bytes[8..]).unwrap();
    assert_eq!(back.kind, CONTROL_ACCEPT);
    assert_eq!(back.content_types, types);
}

#[test]
fn handshake_steps() {
    let (s, a) = step(Stage::AwaitReady, Event::Control(CONTROL_READY));
    assert_eq!((s, a), (Stage::AwaitStart, Action::Accept));
    let (s, a) = step(s, Event::Control(CONTROL_START));
    assert_eq!((s, a), (Stage::Data, Action::Continue));
    let (s, a) = step(s, Event::Data);
    assert_eq!((s, a), (Stage::Data, Action::Deliver));
    let (s, a) = step(s, Event::Control(CONTROL_STOP));
    assert_eq!((s, a), (Stage::Finished, Action::Finish));
    assert_eq!(step(Stage::AwaitReady, Event::Data), (Stage::Finished, Action::Close));
    assert_eq!(step(Stage::AwaitStart, Event::Control(CONTROL_STOP)), (Stage::Finished, Action::Close));
}

fn ipv4_udp(ihl_words: u8, proto: u8, payload: &[u8]) -> Vec<u8> {
    let mut p = vec![0u8; ihl_words as usize * 4 + 8];
    p[0] = 0x40 | ihl_words;
    p[9] = proto;
    p.extend_from_slice(payload);
    p
}

#[test]
fn udp_payload_of_ipv4_packet() {
    assert_eq!(udp_payload(&ipv4_udp(5, 17, &[1, 2, 3])), Some(&[1u8, 2, 3][..]));
    assert_eq!(udp_payload(&ipv4_udp(6, 17, &[4])), Some(&[4u8][..]));
    assert_eq!(udp_payload(&ipv4_udp(5, 6, &[1])), None);
    assert_eq!(udp_payload(&ipv4_udp(4, 17, &[1, 2, 3, 4, 5, 6, 7, 8])), None);
    let mut v6 = ipv4_udp(5, 17, &[1]);
    v6[0] = 0x65;
    assert_eq!(udp_payload(&v6), None);
    assert_eq!(udp_payload(&[0x45; 27]), None);
    assert_eq!(udp_payload(&ipv4_udp(15, 17, &[])), Some(&[][..]));
}

#[test]
fn socket_path_removal_flag() {
    let mut f = AutoRemoveFile::new("/run/x.sock");
    assert_eq!(f.path(), "/run/x.sock");
    assert!(!f.auto_remove());
    f.set_auto_remove(true);
    assert!(f.auto_remove());
}
