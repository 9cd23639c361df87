//! DNS messages as plain values, read with the `dns-parser` crate.
use vstd::prelude::*;

use dns_parser::Error as E;
use dns_parser::RData;

use DecodeError::{MalformedHeader, MalformedName, TruncatedRecord, UnsupportedQueryType};

verus! {

/// Query type code of an IPv4 address question or record.
pub const TYPE_A: u16 = 1;

/// Query type code of an IPv6 address question or record.
pub const TYPE_AAAA: u16 = 28;

/// One question: the queried name as text and the query type code.
pub struct Question {
    pub qname: String,
    pub qtype: u16,
}

/// A question as plain values.
pub struct QuestionView {
    pub qname: Seq<char>,
    pub qtype: u16,
}

impl View for Question {
    type V = QuestionView;

    open spec fn view(&self) -> QuestionView {
        QuestionView { qname: self.qname@, qtype: self.qtype }
    }
}

/// The data of one answer record: an IPv4 or IPv6 address, or another kind
/// of record.
#[derive(Clone, Copy, Debug, PartialEq, Eq)]
pub enum RecordData {
    A([u8; 4]),
    Aaaa([u16; 8]),
    Other,
}

/// The parts of a DNS message that addresses are taken from.
pub struct DnsMessage {
    pub questions: Vec<Question>,
    pub answers: Vec<RecordData>,
}

/// A DNS message as plain values.
pub struct DnsMessageView {
    pub questions: Seq<QuestionView>,
    pub answers: Seq<RecordData>,
}

impl View for DnsMessage {
    type V = DnsMessageView;

    open spec fn view(&self) -> DnsMessageView {
        DnsMessageView {
            questions: self.questions@.map_values(|q: Question| q@),
            answers: self.answers@,
        }
    }
}

/// Why a DNS message could not be read.
#[derive(Clone, Copy, Debug, PartialEq, Eq, Structural)]
pub enum DecodeError {
    /// The header is too short or has reserved bits set.
    MalformedHeader,
    /// A name has a bad label or compression pointer.
    MalformedName,
    /// A question's query type code is not known.
    UnsupportedQueryType,
    /// The message ends inside a question or record, or one holds an unknown
    /// class or record type code or malformed data.
    TruncatedRecord,
}

/// What `dns_parser::Packet::parse` makes of `bytes`: the message, or the
/// class of its error.
pub uninterp spec fn dns_decoded(bytes: Seq<u8>) -> Result<DnsMessageView, DecodeError>;

/// Big-endian 16-bit number at `i`.
pub open spec fn be16(b: Seq<u8>, i: int) -> nat {
    b[i] as nat * 256 + b[i + 1] as nat
}

/// Question count of a DNS header.
pub open spec fn question_count(b: Seq<u8>) -> nat {
    be16(b, 4)
}

/// Answer count of a DNS header.
pub open spec fn answer_count(b: Seq<u8>) -> nat {
    be16(b, 6)
}

/// Whether the reserved flag bit (0x0040 of the flags word) is set.
pub open spec fn reserved_bit_set(b: Seq<u8>) -> bool {
    (b[3] / 64) % 2 == 1
}

/// Relies on `dns_parser::Packet::parse`: a message needs the 12 header
/// bytes and a clear reserved flag bit; each question takes at least 5
/// bytes and each record at least 11; one question or answer is read for
/// each that the header counts. Names come from `Name`'s `Display`,
/// addresses from the A and AAAA record data, and each `dns_parser::Error`
/// variant maps to its class.
#[verifier::external_body]
fn parse_packet(bytes: &[u8]) -> (r: Result<DnsMessage, DecodeError>)
    ensures
        r is Ok ==> dns_decoded(bytes@) is Ok && dns_decoded(bytes@)->Ok_0 == r->Ok_0@,
        r is Err ==> dns_decoded(bytes@) is Err && dns_decoded(bytes@)->Err_0 == r->Err_0,
        bytes@.len() < 12 ==> r is Err && r->Err_0 == MalformedHeader,
        bytes@.len() >= 12 && reserved_bit_set(bytes@) ==> r is Err && r->Err_0 == MalformedHeader,
        r is Ok ==> 12 + 5 * question_count(bytes@) + 11 * answer_count(bytes@) <= bytes@.len(),
        r is Ok ==> r->Ok_0.questions@.len() == question_count(bytes@),
        r is Ok ==> r->Ok_0.answers@.len() == answer_count(bytes@),
{
    match dns_parser::Packet::parse(bytes) {
        Ok(p) => Ok(DnsMessage {
            questions: p.questions.iter().map(|q| Question { qname: q.qname.to_string(), qtype: q.qtype as u16 }).collect(),
            answers: p.answers.iter().map(|a| match &a.data {
                RData::A(x) => RecordData::A(x.0.octets()),
                RData::AAAA(x) => RecordData::Aaaa(x.0.segments()),
                _ => RecordData::Other,
            }).collect(),
        }),
        Err(E::HeaderTooShort | E::ReservedBitsAreNonZero) => Err(MalformedHeader),
        Err(E::BadPointer | E::UnknownLabelFormat | E::LabelIsNotAscii) => Err(MalformedName),
        Err(E::InvalidQueryType(_)) => Err(UnsupportedQueryType),
        Err(_) => Err(TruncatedRecord),
    }
}

/// Reads a DNS message (see `dns_decoded`). Too short a header, or a set
/// reserved flag bit, is a malformed header; more questions or answers than
/// the bytes can hold is an error.
pub fn decode(bytes: &[u8]) -> (r: Result<DnsMessage, DecodeError>)
    ensures
        r is Ok ==> dns_decoded(bytes@) is Ok && dns_decoded(bytes@)->Ok_0 == r->Ok_0@,
        r is Err ==> dns_decoded(bytes@) is Err && dns_decoded(bytes@)->Err_0 == r->Err_0,
        bytes@.len() < 12 ==> r is Err && r->Err_0 == MalformedHeader,
        bytes@.len() >= 12 && reserved_bit_set(bytes@) ==> r is Err && r->Err_0 == MalformedHeader,
        bytes@.len() >= 12 && 12 + 5 * question_count(bytes@) + 11 * answer_count(bytes@)
            > bytes@.len() ==> r is Err,
{
    parse_packet(bytes)
}

} // verus!
