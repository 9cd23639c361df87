//! The dnstap envelope: a protocol buffers `Dnstap` message whose `message`
//! field (number 14) holds a `Message` whose `response_message` field (number
//! 14) holds the DNS response. Fields are read with the `protobuf` crate.
use vstd::prelude::*;

verus! {

/// Field number of `Dnstap.message` and of `Message.response_message`.
pub const FIELD_MESSAGE: u32 = 14;

/// Field number of the required `Dnstap.type`.
pub const FIELD_DNSTAP_TYPE: u32 = 15;

/// Field number of the required `Message.type`.
pub const FIELD_MESSAGE_TYPE: u32 = 1;

/// Wire type of varint fields.
pub const WIRE_VARINT: u32 = 0;

/// Wire type of length-delimited fields.
pub const WIRE_LEN: u32 = 2;

/// Wire type of 4-byte fields.
pub const WIRE_FIXED32: u32 = 5;

/// Why an envelope could not be read.
#[derive(Clone, Copy, Debug, PartialEq, Eq, Structural)]
pub enum EnvelopeError {
    /// The bytes are not a protocol buffers message, a known field has the
    /// wrong wire type, or a required field is missing.
    Malformed,
}

/// One field: its number, its wire type, and its bytes when it is
/// length-delimited (empty otherwise).
pub type FieldView = (u32, u32, Seq<u8>);

/// What protobuf's `CodedInputStream` reads as the first field of `b`: the
/// field, and how many bytes it takes.
pub uninterp spec fn pb_first_field(b: Seq<u8>) -> Option<(u32, u32, Seq<u8>, nat)>;

/// Relies on protobuf's `CodedInputStream`: `read_tag_unpack`, then
/// `read_bytes` for a length-delimited field, else
/// `rt::read_unknown_or_skip_group`; `pos` gives the bytes taken. A tag takes
/// at least one byte, and nothing is read past the end of `b`.
#[verifier::external_body]
fn first_field(b: &[u8]) -> (r: Option<(u32, u32, Vec<u8>, usize)>)
    ensures
        r is None ==> pb_first_field(b@) is None,
        r is Some ==> pb_first_field(b@) == Some((r->Some_0.0, r->Some_0.1, r->Some_0.2@, r->Some_0.3 as nat)),
        r is Some ==> 0 < r->Some_0.3 <= b@.len(),
{
    let mut is = protobuf::CodedInputStream::from_bytes(b);
    let (num, wire) = is.read_tag_unpack().ok()?;
    let data = if wire == protobuf::wire_format::WireTypeLengthDelimited {
        is.read_bytes().ok()?
    } else {
        protobuf::rt::read_unknown_or_skip_group(num, wire, &mut is, &mut protobuf::UnknownFields::new()).ok()?;
        Vec::new()
    };
    Some((num, wire as u32, data, is.pos() as usize))
}

/// The fields of a message, in order; `None` when one cannot be read.
pub open spec fn pb_fields(b: Seq<u8>) -> Option<Seq<FieldView>>
    decreases b.len(),
{
    if b.len() == 0 {
        Some(Seq::empty())
    } else {
        match pb_first_field(b) {
            None => None,
            Some((n, w, d, k)) => if k == 0 || k > b.len() {
                None
            } else {
                match pb_fields(b.subrange(k as int, b.len() as int)) {
                    None => None,
                    Some(rest) => Some(seq![(n, w, d)] + rest),
                }
            },
        }
    }
}

/// The fields of each of the messages `ps`, one after the other (how
/// protocol buffers merges repeated message fields).
pub open spec fn pb_fields_all(ps: Seq<Seq<u8>>) -> Option<Seq<FieldView>>
    decreases ps.len(),
{
    if ps.len() == 0 {
        Some(Seq::empty())
    } else {
        match (pb_fields_all(ps.drop_last()), pb_fields(ps.last())) {
            (Some(a), Some(b)) => Some(a + b),
            _ => None,
        }
    }
}

/// The wire type of a known field of `Dnstap`.
pub open spec fn dnstap_wire(n: u32) -> Option<u32> {
    if n == 1 || n == 2 || n == 3 || n == 14 {
        Some(WIRE_LEN)
    } else if n == 15 {
        Some(WIRE_VARINT)
    } else {
        None
    }
}

/// The wire type of a known field of `Message`.
pub open spec fn message_wire(n: u32) -> Option<u32> {
    if n == 1 || n == 2 || n == 3 || n == 6 || n == 7 || n == 8 || n == 12 || n == 16 {
        Some(WIRE_VARINT)
    } else if n == 4 || n == 5 || n == 10 || n == 11 || n == 14 || n == 15 {
        Some(WIRE_LEN)
    } else if n == 9 || n == 13 {
        Some(WIRE_FIXED32)
    } else {
        None
    }
}

/// The wire type that field `n` must have, if it is a known field (of
/// `Message` when `inner`, else of `Dnstap`).
pub open spec fn known_wire(inner: bool, n: u32) -> Option<u32> {
    if inner {
        message_wire(n)
    } else {
        dnstap_wire(n)
    }
}

/// Whether every known field has its wire type.
pub open spec fn wires_ok(fs: Seq<FieldView>, inner: bool) -> bool {
    forall|i: int|
        0 <= i < fs.len() ==> match known_wire(inner, (#[trigger] fs[i]).0) {
            Some(w) => fs[i].1 == w,
            None => true,
        }
}

/// Whether a field numbered `n` is present.
pub open spec fn has_field(fs: Seq<FieldView>, n: u32) -> bool {
    exists|i: int| 0 <= i < fs.len() && (#[trigger] fs[i]).0 == n
}

/// The bytes of the fields numbered `n`, in order.
pub open spec fn payloads(fs: Seq<FieldView>, n: u32) -> Seq<Seq<u8>>
    decreases fs.len(),
{
    if fs.len() == 0 {
        Seq::empty()
    } else {
        payloads(fs.drop_last(), n) + if fs.last().0 == n {
            seq![fs.last().2]
        } else {
            Seq::empty()
        }
    }
}

/// The DNS response that a dnstap envelope carries: the last
/// `response_message` of the merged `message` fields, empty when there is
/// none. The envelope must hold `type`, and its `message`, if any, must hold
/// `type` too.
pub open spec fn dnstap_response(frame: Seq<u8>) -> Result<Seq<u8>, EnvelopeError> {
    match pb_fields(frame) {
        None => Err(EnvelopeError::Malformed),
        Some(fs) => if !wires_ok(fs, false) || !has_field(fs, FIELD_DNSTAP_TYPE) {
            Err(EnvelopeError::Malformed)
        } else if payloads(fs, FIELD_MESSAGE).len() == 0 {
            Ok(Seq::empty())
        } else {
            match pb_fields_all(payloads(fs, FIELD_MESSAGE)) {
                None => Err(EnvelopeError::Malformed),
                Some(ms) => if !wires_ok(ms, true) || !has_field(ms, FIELD_MESSAGE_TYPE) {
                    Err(EnvelopeError::Malformed)
                } else if payloads(ms, FIELD_MESSAGE).len() == 0 {
                    Ok(Seq::empty())
                } else {
                    Ok(payloads(ms, FIELD_MESSAGE).last())
                },
            }
        },
    }
}

/// Fields as plain values.
pub open spec fn fields_view(v: Seq<(u32, u32, Vec<u8>)>) -> Seq<FieldView> {
    v.map_values(|f: (u32, u32, Vec<u8>)| (f.0, f.1, f.2@))
}

/// Appends the fields of the message `b`; `false` when one cannot be read.
fn push_fields(b: &[u8], out: &mut Vec<(u32, u32, Vec<u8>)>) -> (ok: bool)
    ensures
        match pb_fields(b@) {
            None => !ok,
            Some(fs) => ok && fields_view(final(out)@) == fields_view(old(out)@) + fs,
        },
{
    let n = b.len();
    let mut pos: usize = 0;
    let ghost start = fields_view(out@);
    assert(b@.subrange(0, n as int) =~= b@);
    while pos < n
        invariant
            pos <= n == b@.len(),
            pb_fields(b@) == match pb_fields(b@.subrange(pos as int, n as int)) {
                None => None,
                Some(rest) => Some(fields_view(out@).subrange(start.len() as int, fields_view(out@).len() as int) + rest),
            },
            fields_view(out@).len() >= start.len(),
            fields_view(out@).subrange(0, start.len() as int) == start,
        decreases n - pos,
    {
        let ghost rest = b@.subrange(pos as int, n as int);
        let ghost before = fields_view(out@);
        match first_field(&b[pos..n]) {
            None => {
                return false;
            },
            Some((num, wire, data, k)) => {
                assert(rest.subrange(k as int, rest.len() as int) =~= b@.subrange(pos + k, n as int));
                out.push((num, wire, data));
                assert(fields_view(out@) =~= before.push((num, wire, data@)));
                assert(fields_view(out@).subrange(0, start.len() as int) =~= before.subrange(0, start.len() as int));
                assert(fields_view(out@).subrange(start.len() as int, fields_view(out@).len() as int) =~= before.subrange(start.len() as int, before.len() as int).push((num, wire, data@)));
                proof {
                    match pb_fields(b@.subrange(pos + k, n as int)) {
                        None => {},
                        Some(r2) => {
                            assert(before.subrange(start.len() as int, before.len() as int) + (seq![(num, wire, data@)] + r2)
                                =~= before.subrange(start.len() as int, before.len() as int).push((num, wire, data@)) + r2);
                        },
                    }
                }
                pos = pos + k;
            },
        }
    }
    assert(b@.subrange(n as int, n as int) =~= Seq::<u8>::empty());
    assert(fields_view(out@) =~= start + fields_view(out@).subrange(start.len() as int, fields_view(out@).len() as int));
    true
}

/// Whether every known field has its wire type.
fn check_wires(fs: &Vec<(u32, u32, Vec<u8>)>, inner: bool) -> (r: bool)
    ensures
        r == wires_ok(fields_view(fs@), inner),
{
    let mut i: usize = 0;
    while i < fs.len()
        invariant
            i <= fs@.len(),
            wires_ok(fields_view(fs@.subrange(0, i as int)), inner),
        decreases fs@.len() - i,
    {
        let n = fs[i].0;
        let w = fs[i].1;
        let expected: Option<u32> = if inner {
            if n == 1 || n == 2 || n == 3 || n == 6 || n == 7 || n == 8 || n == 12 || n == 16 {
                Some(WIRE_VARINT)
            } else if n == 4 || n == 5 || n == 10 || n == 11 || n == 14 || n == 15 {
                Some(WIRE_LEN)
            } else if n == 9 || n == 13 {
                Some(WIRE_FIXED32)
            } else {
                None
            }
        } else if n == 1 || n == 2 || n == 3 || n == 14 {
            Some(WIRE_LEN)
        } else if n == 15 {
            Some(WIRE_VARINT)
        } else {
            None
        };
        assert(expected == known_wire(inner, fields_view(fs@)[i as int].0));
        match expected {
            Some(e) => if e != w {
                return false;
            },
            None => {},
        }
        assert(fields_view(fs@.subrange(0, i + 1)) =~= fields_view(fs@.subrange(0, i as int)).push(fields_view(fs@)[i as int]));
        i += 1;
    }
    assert(fs@.subrange(0, i as int) =~= fs@);
    true
}

/// Whether a field numbered `n` is present.
fn check_has(fs: &Vec<(u32, u32, Vec<u8>)>, n: u32) -> (r: bool)
    ensures
        r == has_field(fields_view(fs@), n),
{
    let mut i: usize = 0;
    while i < fs.len()
        invariant
            i <= fs@.len(),
            forall|j: int| 0 <= j < i ==> fields_view(fs@)[j].0 != n,
        decreases fs@.len() - i,
    {
        if fs[i].0 == n {
            assert(fields_view(fs@)[i as int].0 == n);
            return true;
        }
        i += 1;
    }
    false
}

/// The fields of every field numbered `n` of `fs`, read as messages one
/// after the other; `None` when one cannot be read.
fn merged_fields(fs: &Vec<(u32, u32, Vec<u8>)>, n: u32) -> (r: Option<Vec<(u32, u32, Vec<u8>)>>)
    ensures
        match pb_fields_all(payloads(fields_view(fs@), n)) {
            None => r is None,
            Some(ms) => r is Some && fields_view(r->Some_0@) == ms,
        },
{
    let ghost all = fields_view(fs@);
    let mut out: Vec<(u32, u32, Vec<u8>)> = Vec::new();
    let mut i: usize = 0;
    assert(fields_view(fs@.subrange(0, 0)) =~= Seq::<FieldView>::empty());
    assert(fields_view(out@) =~= Seq::<FieldView>::empty());
    while i < fs.len()
        invariant
            i <= fs@.len(),
            all == fields_view(fs@),
            pb_fields_all(payloads(fields_view(fs@.subrange(0, i as int)), n)) == Some(fields_view(out@)),
        decreases fs@.len() - i,
    {
        let ghost pre = fields_view(fs@.subrange(0, i as int));
        let ghost next = fields_view(fs@.subrange(0, i + 1));
        assert(next =~= pre.push(all[i as int]));
        assert(next.drop_last() =~= pre);
        if fs[i].0 == n {
            let ghost before = fields_view(out@);
            let ghost ps = payloads(next, n);
            assert(ps =~= payloads(pre, n).push(all[i as int].2));
            assert(ps.drop_last() =~= payloads(pre, n));
            if !push_fields(fs[i].2.as_slice(), &mut out) {
                proof {
                    lemma_fields_all_none(payloads(fields_view(fs@), n), fields_view(fs@), n, i as int + 1);
                }
                return None;
            }
        } else {
            assert(payloads(next, n) =~= payloads(pre, n));
        }
        i += 1;
    }
    assert(fs@.subrange(0, i as int) =~= fs@);
    Some(out)
}

/// Once the messages of a prefix cannot be read, neither can all of them.
proof fn lemma_fields_all_none(ps: Seq<Seq<u8>>, fs: Seq<FieldView>, n: u32, k: int)
    requires
        0 <= k <= fs.len(),
        ps == payloads(fs, n),
        pb_fields_all(payloads(fs.subrange(0, k), n)) is None,
    ensures
        pb_fields_all(ps) is None,
    decreases fs.len() - k,
{
    if k < fs.len() {
        let pre = fs.subrange(0, k);
        let next = fs.subrange(0, k + 1);
        assert(next.drop_last() =~= pre);
        if next.last().0 == n {
            assert(payloads(next, n).drop_last() =~= payloads(pre, n));
        } else {
            assert(payloads(next, n) =~= payloads(pre, n));
        }
        lemma_fields_all_none(ps, fs, n, k + 1);
    } else {
        assert(fs.subrange(0, k) =~= fs);
    }
}

/// The bytes of the last field numbered `n`, if there is one.
fn last_payload(fs: Vec<(u32, u32, Vec<u8>)>, n: u32) -> (r: Option<Vec<u8>>)
    ensures
        payloads(fields_view(fs@), n).len() == 0 ==> r is None,
        payloads(fields_view(fs@), n).len() > 0 ==> r is Some && r->Some_0@ == payloads(fields_view(fs@), n).last(),
{
    let ghost all = fields_view(fs@);
    let mut found: Option<usize> = None;
    let mut i: usize = 0;
    assert(fields_view(fs@.subrange(0, 0)) =~= Seq::<FieldView>::empty());
    while i < fs.len()
        invariant
            i <= fs@.len(),
            all == fields_view(fs@),
            match found {
                None => payloads(fields_view(fs@.subrange(0, i as int)), n).len() == 0,
                Some(j) => j < i && payloads(fields_view(fs@.subrange(0, i as int)), n).len() > 0
                    && payloads(fields_view(fs@.subrange(0, i as int)), n).last() == all[j as int].2,
            },
        decreases fs@.len() - i,
    {
        let ghost pre = fields_view(fs@.subrange(0, i as int));
        let ghost next = fields_view(fs@.subrange(0, i + 1));
        assert(next =~= pre.push(all[i as int]));
        assert(next.drop_last() =~= pre);
        if fs[i].0 == n {
            found = Some(i);
        } else {
            assert(payloads(next, n) =~= payloads(pre, n));
        }
        i += 1;
    }
    assert(fs@.subrange(0, i as int) =~= fs@);
    match found {
        None => None,
        Some(j) => {
            let mut fs = fs;
            let f = fs.remove(j);
            Some(f.2)
        },
    }
}

/// The DNS response in a dnstap envelope (see `dnstap_response`).
pub fn response_payload(frame: &[u8]) -> (r: Result<Vec<u8>, EnvelopeError>)
    ensures
        match dnstap_response(frame@) {
            Ok(p) => r is Ok && r->Ok_0@ == p,
            Err(e) => r is Err && r->Err_0 == e,
        },
{
    let mut fs: Vec<(u32, u32, Vec<u8>)> = Vec::new();
    if !push_fields(frame, &mut fs) {
        return Err(EnvelopeError::Malformed);
    }
    assert(fields_view(fs@) =~= Seq::<FieldView>::empty() + fields_view(fs@));
    if !check_wires(&fs, false) || !check_has(&fs, FIELD_DNSTAP_TYPE) {
        return Err(EnvelopeError::Malformed);
    }
    let ms = match merged_fields(&fs, FIELD_MESSAGE) {
        None => {
            return Err(EnvelopeError::Malformed);
        },
        Some(ms) => ms,
    };
    match last_payload(fs, FIELD_MESSAGE) {
        None => {
            return Ok(Vec::new());
        },
        Some(_) => {},
    }
    if !check_wires(&ms, true) || !check_has(&ms, FIELD_MESSAGE_TYPE) {
        return Err(EnvelopeError::Malformed);
    }
    match last_payload(ms, FIELD_MESSAGE) {
        None => Ok(Vec::new()),
        Some(p) => Ok(p),
    }
}

} // verus!
