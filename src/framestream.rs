//! Frame Streams, receiver side: control frames, and the handshake that
//! comes before and after the data frames.
use vstd::prelude::*;

verus! {

/// Control frame type: the receiver accepts the offered content types.
pub const CONTROL_ACCEPT: u32 = 1;

/// Control frame type: the sender starts sending data frames.
pub const CONTROL_START: u32 = 2;

/// Control frame type: the sender stops.
pub const CONTROL_STOP: u32 = 3;

/// Control frame type: the sender is ready and offers content types.
pub const CONTROL_READY: u32 = 4;

/// Control frame type: the receiver has seen the stop.
pub const CONTROL_FINISH: u32 = 5;

/// Control field type of a content type.
pub const FIELD_CONTENT_TYPE: u32 = 1;

/// A control frame: its type and the content types it carries.
pub struct ControlFrame {
    pub kind: u32,
    pub content_types: Vec<Vec<u8>>,
}

/// Why a control frame could not be read.
#[derive(Clone, Copy, Debug, PartialEq, Eq, Structural)]
pub enum FrameError {
    /// The frame is cut short or has a field of another type.
    Malformed,
}

/// Big-endian 32-bit number at `i`.
pub open spec fn be32(b: Seq<u8>, i: int) -> nat {
    ((b[i] as nat * 256 + b[i + 1] as nat) * 256 + b[i + 2] as nat) * 256 + b[i + 3] as nat
}

/// The four big-endian bytes of `v`.
pub open spec fn be32_bytes(v: nat) -> Seq<u8> {
    seq![
        (v / 16777216 % 256) as u8,
        (v / 65536 % 256) as u8,
        (v / 256 % 256) as u8,
        (v % 256) as u8,
    ]
}

/// The content type fields of a control frame from `i` to the end, after
/// those already read (`acc`); `None` when one is cut short or of another
/// type.
pub open spec fn fields_from(c: Seq<u8>, i: int, acc: Seq<Seq<u8>>) -> Option<Seq<Seq<u8>>>
    decreases c.len() - i,
{
    if i < 0 || i >= c.len() {
        Some(acc)
    } else if i + 8 > c.len() || be32(c, i) != FIELD_CONTENT_TYPE || i + 8 + be32(c, i + 4)
        > c.len() {
        None
    } else {
        let end = i + 8 + be32(c, i + 4);
        fields_from(c, end, acc.push(c.subrange(i + 8, end)))
    }
}

/// What a control frame's bytes hold: its type and its content types.
pub open spec fn control_of(c: Seq<u8>) -> Option<(nat, Seq<Seq<u8>>)> {
    if c.len() < 4 {
        None
    } else {
        match fields_from(c, 4, Seq::empty()) {
            None => None,
            Some(t) => Some((be32(c, 0), t)),
        }
    }
}

/// The bytes of a control frame's fields.
pub open spec fn fields_bytes(types: Seq<Seq<u8>>) -> Seq<u8>
    decreases types.len(),
{
    if types.len() == 0 {
        Seq::empty()
    } else {
        fields_bytes(types.drop_last()) + be32_bytes(FIELD_CONTENT_TYPE as nat) + be32_bytes(
            types.last().len(),
        ) + types.last()
    }
}

/// A control frame on the wire: the escape (a zero length), the control
/// frame's length, its type and its fields.
pub open spec fn control_wire(kind: nat, types: Seq<Seq<u8>>) -> Seq<u8> {
    let c = be32_bytes(kind) + fields_bytes(types);
    be32_bytes(0) + be32_bytes(c.len()) + c
}

/// Reads a big-endian 32-bit number at `i`.
pub fn read_be32(b: &[u8], i: usize) -> (r: u32)
    requires
        i + 4 <= b@.len(),
    ensures
        r as nat == be32(b@, i as int),
{
    ((b[i] as u32 * 256 + b[i + 1] as u32) * 256 + b[i + 2] as u32) * 256 + b[i + 3] as u32
}

/// Reads a control frame (without its escape and length).
pub fn parse_control(c: &[u8]) -> (r: Result<ControlFrame, FrameError>)
    ensures
        match control_of(c@) {
            None => r is Err,
            Some((k, t)) => r is Ok && r->Ok_0.kind as nat == k && r->Ok_0.content_types@.map_values(
                |v: Vec<u8>| v@,
            ) == t,
        },
{
    let n = c.len();
    if n < 4 {
        return Err(FrameError::Malformed);
    }
    let kind = read_be32(c, 0);
    let mut types: Vec<Vec<u8>> = Vec::new();
    let mut i: usize = 4;
    assert(types@.map_values(|v: Vec<u8>| v@) =~= Seq::<Seq<u8>>::empty());
    while i < n
        invariant
            4 <= i <= n,
            n == c@.len(),
            fields_from(c@, 4, Seq::empty()) == fields_from(
                c@,
                i as int,
                types@.map_values(|v: Vec<u8>| v@),
            ),
        decreases n - i,
    {
        if n - i < 8 || read_be32(c, i) != FIELD_CONTENT_TYPE {
            return Err(FrameError::Malformed);
        }
        let len = read_be32(c, i + 4);
        if (len as u64) > ((n - i - 8) as u64) {
            return Err(FrameError::Malformed);
        }
        let end = i + 8 + len as usize;
        let ghost before = types@.map_values(|v: Vec<u8>| v@);
        let piece = vstd::slice::slice_to_vec(&c[i + 8..end]);
        types.push(piece);
        assert(types@.map_values(|v: Vec<u8>| v@) =~= before.push(c@.subrange(i + 8, end as int)));
        i = end;
    }
    Ok(ControlFrame { kind, content_types: types })
}

/// Appends the four big-endian bytes of `v`.
fn push_be32(out: &mut Vec<u8>, v: u32)
    ensures
        final(out)@ == old(out)@ + be32_bytes(v as nat),
{
    out.push((v / 16777216 % 256) as u8);
    out.push((v / 65536 % 256) as u8);
    out.push((v / 256 % 256) as u8);
    out.push((v % 256) as u8);
    assert(final(out)@ =~= old(out)@ + be32_bytes(v as nat));
}

/// Appends the bytes of `src`.
fn push_all(out: &mut Vec<u8>, src: &Vec<u8>)
    ensures
        final(out)@ == old(out)@ + src@,
{
    let ghost start = out@;
    let mut i: usize = 0;
    while i < src.len()
        invariant
            i <= src@.len(),
            out@ == start + src@.subrange(0, i as int),
        decreases src@.len() - i,
    {
        out.push(src[i]);
        assert(out@ =~= start + src@.subrange(0, i + 1));
        i += 1;
    }
    assert(src@.subrange(0, i as int) =~= src@);
}

/// The bytes that send a control frame of type `kind` carrying `types`.
pub fn control_frame(kind: u32, types: &Vec<Vec<u8>>) -> (r: Vec<u8>)
    requires
        forall|i: int| 0 <= i < types@.len() ==> (#[trigger] types@[i])@.len() <= u32::MAX,
        4 + fields_bytes(types@.map_values(|v: Vec<u8>| v@)).len() <= u32::MAX,
    ensures
        r@ == control_wire(kind as nat, types@.map_values(|v: Vec<u8>| v@)),
{
    let ghost tv = types@.map_values(|v: Vec<u8>| v@);
    let mut c: Vec<u8> = Vec::new();
    push_be32(&mut c, kind);
    let mut i: usize = 0;
    assert(tv.subrange(0, 0) =~= Seq::<Seq<u8>>::empty());
    while i < types.len()
        invariant
            i <= types@.len(),
            tv == types@.map_values(|v: Vec<u8>| v@),
            forall|j: int| 0 <= j < types@.len() ==> (#[trigger] types@[j])@.len() <= u32::MAX,
            c@ == be32_bytes(kind as nat) + fields_bytes(tv.subrange(0, i as int)),
        decreases types@.len() - i,
    {
        let ghost before = c@;
        push_be32(&mut c, FIELD_CONTENT_TYPE);
        push_be32(&mut c, types[i].len() as u32);
        push_all(&mut c, &types[i]);
        assert(tv.subrange(0, i + 1).drop_last() =~= tv.subrange(0, i as int));
        assert(c@ =~= be32_bytes(kind as nat) + fields_bytes(tv.subrange(0, i + 1)));
        i += 1;
    }
    assert(tv.subrange(0, i as int) =~= tv);
    let mut out: Vec<u8> = Vec::new();
    push_be32(&mut out, 0);
    push_be32(&mut out, c.len() as u32);
    push_all(&mut out, &c);
    out
}

/// Where a receiver stands in a Frame Streams session.
#[derive(Clone, Copy, Debug, PartialEq, Eq, Structural)]
pub enum Stage {
    /// Waiting for the sender's READY.
    AwaitReady,
    /// ACCEPT sent; waiting for START.
    AwaitStart,
    /// Reading data frames until STOP.
    Data,
    /// FINISH sent; the session is over.
    Finished,
}

/// What the receiver read: a control frame of a type, or a data frame.
#[derive(Clone, Copy, Debug, PartialEq, Eq, Structural)]
pub enum Event {
    Control(u32),
    Data,
}

/// What the receiver does next.
#[derive(Clone, Copy, Debug, PartialEq, Eq, Structural)]
pub enum Action {
    /// Send ACCEPT with the content types that READY offered.
    Accept,
    /// Read on.
    Continue,
    /// Hand the data frame on, then read on.
    Deliver,
    /// Send FINISH and close.
    Finish,
    /// The sender broke the protocol: close.
    Close,
}

/// The receiver's next stage and action.
pub open spec fn next(stage: Stage, event: Event) -> (Stage, Action) {
    match (stage, event) {
        (Stage::AwaitReady, Event::Control(k)) if k == CONTROL_READY => (
            Stage::AwaitStart,
            Action::Accept,
        ),
        (Stage::AwaitStart, Event::Control(k)) if k == CONTROL_START => (
            Stage::Data,
            Action::Continue,
        ),
        (Stage::Data, Event::Data) => (Stage::Data, Action::Deliver),
        (Stage::Data, Event::Control(k)) if k == CONTROL_STOP => (Stage::Finished, Action::Finish),
        _ => (Stage::Finished, Action::Close),
    }
}

/// Takes one step of the receiver's handshake (see `next`).
pub fn step(stage: Stage, event: Event) -> (r: (Stage, Action))
    ensures
        r == next(stage, event),
{
    match (stage, event) {
        (Stage::AwaitReady, Event::Control(k)) if k == CONTROL_READY => (
            Stage::AwaitStart,
            Action::Accept,
        ),
        (Stage::AwaitStart, Event::Control(k)) if k == CONTROL_START => (
            Stage::Data,
            Action::Continue,
        ),
        (Stage::Data, Event::Data) => (Stage::Data, Action::Deliver),
        (Stage::Data, Event::Control(k)) if k == CONTROL_STOP => (Stage::Finished, Action::Finish),
        _ => (Stage::Finished, Action::Close),
    }
}

} // verus!
