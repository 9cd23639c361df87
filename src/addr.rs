//! IP addresses as plain values, and their text in `nft` commands.
use vstd::prelude::*;

verus! {

/// An IP address: the four octets of an IPv4 address, or the eight 16-bit
/// segments of an IPv6 address.
#[derive(Clone, Copy, Debug, PartialEq, Eq, Hash)]
pub enum IpAddr {
    V4([u8; 4]),
    V6([u16; 8]),
}

/// The character of a digit below 16 (lower-case for 10 to 15).
pub open spec fn digit_char(d: nat) -> char {
    if d < 10 {
        (d + 48) as u8 as char
    } else {
        (d + 87) as u8 as char
    }
}

/// Decimal text of `n`, without leading zeros.
pub open spec fn dec_text(n: nat) -> Seq<char>
    decreases n,
{
    if n < 10 {
        seq![digit_char(n)]
    } else {
        dec_text(n / 10).push(digit_char(n % 10))
    }
}

/// Lower-case hexadecimal text of `n`, without leading zeros.
pub open spec fn hex_text(n: nat) -> Seq<char>
    decreases n,
{
    if n < 16 {
        seq![digit_char(n)]
    } else {
        hex_text(n / 16).push(digit_char(n % 16))
    }
}

/// Dotted-decimal text of four octets.
pub open spec fn v4_text(o: Seq<u8>) -> Seq<char> {
    dec_text(o[0] as nat) + seq!['.'] + dec_text(o[1] as nat) + seq!['.'] + dec_text(
        o[2] as nat,
    ) + seq!['.'] + dec_text(o[3] as nat)
}

/// Segments in hexadecimal, separated by colons.
pub open spec fn hex_join(s: Seq<u16>) -> Seq<char>
    decreases s.len(),
{
    if s.len() == 0 {
        Seq::empty()
    } else if s.len() == 1 {
        hex_text(s[0] as nat)
    } else {
        hex_join(s.drop_last()) + seq![':'] + hex_text(s.last() as nat)
    }
}

/// Number of zero segments in a row from position `i` on.
pub open spec fn zero_run(s: Seq<u16>, i: int) -> nat
    decreases s.len() - i,
{
    if i < 0 || i >= s.len() || s[i] != 0 {
        0
    } else {
        1 + zero_run(s, i + 1)
    }
}

/// Among the positions below `n` (at least one), the first at which the
/// longest run of zero segments starts.
pub open spec fn longest_zero_run(s: Seq<u16>, n: int) -> int
    decreases n,
{
    if n <= 1 {
        0
    } else {
        let b = longest_zero_run(s, n - 1);
        if zero_run(s, n - 1) > zero_run(s, b) {
            n - 1
        } else {
            b
        }
    }
}

/// Whether the segments are those of an IPv4-mapped address (`::ffff:a.b.c.d`).
pub open spec fn is_v4_mapped(s: Seq<u16>) -> bool {
    s[0] == 0 && s[1] == 0 && s[2] == 0 && s[3] == 0 && s[4] == 0 && s[5] == 0xffff
}

/// Text of an IPv6 address: an IPv4-mapped address as `::ffff:` and the IPv4
/// text; otherwise the segments in hexadecimal, with the first longest run of
/// two or more zero segments written as `::`.
pub open spec fn v6_text(s: Seq<u16>) -> Seq<char> {
    if is_v4_mapped(s) {
        seq![':', ':', 'f', 'f', 'f', 'f', ':'] + v4_text(
            seq![(s[6] / 256) as u8, (s[6] % 256) as u8, (s[7] / 256) as u8, (s[7] % 256) as u8],
        )
    } else {
        let start = longest_zero_run(s, 8);
        let len = zero_run(s, start);
        if len > 1 {
            hex_join(s.subrange(0, start)) + seq![':', ':'] + hex_join(
                s.subrange(start + len, 8),
            )
        } else {
            hex_join(s)
        }
    }
}

/// Text of an address.
pub open spec fn addr_text(a: IpAddr) -> Seq<char> {
    match a {
        IpAddr::V4(o) => v4_text(o@),
        IpAddr::V6(s) => v6_text(s@),
    }
}

/// Relies on `String::push`: the character is appended.
#[verifier::external_body]
pub(crate) fn push_char(s: &mut String, c: char)
    ensures
        final(s)@ == old(s)@.push(c),
{
    s.push(c)
}

fn digit(d: u32) -> (c: char)
    requires
        d < 16,
    ensures
        c == digit_char(d as nat),
{
    if d < 10 {
        (d as u8 + 48) as char
    } else {
        (d as u8 + 87) as char
    }
}

fn push_dec(s: &mut String, n: u32)
    ensures
        final(s)@ == old(s)@ + dec_text(n as nat),
    decreases n,
{
    if n >= 10 {
        push_dec(s, n / 10);
    }
    push_char(s, digit(n % 10));
}

fn push_hex(s: &mut String, n: u32)
    ensures
        final(s)@ == old(s)@ + hex_text(n as nat),
    decreases n,
{
    if n >= 16 {
        push_hex(s, n / 16);
    }
    push_char(s, digit(n % 16));
}

/// Appends the dotted-decimal text of four octets.
pub(crate) fn push_v4(s: &mut String, o: &[u8; 4])
    ensures
        final(s)@ == old(s)@ + v4_text(o@),
{
    let ghost s0 = s@;
    push_dec(s, o[0] as u32);
    push_char(s, '.');
    push_dec(s, o[1] as u32);
    push_char(s, '.');
    push_dec(s, o[2] as u32);
    push_char(s, '.');
    push_dec(s, o[3] as u32);
    assert(s@ =~= s0 + v4_text(o@));
}

/// Length of the run of zero segments that starts at `i`.
fn zero_run_at(seg: &[u16; 8], i: usize) -> (r: usize)
    requires
        i <= 8,
    ensures
        r == zero_run(seg@, i as int),
{
    let mut j: usize = i;
    while j < 8 && seg[j] == 0
        invariant
            i <= j <= 8,
            seg@.len() == 8,
            zero_run(seg@, i as int) == (j - i) + zero_run(seg@, j as int),
        decreases 8 - j,
    {
        j += 1;
    }
    j - i
}

/// Appends the segments from `lo` to `hi` in hexadecimal, separated by colons.
fn push_hex_join(s: &mut String, seg: &[u16; 8], lo: usize, hi: usize)
    requires
        lo <= hi <= 8,
    ensures
        final(s)@ == old(s)@ + hex_join(seg@.subrange(lo as int, hi as int)),
{
    let ghost s0 = s@;
    let mut i: usize = lo;
    while i < hi
        invariant
            lo <= i <= hi <= 8,
            seg@.len() == 8,
            s@ == s0 + hex_join(seg@.subrange(lo as int, i as int)),
        decreases hi - i,
    {
        let ghost before = s@;
        if i > lo {
            push_char(s, ':');
        }
        push_hex(s, seg[i] as u32);
        proof {
            let next = seg@.subrange(lo as int, i + 1);
            assert(next.drop_last() =~= seg@.subrange(lo as int, i as int));
            if i == lo {
                assert(seg@.subrange(lo as int, i as int) =~= Seq::<u16>::empty());
            }
            assert(s@ =~= s0 + hex_join(next));
        }
        i += 1;
    }
}

/// Appends the text of an IPv6 address.
pub(crate) fn push_v6(s: &mut String, seg: &[u16; 8])
    ensures
        final(s)@ == old(s)@ + v6_text(seg@),
{
    let ghost s0 = s@;
    if seg[0] == 0 && seg[1] == 0 && seg[2] == 0 && seg[3] == 0 && seg[4] == 0 && seg[5]
        == 0xffff {
        push_char(s, ':');
        push_char(s, ':');
        push_char(s, 'f');
        push_char(s, 'f');
        push_char(s, 'f');
        push_char(s, 'f');
        push_char(s, ':');
        let o: [u8; 4] = [
            (seg[6] / 256) as u8,
            (seg[6] % 256) as u8,
            (seg[7] / 256) as u8,
            (seg[7] % 256) as u8,
        ];
        push_v4(s, &o);
        assert(o@ =~= seq![
            (seg@[6] / 256) as u8,
            (seg@[6] % 256) as u8,
            (seg@[7] / 256) as u8,
            (seg@[7] % 256) as u8,
        ]);
        assert(s@ =~= s0 + v6_text(seg@));
        return;
    }
    let mut best: usize = 0;
    let mut best_len: usize = zero_run_at(seg, 0);
    let mut i: usize = 1;
    while i < 8
        invariant
            1 <= i <= 8,
            seg@.len() == 8,
            best == longest_zero_run(seg@, i as int),
            best_len == zero_run(seg@, best as int),
        decreases 8 - i,
    {
        let r = zero_run_at(seg, i);
        if r > best_len {
            best = i;
            best_len = r;
        }
        i += 1;
    }
    if best_len > 1 {
        assert(best + best_len <= 8) by {
            lemma_zero_run_bound(seg@, best as int);
        }
        push_hex_join(s, seg, 0, best);
        push_char(s, ':');
        push_char(s, ':');
        push_hex_join(s, seg, best + best_len, 8);
    } else {
        push_hex_join(s, seg, 0, 8);
        assert(seg@.subrange(0, 8) =~= seg@);
    }
    assert(s@ =~= s0 + v6_text(seg@));
}

proof fn lemma_zero_run_bound(s: Seq<u16>, i: int)
    requires
        0 <= i,
    ensures
        i + zero_run(s, i) <= if i < s.len() { s.len() as int } else { i },
    decreases s.len() - i,
{
    if 0 <= i < s.len() && s[i] == 0 {
        lemma_zero_run_bound(s, i + 1);
    }
}

/// Appends the text of an address.
pub(crate) fn push_addr(s: &mut String, a: &IpAddr)
    ensures
        final(s)@ == old(s)@ + addr_text(*a),
{
    match a {
        IpAddr::V4(o) => push_v4(s, o),
        IpAddr::V6(seg) => push_v6(s, seg),
    }
}

impl IpAddr {
    /// The address as text: dotted decimal for IPv4, and for IPv6 the
    /// compressed hexadecimal form.
    pub fn to_text(&self) -> (r: String)
        ensures
            r@ == addr_text(*self),
    {
        let mut s = String::new();
        push_addr(&mut s, self);
        assert(s@ =~= addr_text(*self));
        s
    }
}

} // verus!
