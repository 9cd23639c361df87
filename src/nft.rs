//! nftables vocabulary: address families, set element types, and the text of
//! `add element` commands.
use vstd::prelude::*;
use vstd::string::StringExecFns;

use crate::addr::{addr_text, push_addr, IpAddr};

verus! {

/// Address family of an nftables table.
#[derive(Clone, Copy, Debug, Hash, PartialEq, Eq, Structural)]
pub enum NftFamily {
    Ip,
    Ip6,
    Inet,
}

/// Type of the elements of an nftables set.
#[derive(Clone, Copy, Debug, Hash, PartialEq, Eq, Structural)]
pub enum NftSetElemType {
    Ipv4Addr,
    Ipv6Addr,
}

/// Code point of the ASCII lower case of one character; other characters
/// keep their own.
pub open spec fn lower_code(c: char) -> u32 {
    if 'A' <= c && c <= 'Z' {
        (c as u32 + 32) as u32
    } else {
        c as u32
    }
}

/// Whether `s` equals the lower-case word `w` when ASCII case is ignored.
pub open spec fn eq_ignore_case(s: Seq<char>, w: Seq<char>) -> bool {
    s.len() == w.len() && forall|i: int| 0 <= i < s.len() ==> lower_code(#[trigger] s[i]) == w[i] as u32
}

/// The family that a rule column names, if any.
pub open spec fn family_of(s: Seq<char>) -> Option<NftFamily> {
    if eq_ignore_case(s, seq!['i', 'p']) {
        Some(NftFamily::Ip)
    } else if eq_ignore_case(s, seq!['i', 'p', '6']) {
        Some(NftFamily::Ip6)
    } else if eq_ignore_case(s, seq!['i', 'n', 'e', 't']) {
        Some(NftFamily::Inet)
    } else {
        None
    }
}

/// Whether `s` spells one of the element type words for IPv4 addresses.
pub open spec fn names_ipv4(s: Seq<char>) -> bool {
    eq_ignore_case(s, seq!['i', 'p', 'v', '4', '_', 'a', 'd', 'd', 'r'])
        || eq_ignore_case(s, seq!['i', 'p', 'v', '4'])
        || eq_ignore_case(s, seq!['i', 'p', '4'])
}

/// Whether `s` spells one of the element type words for IPv6 addresses.
pub open spec fn names_ipv6(s: Seq<char>) -> bool {
    eq_ignore_case(s, seq!['i', 'p', 'v', '6', '_', 'a', 'd', 'd', 'r'])
        || eq_ignore_case(s, seq!['i', 'p', 'v', '6'])
        || eq_ignore_case(s, seq!['i', 'p', '6'])
}

/// The element type that a rule column names, if any.
pub open spec fn elem_type_of(s: Seq<char>) -> Option<NftSetElemType> {
    if names_ipv4(s) {
        Some(NftSetElemType::Ipv4Addr)
    } else if names_ipv6(s) {
        Some(NftSetElemType::Ipv6Addr)
    } else {
        None
    }
}

/// The keyword of a family in `nft` syntax.
pub open spec fn family_word(f: NftFamily) -> Seq<char> {
    match f {
        NftFamily::Ip => seq!['i', 'p'],
        NftFamily::Ip6 => seq!['i', 'p', '6'],
        NftFamily::Inet => seq!['i', 'n', 'e', 't'],
    }
}

/// Compares `s` with the lower-case word `w`, ignoring ASCII case.
fn matches_word(s: &str, w: &str) -> (r: bool)
    ensures
        r == eq_ignore_case(s@, w@),
{
    let n = s.unicode_len();
    if n != w.unicode_len() {
        return false;
    }
    let mut i: usize = 0;
    while i < n
        invariant
            n == s@.len(),
            n == w@.len(),
            i <= n,
            forall|j: int| 0 <= j < i ==> lower_code(#[trigger] s@[j]) == w@[j] as u32,
        decreases n - i,
    {
        let c = s.get_char(i);
        let l: u32 = if 'A' <= c && c <= 'Z' {
            c as u32 + 32
        } else {
            c as u32
        };
        if l != w.get_char(i) as u32 {
            return false;
        }
        i += 1;
    }
    true
}

impl NftFamily {
    /// Reads a family keyword (`ip`, `ip6` or `inet`), ignoring ASCII case.
    pub fn from_str(s: &str) -> (r: Result<NftFamily, ()>)
        ensures
            match family_of(s@) {
                Some(f) => r == Ok::<NftFamily, ()>(f),
                None => r is Err,
            },
    {
        proof {
            reveal_strlit("ip");
            reveal_strlit("ip6");
            reveal_strlit("inet");
        }
        if matches_word(s, "ip") {
            Ok(NftFamily::Ip)
        } else if matches_word(s, "ip6") {
            Ok(NftFamily::Ip6)
        } else if matches_word(s, "inet") {
            Ok(NftFamily::Inet)
        } else {
            Err(())
        }
    }

    /// The family's keyword in `nft` syntax.
    pub fn as_str(&self) -> (r: &'static str)
        ensures
            r@ == family_word(*self),
    {
        proof {
            reveal_strlit("ip");
            reveal_strlit("ip6");
            reveal_strlit("inet");
        }
        match self {
            NftFamily::Ip => "ip",
            NftFamily::Ip6 => "ip6",
            NftFamily::Inet => "inet",
        }
    }
}

impl NftSetElemType {
    /// Reads an element type word (`ipv4_addr`, `ipv4`, `ip4`, `ipv6_addr`,
    /// `ipv6` or `ip6`), ignoring ASCII case.
    pub fn from_str(s: &str) -> (r: Result<NftSetElemType, ()>)
        ensures
            match elem_type_of(s@) {
                Some(t) => r == Ok::<NftSetElemType, ()>(t),
                None => r is Err,
            },
    {
        proof {
            reveal_strlit("ipv4_addr");
            reveal_strlit("ipv4");
            reveal_strlit("ip4");
            reveal_strlit("ipv6_addr");
            reveal_strlit("ipv6");
            reveal_strlit("ip6");
        }
        if matches_word(s, "ipv4_addr") || matches_word(s, "ipv4") || matches_word(s, "ip4") {
            Ok(NftSetElemType::Ipv4Addr)
        } else if matches_word(s, "ipv6_addr") || matches_word(s, "ipv6") || matches_word(s, "ip6") {
            Ok(NftSetElemType::Ipv6Addr)
        } else {
            Err(())
        }
    }
}

/// Text of an optional string.
pub open spec fn opt_text(o: Option<String>) -> Option<Seq<char>> {
    match o {
        Some(t) => Some(t@),
        None => None,
    }
}

/// Whether an address can be an element of a set of the given type.
pub open spec fn fits(t: NftSetElemType, a: IpAddr) -> bool {
    match (t, a) {
        (NftSetElemType::Ipv4Addr, IpAddr::V4(_)) => true,
        (NftSetElemType::Ipv6Addr, IpAddr::V6(_)) => true,
        _ => false,
    }
}

/// One `add element` statement:
/// `add element [<family> ]<table> <set> { <address> [timeout <timeout> ]}; `.
pub open spec fn directive(
    family: Option<NftFamily>,
    table: Seq<char>,
    set: Seq<char>,
    addr: IpAddr,
    timeout: Option<Seq<char>>,
) -> Seq<char> {
    "add element "@ + match family {
        Some(f) => family_word(f) + " "@,
        None => Seq::empty(),
    } + table + " "@ + set + " { "@ + addr_text(addr) + " "@ + match timeout {
        Some(t) => "timeout "@ + t + " "@,
        None => Seq::empty(),
    } + "}; "@
}

/// A buffer of `nft` statements.
pub trait NftCommand: View<V = Seq<char>> {
    /// Appends one `add element` statement.
    fn add_element(
        &mut self,
        family: Option<NftFamily>,
        table: &str,
        set: &str,
        addr: &IpAddr,
        timeout: &Option<String>,
    )
        ensures
            final(self)@ == old(self)@ + directive(family, table@, set@, *addr, opt_text(*timeout)),
    ;
}

impl NftCommand for String {
    fn add_element(
        &mut self,
        family: Option<NftFamily>,
        table: &str,
        set: &str,
        addr: &IpAddr,
        timeout: &Option<String>,
    ) {
        let ghost s0 = self@;
        self.append("add element ");
        if let Some(f) = family {
            self.append(f.as_str());
            self.append(" ");
        }
        self.append(table);
        self.append(" ");
        self.append(set);
        self.append(" { ");
        push_addr(self, addr);
        self.append(" ");
        if let Some(t) = timeout {
            self.append("timeout ");
            self.append(t.as_str());
            self.append(" ");
        }
        self.append("}; ");
        assert(self@ =~= s0 + directive(family, table@, set@, *addr, opt_text(*timeout)));
    }
}

} // verus!
