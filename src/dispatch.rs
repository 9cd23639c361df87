//! From a DNS response to the `nft` command that adds its addresses to the
//! matching sets.
use vstd::prelude::*;
use vstd::utf8::encode_utf8;

use crate::addr::IpAddr;
use crate::dns::{
    answer_count, decode, dns_decoded, question_count, DecodeError, DnsMessage, DnsMessageView,
    QuestionView, RecordData, TYPE_A, TYPE_AAAA,
};
use crate::nft::{directive, fits, NftCommand, NftSetElemType};
use crate::rule::{shows, NftSet, NftSetView, RuleSet, RuleSetView};

verus! {

/// Whether a question asks for addresses (type A or AAAA).
pub open spec fn asks_address(q: QuestionView) -> bool {
    q.qtype == TYPE_A || q.qtype == TYPE_AAAA
}

/// The first question that asks for addresses.
pub open spec fn first_address_question(qs: Seq<QuestionView>) -> Option<QuestionView>
    decreases qs.len(),
{
    if qs.len() == 0 {
        None
    } else if asks_address(qs[0]) {
        Some(qs[0])
    } else {
        first_address_question(qs.subrange(1, qs.len() as int))
    }
}

/// The addresses of the A and AAAA records, in order.
pub open spec fn addresses(rs: Seq<RecordData>) -> Seq<IpAddr>
    decreases rs.len(),
{
    if rs.len() == 0 {
        Seq::empty()
    } else {
        addresses(rs.drop_last()) + match rs.last() {
            RecordData::A(o) => seq![IpAddr::V4(o)],
            RecordData::Aaaa(s) => seq![IpAddr::V6(s)],
            RecordData::Other => Seq::empty(),
        }
    }
}

/// The statement that adds `a` to set `s`, or nothing when the address does
/// not fit the set's element type.
pub open spec fn element(s: NftSetView, a: IpAddr) -> Seq<char> {
    if fits(s.elem_type, a) {
        directive(s.family, s.table, s.set_name, a, s.timeout)
    } else {
        Seq::empty()
    }
}

/// The statements that add each of `addrs` to set `s`.
pub open spec fn set_elements(s: NftSetView, addrs: Seq<IpAddr>) -> Seq<char>
    decreases addrs.len(),
{
    if addrs.len() == 0 {
        Seq::empty()
    } else {
        set_elements(s, addrs.drop_last()) + element(s, addrs.last())
    }
}

/// The statements that add each of `addrs` to each of `sets`, set after set.
pub open spec fn elements(sets: Seq<NftSetView>, addrs: Seq<IpAddr>) -> Seq<char>
    decreases sets.len(),
{
    if sets.len() == 0 {
        Seq::empty()
    } else {
        elements(sets.drop_last(), addrs) + set_elements(sets.last(), addrs)
    }
}

/// The command for a message: the addresses of its answers, added to every
/// set that matches the name of its first address question.
pub open spec fn command_for(rules: RuleSetView, msg: DnsMessageView) -> Seq<char> {
    match first_address_question(msg.questions) {
        None => Seq::empty(),
        Some(q) => elements(
            rules.matched(encode_utf8(q.qname)).map_values(|i: int| rules.targets[i]),
            addresses(msg.answers),
        ),
    }
}

/// Appends the statement that adds `addr` to `set`, if the address fits the
/// set's element type.
pub fn add_element(buf: &mut String, set: &NftSet, addr: &IpAddr)
    ensures
        final(buf)@ == old(buf)@ + element(set@, *addr),
{
    let fit = match (set.elem_type, addr) {
        (NftSetElemType::Ipv4Addr, IpAddr::V4(_)) => true,
        (NftSetElemType::Ipv6Addr, IpAddr::V6(_)) => true,
        _ => false,
    };
    if fit {
        buf.add_element(set.family, set.table.as_str(), set.set_name.as_str(), addr, &set.timeout);
    } else {
        assert(old(buf)@ + element(set@, *addr) =~= old(buf)@);
    }
}

/// The addresses of the A and AAAA records.
fn collect_addresses(answers: &Vec<RecordData>) -> (r: Vec<IpAddr>)
    ensures
        r@ == addresses(answers@),
{
    let mut out: Vec<IpAddr> = Vec::new();
    let mut i: usize = 0;
    while i < answers.len()
        invariant
            i <= answers@.len(),
            out@ == addresses(answers@.subrange(0, i as int)),
        decreases answers@.len() - i,
    {
        let ghost pre = out@;
        assert(answers@.subrange(0, i + 1).drop_last() =~= answers@.subrange(0, i as int));
        match answers[i] {
            RecordData::A(o) => out.push(IpAddr::V4(o)),
            RecordData::Aaaa(s) => out.push(IpAddr::V6(s)),
            RecordData::Other => {},
        }
        assert(out@ =~= addresses(answers@.subrange(0, i + 1)));
        i += 1;
    }
    assert(answers@.subrange(0, i as int) =~= answers@);
    out
}

/// The position of the first question that asks for addresses.
fn find_address_question(qs: &Vec<crate::dns::Question>) -> (r: Option<usize>)
    ensures
        match r {
            Some(i) => i < qs@.len() && first_address_question(qs@.map_values(
                |q: crate::dns::Question| q@,
            )) == Some(qs@[i as int]@),
            None => first_address_question(qs@.map_values(|q: crate::dns::Question| q@)) is None,
        },
{
    let ghost all = qs@.map_values(|q: crate::dns::Question| q@);
    let mut i: usize = 0;
    assert(all.subrange(0, all.len() as int) =~= all);
    while i < qs.len()
        invariant
            i <= qs@.len(),
            all == qs@.map_values(|q: crate::dns::Question| q@),
            first_address_question(all) == first_address_question(
                all.subrange(i as int, all.len() as int),
            ),
        decreases qs@.len() - i,
    {
        let ghost rest = all.subrange(i as int, all.len() as int);
        assert(rest.subrange(1, rest.len() as int) =~= all.subrange(i + 1, all.len() as int));
        if qs[i].qtype == TYPE_A || qs[i].qtype == TYPE_AAAA {
            return Some(i);
        }
        i += 1;
    }
    None
}

/// The command for a decoded message (see `command_for`); empty when the
/// message asks for no address, matches no set or has no fitting address.
pub fn handle_packet(msg: &DnsMessage, rules: &RuleSet) -> (r: String)
    requires
        rules.inv(),
    ensures
        r@ == command_for(rules@, msg@),
{
    let mut cmd = String::new();
    let qi = match find_address_question(&msg.questions) {
        Some(i) => i,
        None => {
            return cmd;
        },
    };
    let sets = rules.match_all(msg.questions[qi].qname.as_str());
    let ghost ids = rules@.matched(encode_utf8(msg.questions@[qi as int].qname@));
    let ghost views = ids.map_values(|i: int| rules@.targets[i]);
    let records = collect_addresses(&msg.answers);
    let mut i: usize = 0;
    assert(views.subrange(0, 0) =~= Seq::<NftSetView>::empty());
    while i < sets.len()
        invariant
            shows(sets@, rules@.targets, ids),
            views == ids.map_values(|i: int| rules@.targets[i]),
            i <= sets@.len(),
            cmd@ == elements(views.subrange(0, i as int), records@),
        decreases sets@.len() - i,
    {
        let set = sets[i];
        let ghost before = cmd@;
        let mut j: usize = 0;
        assert(records@.subrange(0, 0) =~= Seq::<IpAddr>::empty());
        while j < records.len()
            invariant
                j <= records@.len(),
                cmd@ == before + set_elements(set@, records@.subrange(0, j as int)),
            decreases records@.len() - j,
        {
            assert(records@.subrange(0, j + 1).drop_last() =~= records@.subrange(0, j as int));
            add_element(&mut cmd, set, &records[j]);
            assert(cmd@ =~= before + set_elements(set@, records@.subrange(0, j + 1)));
            j += 1;
        }
        assert(records@.subrange(0, j as int) =~= records@);
        assert(views.subrange(0, i + 1).drop_last() =~= views.subrange(0, i as int));
        assert(set@ == views[i as int]);
        i += 1;
    }
    assert(views.subrange(0, i as int) =~= views);
    cmd
}

/// Reads a DNS response and builds its command: `Ok(Some(command))` when
/// there is something to add, `Ok(None)` when the command is empty.
pub fn process_response(bytes: &[u8], rules: &RuleSet) -> (r: Result<Option<String>, DecodeError>)
    requires
        rules.inv(),
    ensures
        match dns_decoded(bytes@) {
            Err(e) => r == Err::<Option<String>, DecodeError>(e),
            Ok(m) => match r {
                Ok(Some(c)) => c@ == command_for(rules@, m) && c@.len() > 0,
                Ok(None) => command_for(rules@, m).len() == 0,
                Err(_) => false,
            },
        },
        bytes@.len() < 12 ==> r == Err::<Option<String>, DecodeError>(DecodeError::MalformedHeader),
        bytes@.len() >= 12 && 12 + 5 * question_count(bytes@) + 11 * answer_count(bytes@)
            > bytes@.len() ==> r is Err,
{
    let msg = decode(bytes)?;
    let cmd = handle_packet(&msg, rules);
    if cmd.as_str().is_empty() {
        Ok(None)
    } else {
        Ok(Some(cmd))
    }
}

} // verus!
