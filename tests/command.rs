use dnsnfset::addr::IpAddr;
use dnsnfset::dispatch::add_element;
use dnsnfset::nft::{NftCommand, NftFamily, NftSetElemType};
use dnsnfset::rule::NftSet;

fn set(family: Option<NftFamily>, elem_type: NftSetElemType, timeout: Option<&str>) -> NftSet {
    NftSet {
        family,
        table: "filter".to_string(),
        set_name: "myset".to_string(),
        elem_type,
        timeout: timeout.map(|t| t.to_string()),
    }
}

#[test]
fn family_mismatch_adds_nothing() {
    let mut buf = String::new();
    let v6 = IpAddr::V6([0x2001, 0xdb8, 0, 0, 0, 0, 0, 1]);
    add_element(&mut buf, &set(None, NftSetElemType::Ipv4Addr, None), &v6);
    assert_eq!(buf, "");
    let v4 = IpAddr::V4([10, 0, 0, 1]);
    add_element(&mut buf, &set(None, NftSetElemType::Ipv6Addr, None), &v4);
    assert_eq!(buf, "");
}

#[test]
fn element_without_family_or_timeout() {
    let mut buf = String::new();
    add_element(&mut buf, &set(None, NftSetElemType::Ipv4Addr, None), &IpAddr::V4([1, 2, 3, 4]));
    assert_eq!(buf, "add element filter myset { 1.2.3.4 }; ");
}

#[test]
fn element_with_family_and_timeout() {
    let mut buf = String::new();
    let s = set(Some(NftFamily::Inet), NftSetElemType::Ipv6Addr, Some("1h"));
    add_element(&mut buf, &s, &IpAddr::V6([0x2001, 0xdb8, 0, 0, 0, 0, 0, 1]));
    assert_eq!(buf, "add element inet filter myset { 2001:db8::1 timeout 1h }; ");
}

#[test]
fn statements_accumulate() {
    let mut buf = String::from("x");
    buf.add_element(Some(NftFamily::Ip), "t", "s", &IpAddr::V4([192, 168, 0, 255]), &None);
    buf.add_element(None, "t", "s", &IpAddr::V4([0, 0, 0, 0]), &Some("5m".to_string()));
    assert_eq!(buf, "xadd element ip t s { 192.168.0.255 }; add element t s { 0.0.0.0 timeout 5m }; ");
}

#[test]
fn ipv6_text() {
    let t = |s: [u16; 8]| IpAddr::V6(s).to_text();
    assert_eq!(t([0; 8]), "::");
    assert_eq!(t([0, 0, 0, 0, 0, 0, 0, 1]), "::1");
    assert_eq!(t([0x2001, 0xdb8, 0, 0, 1, 0, 0, 1]), "2001:db8::1:0:0:1");
    assert_eq!(t([0x2001, 0xdb8, 0, 1, 0, 0, 0, 1]), "2001:db8:0:1::1");
    assert_eq!(t([1, 0, 2, 3, 4, 5, 6, 7]), "1:0:2:3:4:5:6:7");
    assert_eq!(t([0xfe80, 0, 0, 0, 0xabcd, 0xef, 0x1234, 0]), "fe80::abcd:ef:1234:0");
    assert_eq!(t([1, 2, 3, 4, 5, 6, 7, 0]), "1:2:3:4:5:6:7:0");
    assert_eq!(t([1, 2, 3, 4, 5, 6, 0, 0]), "1:2:3:4:5:6::");
    assert_eq!(t([0, 0, 0, 0, 0, 0xffff, 0xc000, 0x0280]), "::ffff:192.0.2.128");
}

#[test]
fn ipv4_text() {
    assert_eq!(IpAddr::V4([93, 184, 216, 34]).to_text(), "93.184.216.34");
    assert_eq!(IpAddr::V4([255, 0, 10, 100]).to_text(), "255.0.10.100");
}
