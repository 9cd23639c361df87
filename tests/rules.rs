use dnsnfset::nft::{NftFamily, NftSetElemType};
use dnsnfset::rule::{RuleError, RuleSet};

const RULES: &str = "\
# sample rules
// also a comment

,inet,filter,everything,ipv4_addr
com,inet,filter,com4,ipv4
com,inet,filter,com6,ipv6
example.com,ip,filter,ex,ip4,1h4s
net,,filter,netset,ipv4_addr
b.example.org,,filter,org,ipv4_addr
";

#[test]
fn test_suffix_match() {
    let ruleset = RuleSet::from_text(RULES).unwrap();
    assert_eq!(6, ruleset.len());
    assert_eq!(1, ruleset.match_all("others").len());
    assert_eq!(3, ruleset.match_all("com").len());
    assert_eq!(3, ruleset.match_all("one.com").len());
    assert_eq!(4, ruleset.match_all("a.b.example.com").len());
}

fn names(rs: &RuleSet, domain: &str) -> Vec<String> {
    rs.match_all(domain).iter().map(|s| s.set_name.clone()).collect()
}

#[test]
fn suffix_match_completeness() {
    let rs = RuleSet::from_text(",,t,T0,ipv4\ncom,,t,T1,ipv4\nexample.com,,t,T2,ipv4\n").unwrap();
    assert_eq!(names(&rs, "a.example.com"), vec!["T0", "T1", "T2"]);
    assert_eq!(names(&rs, "other.com"), vec!["T0", "T1"]);
    assert_eq!(names(&rs, "net"), vec!["T0"]);
    assert_eq!(names(&rs, "example.com"), vec!["T0", "T1", "T2"]);
}

#[test]
fn matching_ignores_case() {
    let rs = RuleSet::from_text("Example.COM,,t,ex,ipv4\ncom,,t,c,ipv4\n").unwrap();
    assert_eq!(names(&rs, "EXAMPLE.COM"), names(&rs, "example.com"));
    assert_eq!(names(&rs, "www.Example.Com"), vec!["c", "ex"]);
}

#[test]
fn matching_ignores_trailing_dot() {
    let rs = RuleSet::from_text("example.com,,t,ex,ipv4\ncom,,t,c,ipv4\n").unwrap();
    assert_eq!(names(&rs, "example.com."), names(&rs, "example.com"));
    assert_eq!(names(&rs, "example.com."), vec!["c", "ex"]);
}

#[test]
fn equal_sets_are_shared() {
    let rs = RuleSet::from_text("a.com,inet,t,s,ipv4,1h\nb.org,inet,t,s,ipv4,1h\nc.net,inet,t,s,ipv4\n")
        .unwrap();
    assert_eq!(rs.len(), 3);
    assert_eq!(rs.target_count(), 2);
    let a = rs.match_all("a.com");
    let b = rs.match_all("b.org");
    let c = rs.match_all("c.net");
    assert_eq!(a.len(), 1);
    assert!(std::ptr::eq(a[0], b[0]));
    assert!(!std::ptr::eq(a[0], c[0]));
}

#[test]
fn rule_columns_are_read() {
    let rs = RuleSet::from_text("  example.com , INET , filter , ex , IPv6_Addr , 1h4s \n").unwrap();
    let m = rs.match_all("example.com");
    assert_eq!(m.len(), 1);
    assert_eq!(m[0].family, Some(NftFamily::Inet));
    assert_eq!(m[0].table, "filter");
    assert_eq!(m[0].set_name, "ex");
    assert_eq!(m[0].elem_type, NftSetElemType::Ipv6Addr);
    assert_eq!(m[0].timeout.as_deref(), Some("1h4s"));
    let rs = RuleSet::from_text("x,,t,s,ipv4,  \n").unwrap();
    assert_eq!(rs.match_all("x")[0].timeout, None);
    assert_eq!(rs.match_all("x")[0].family, None);
}

#[test]
fn rule_errors() {
    assert_eq!(RuleSet::from_text("example.com").err(), Some(RuleError::MissingFamily));
    assert_eq!(RuleSet::from_text("a,bridge,t,s,ipv4").err(), Some(RuleError::IllegalFamily));
    assert_eq!(RuleSet::from_text("a,ip").err(), Some(RuleError::MissingTable));
    assert_eq!(RuleSet::from_text("a,ip,t").err(), Some(RuleError::MissingSet));
    assert_eq!(RuleSet::from_text("a,ip,t,s").err(), Some(RuleError::MissingElemType));
    assert_eq!(RuleSet::from_text("a,ip,t,s,ether_addr").err(), Some(RuleError::IllegalElemType));
    assert_eq!(
        RuleSet::from_text("ok,,t,s,ipv4\n# fine\nbad,ip6,t\n").err(),
        Some(RuleError::MissingSet)
    );
}

#[test]
fn add_keeps_rules_on_error() {
    let mut rs = RuleSet::new();
    assert_eq!(rs.add("a,,t,s,ipv4"), Ok(()));
    assert_eq!(rs.add("b,,t,s"), Err(RuleError::MissingElemType));
    assert_eq!(rs.len(), 1);
    assert_eq!(rs.target_count(), 1);
}

#[test]
fn empty_rule_text() {
    let rs = RuleSet::from_text("").unwrap();
    assert_eq!(rs.len(), 0);
    assert!(rs.match_all("example.com").is_empty());
}

#[test]
fn family_and_type_words() {
    assert_eq!(NftFamily::from_str("IP"), Ok(NftFamily::Ip));
    assert_eq!(NftFamily::from_str("ip6"), Ok(NftFamily::Ip6));
    assert_eq!(NftFamily::from_str("Inet"), Ok(NftFamily::Inet));
    assert_eq!(NftFamily::from_str("arp"), Err(()));
    assert_eq!(NftFamily::Ip6.as_str(), "ip6");
    assert_eq!(NftSetElemType::from_str("ip4"), Ok(NftSetElemType::Ipv4Addr));
    assert_eq!(NftSetElemType::from_str("IPV6"), Ok(NftSetElemType::Ipv6Addr));
    assert_eq!(NftSetElemType::from_str("ip6"), Ok(NftSetElemType::Ipv6Addr));
    assert_eq!(NftSetElemType::from_str("ipv4addr"), Err(()));
}

#[test]
fn empty_name_takes_each_key_once() {
    let rs = RuleSet::from_text(",,t,all,ipv4\ncom,,t,c,ipv4\n").unwrap();
    assert_eq!(names(&rs, ""), vec!["all"]);
    assert_eq!(names(&rs, "."), vec!["all"]);
    assert_eq!(names(&rs, "a.."), vec!["all"]);
    assert_eq!(names(&rs, ".com"), vec!["all", "c"]);
    assert_eq!(names(&rs, "com.."), vec!["all"]);
}

#[test]
fn one_wildcard_rule_matches_every_name_once() {
    let rs = RuleSet::from_text(",,inet,myset,ipv4_addr\n").unwrap();
    assert_eq!(rs.len(), 1);
    for n in ["", ".", "foo.com", "a..", "x", "EXAMPLE.COM."] {
        let m = rs.match_all(n);
        assert_eq!(m.len(), 1);
        assert_eq!(m[0].table, "inet");
        assert_eq!(m[0].set_name, "myset");
        assert_eq!(m[0].family, None);
        assert_eq!(m[0].elem_type, NftSetElemType::Ipv4Addr);
        assert_eq!(m[0].timeout, None);
    }
}
