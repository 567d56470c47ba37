//! Names, addresses and the texts they are read from.
use homelab_dns::address::{parse_addresses, IpAddress};
use homelab_dns::names::DomainName;
use homelab_dns::parsing::parse_names;
use homelab_dns::text::split;

fn strings(texts: &[&str]) -> Vec<String> {
    texts.iter().map(|t| t.to_string()).collect()
}

fn labels(name: &DomainName) -> Vec<String> {
    name.labels.iter().map(|l| String::from_utf8(l.clone()).unwrap()).collect()
}

#[test]
fn split_keeps_empty_parts() {
    assert_eq!(split("a.x,b.x", ','), strings(&["a.x", "b.x"]));
    assert_eq!(split("", ','), strings(&[""]));
    assert_eq!(split(",", ','), strings(&["", ""]));
    assert_eq!(split("a,,b,", ','), strings(&["a", "", "b", ""]));
    assert_eq!(split("a b", ','), strings(&["a b"]));
}

#[test]
fn split_and_join_undo_each_other() {
    for text in ["", "one", "one,two", ",one,,two,"] {
        assert_eq!(split(text, ',').join(","), text);
        assert_eq!(split(text, ',').len(), 1 + text.matches(',').count());
    }
}

#[test]
fn name_is_read_into_labels() {
    let name = DomainName::parse("web.home.lab").unwrap();
    assert_eq!(labels(&name), strings(&["web", "home", "lab"]));
    assert!(!name.fqdn);
    let name = DomainName::parse("web.home.lab.").unwrap();
    assert_eq!(labels(&name), strings(&["web", "home", "lab"]));
    assert!(name.fqdn);
}

#[test]
fn name_of_nothing_is_the_root() {
    let name = DomainName::parse("").unwrap();
    assert!(name.labels.is_empty());
    assert!(!name.fqdn);
    let name = DomainName::parse(".").unwrap();
    assert!(name.labels.is_empty());
    assert!(name.fqdn);
}

#[test]
fn name_with_empty_or_overlong_labels_is_refused() {
    assert!(DomainName::parse("web..lab").is_err());
    assert!(DomainName::parse("web lab").is_err());
    let label = "a".repeat(63);
    assert!(DomainName::parse(&label).is_ok());
    assert!(DomainName::parse(&format!("{}a", label)).is_err());
    let longest = format!("{}.{}.{}.{}", label, label, label, "a".repeat(62));
    assert_eq!(longest.len(), 254);
    assert!(DomainName::parse(&longest).is_ok());
    assert!(DomainName::parse(&format!("{}.{}.{}.{}", label, label, label, label)).is_err());
}

#[test]
fn name_text_shows_the_final_dot() {
    assert_eq!(DomainName::parse("web.home.lab").unwrap().text(), "web.home.lab");
    assert_eq!(DomainName::parse("web.home.lab.").unwrap().text(), "web.home.lab.");
    assert_eq!(DomainName::parse("*.lab").unwrap().text(), "*.lab");
}

#[test]
fn append_domain_is_fully_qualified() {
    let front = DomainName::parse("ns.dns").unwrap();
    let back = DomainName::parse("home.lab").unwrap();
    let name = front.append_domain(&back).unwrap();
    assert_eq!(labels(&name), strings(&["ns", "dns", "home", "lab"]));
    assert!(name.fqdn);
    assert_eq!(name.text(), "ns.dns.home.lab.");
}

#[test]
fn append_domain_refuses_long_names() {
    let label = "a".repeat(63);
    let front = DomainName::parse(&format!("{}.{}", label, label)).unwrap();
    let fits = DomainName::parse(&format!("{}.{}", label, "a".repeat(62))).unwrap();
    let back = DomainName::parse(&format!("{}.{}", label, label)).unwrap();
    assert!(front.append_domain(&fits).is_ok());
    assert!(front.append_domain(&back).is_err());
}

#[test]
fn clone_of_a_name_is_the_name() {
    let name = DomainName::parse("web.home.lab.").unwrap();
    let copy = name.clone();
    assert_eq!(copy.labels, name.labels);
    assert_eq!(copy.fqdn, name.fqdn);
}

#[test]
fn addresses_are_read() {
    assert_eq!(IpAddress::parse("10.0.0.1"), Some(IpAddress::V4(10, 0, 0, 1)));
    assert_eq!(IpAddress::parse("255.255.255.255"), Some(IpAddress::V4(255, 255, 255, 255)));
    assert_eq!(IpAddress::parse("::1"), Some(IpAddress::V6(1)));
    assert_eq!(
        IpAddress::parse("2001:db8::2"),
        Some(IpAddress::V6(0x2001_0db8_0000_0000_0000_0000_0000_0002))
    );
    assert_eq!(
        IpAddress::parse("::ffff:10.0.0.1"),
        Some(IpAddress::V6(0x0000_0000_0000_0000_0000_ffff_0a00_0001))
    );
}

#[test]
fn texts_that_are_no_addresses_are_refused() {
    for text in [
        "", "10.0.0", "10.0.0.256", "10.0.0.01", "10.0.0.1 ", "10.0.0.0.1", "1:2", "host", "10.0.0.1:53",
    ] {
        assert_eq!(IpAddress::parse(text), None, "{}", text);
    }
}

#[test]
fn address_text_reads_back() {
    let address = IpAddress::V4(192, 168, 1, 20);
    assert_eq!(address.text(), "192.168.1.20");
    assert_eq!(IpAddress::parse(&address.text()), Some(address));
    let address = IpAddress::V6(0x2001_0db8_0000_0000_0000_0000_0000_0002);
    assert_eq!(address.text(), "2001:db8::2");
    assert_eq!(IpAddress::parse(&address.text()), Some(address));
}

#[test]
fn unreadable_addresses_are_left_out() {
    assert_eq!(
        parse_addresses(&strings(&["10.0.0.1", "nonsense", "::1", "", "10.0.0.2"])),
        vec![IpAddress::V4(10, 0, 0, 1), IpAddress::V6(1), IpAddress::V4(10, 0, 0, 2)]
    );
    assert_eq!(parse_addresses(&strings(&[])), vec![]);
}

#[test]
fn names_are_read_up_to_the_first_error() {
    let (names, error) = parse_names(&strings(&["a.x", "b.x"]));
    assert_eq!(names.iter().map(|n| n.text.clone()).collect::<Vec<_>>(), strings(&["a.x", "b.x"]));
    assert_eq!(labels(&names[1].name), strings(&["b", "x"]));
    assert!(error.is_none());
    let (names, error) = parse_names(&strings(&["a.x", "..", "b.x"]));
    assert_eq!(names.iter().map(|n| n.text.clone()).collect::<Vec<_>>(), strings(&["a.x"]));
    assert_eq!(error.unwrap().message(), "dns name conversion failure");
}
