//! Records and the tables that hold them.
use hickory_proto::rr::rdata::{A, AAAA, ANAME};
use hickory_proto::rr::{LowerName, Name, RData, Record, RecordSet, RecordType as Type, RrKey};
use homelab_dns::address::IpAddress;
use homelab_dns::names::DomainName;
use homelab_dns::records::{
    generate_initial_records, is_zone_origin, remove_records, DnsRecord, RecordData, RecordType,
};
use std::collections::BTreeMap;
use std::str::FromStr;
use std::sync::Arc;

fn name(text: &str) -> DomainName {
    DomainName::parse(text).unwrap()
}

fn only_record(set: &RecordSet) -> Record {
    let records: Vec<&Record> = set.records_without_rrsigs().collect();
    assert_eq!(records.len(), 1);
    records[0].clone()
}

fn table(owners: &[(&str, Type)]) -> BTreeMap<RrKey, Arc<RecordSet>> {
    let mut table = BTreeMap::new();
    for (owner, record_type) in owners {
        let owner = Name::from_str(owner).unwrap();
        table.insert(
            RrKey::new(LowerName::new(&owner), *record_type),
            Arc::new(RecordSet::new(&owner, *record_type, 0)),
        );
    }
    table
}

#[test]
fn address_record_becomes_a_set() {
    let record = DnsRecord {
        owner: name("web.home.lab"),
        ttl: 300,
        data: RecordData::Address(IpAddress::V4(10, 0, 0, 1)),
    };
    let made = only_record(&record.to_record_set());
    assert_eq!(
        made,
        Record::from_rdata(
            Name::from_str("web.home.lab").unwrap(),
            300,
            RData::A(A::new(10, 0, 0, 1))
        )
    );
    assert_eq!(made.ttl(), 300);
    assert!(!made.name().is_fqdn());
}

#[test]
fn ipv6_record_becomes_a_set() {
    let record = DnsRecord {
        owner: name("web.home.lab."),
        ttl: 7,
        data: RecordData::Address(IpAddress::V6(0x2001_0db8_0000_0000_0000_0000_0000_0002)),
    };
    let made = only_record(&record.to_record_set());
    assert_eq!(made.data(), Some(&RData::AAAA(AAAA::from_str("2001:db8::2").unwrap())));
    assert_eq!(made.record_type(), Type::AAAA);
    assert_eq!(made.ttl(), 7);
    assert_eq!(made.name().to_string(), "web.home.lab.");
}

#[test]
fn aname_record_becomes_a_set() {
    let record = DnsRecord {
        owner: name("alias.home.lab"),
        ttl: 300,
        data: RecordData::Aname(name("web.home.lab.")),
    };
    let made = only_record(&record.to_record_set());
    assert_eq!(made.record_type(), Type::ANAME);
    assert_eq!(made.name().to_string(), "alias.home.lab");
    let target = match made.data() {
        Some(RData::ANAME(ANAME(target))) => target.clone(),
        _ => panic!("no ANAME"),
    };
    assert_eq!(target.to_string(), "web.home.lab.");
}

#[test]
fn remove_records_takes_one_type_of_one_owner() {
    let mut zone = table(&[
        ("web.lab", Type::A),
        ("web.lab", Type::AAAA),
        ("web.lab", Type::ANAME),
        ("db.lab", Type::A),
    ]);
    assert!(remove_records(&mut zone, &name("web.lab"), RecordType::A));
    assert!(!remove_records(&mut zone, &name("web.lab"), RecordType::A));
    assert_eq!(zone.len(), 3);
    assert!(remove_records(&mut zone, &name("web.lab"), RecordType::ANAME));
    assert!(remove_records(&mut zone, &name("web.lab"), RecordType::AAAA));
    assert!(!remove_records(&mut zone, &name("lab"), RecordType::A));
    assert_eq!(zone.keys().next().unwrap().record_type, Type::A);
    assert_eq!(zone.len(), 1);
}

#[test]
fn remove_records_knows_the_zone_type() {
    let mut zone = table(&[("lab", Type::SOA), ("lab", Type::NS)]);
    assert!(remove_records(&mut zone, &name("lab"), RecordType::SOA));
    assert_eq!(zone.keys().next().unwrap().record_type, Type::NS);
    assert_eq!(zone.len(), 1);
}

#[test]
fn record_key_ignores_case_and_final_dot() {
    let mut zone = table(&[("web.lab.", Type::A)]);
    let loud = DomainName { labels: vec![b"WEB".to_vec(), b"Lab".to_vec()], fqdn: false };
    assert!(remove_records(&mut zone, &loud, RecordType::A));
    assert!(zone.is_empty());
}

#[test]
fn new_zone_has_just_the_soa_record() {
    let origin = name("home.lab.");
    assert!(is_zone_origin(&origin));
    let zone = generate_initial_records(&origin);
    assert_eq!(zone.len(), 1);
    let owner = Name::from_str("home.lab.").unwrap();
    let set = &zone[&RrKey::new(LowerName::new(&owner), Type::SOA)];
    assert_eq!(set.serial(), 0);
    let soa = only_record(set);
    assert_eq!(soa.name().to_string(), "home.lab.");
    assert_eq!(soa.ttl(), 0);
    let data = match soa.data() {
        Some(RData::SOA(data)) => data.clone(),
        _ => panic!("no SOA"),
    };
    assert_eq!(data.mname().to_string(), "ns.dns.home.lab.");
    assert_eq!(data.rname().to_string(), "hostmaster.home.lab.");
    assert_eq!(data.serial(), 0);
    assert_eq!(data.refresh(), 300);
    assert_eq!(data.retry(), 300);
    assert_eq!(data.expire(), i32::MAX);
    assert_eq!(data.minimum(), 100);
}

#[test]
fn long_names_are_no_origins() {
    let label = "a".repeat(63);
    let fits = name(&format!("{}.{}.{}.{}", label, label, label, "a".repeat(51)));
    assert!(is_zone_origin(&fits));
    assert_eq!(generate_initial_records(&fits).len(), 1);
    assert!(!is_zone_origin(&name(&format!("{}.{}.{}.{}", label, label, label, "a".repeat(52)))));
    assert!(is_zone_origin(&name(".")));
}
