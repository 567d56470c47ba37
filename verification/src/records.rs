//! The records of the zone, and the tables that hold them.
use crate::address::IpAddress;
use crate::names::{
    is_plain_text, label_bytes, law_name_lengths_add_up, lower_labels, name_len, plain_name,
    valid_labels, DomainName, NameView,
};
use crate::text::split_on;
use hickory_proto::rr::rdata::{A, AAAA, ANAME, SOA};
use hickory_proto::rr::{LowerName, Name, RData, Record, RecordSet, RrKey};
use std::collections::BTreeMap;
use std::sync::Arc;
use vstd::pervasive::unreached;
use vstd::prelude::*;

verus! {

/// The key of a record set in a table: carried inside the tables, never looked into.
#[verifier::external_type_specification]
#[verifier::external_body]
pub struct ExRrKey(RrKey);

/// The records of one owner and type, as the DNS library holds them.
#[verifier::external_type_specification]
#[verifier::external_body]
pub struct ExRecordSet(RecordSet);

/// The types of the records that are created or removed.
#[derive(Clone, Copy, Debug, PartialEq, Eq, Structural)]
pub enum RecordType {
    A,
    AAAA,
    ANAME,
    SOA,
}

impl RecordType {
    /// The number of the type in the protocol.
    pub open spec fn code(self) -> u16 {
        match self {
            RecordType::A => 1,
            RecordType::AAAA => 28,
            RecordType::ANAME => 65305,
            RecordType::SOA => 6,
        }
    }
}

/// Under what a record set is found in a table: its owner's labels in lower case, and the number
/// of its type. Whether the owner is fully qualified makes no difference.
pub type RecordKey = (Seq<Seq<u8>>, u16);

/// The key of the records of a type that `owner` has.
pub open spec fn record_key(owner: NameView, record_type: RecordType) -> RecordKey {
    (lower_labels(owner.labels), record_type.code())
}

/// Neither the case of the owner's letters nor whether it is fully qualified makes a difference to
/// where its records are found; the type of the records does.
pub proof fn law_record_key_ignores_case(
    owner: NameView,
    fqdn: bool,
    record_type: RecordType,
    other_type: RecordType,
)
    ensures
        record_key(NameView { labels: lower_labels(owner.labels), fqdn }, record_type)
            == record_key(owner, record_type),
        record_type != other_type ==> record_key(owner, record_type) != record_key(
            owner,
            other_type,
        ),
{
    let lower = lower_labels(owner.labels);
    assert forall|i: int| 0 <= i < lower.len() implies lower_labels(lower)[i] == lower[i] by {
        assert(lower_labels(lower)[i] =~= lower[i]);
    }
    assert(lower_labels(lower) =~= lower);
}

/// What a record says.
#[derive(Debug)]
pub enum RecordData {
    /// The address of the owner.
    Address(IpAddress),
    /// The name that the owner stands for.
    Aname(DomainName),
}

/// The mathematical content of a record's data.
pub enum RecordDataView {
    Address(IpAddress),
    Aname(NameView),
    Soa {
        mname: NameView,
        rname: NameView,
        serial: u32,
        refresh: i32,
        retry: i32,
        expire: i32,
        minimum: u32,
    },
}

impl View for RecordData {
    type V = RecordDataView;

    open spec fn view(&self) -> RecordDataView {
        match *self {
            RecordData::Address(address) => RecordDataView::Address(address),
            RecordData::Aname(target) => RecordDataView::Aname(target@),
        }
    }
}

impl RecordDataView {
    /// The type of a record with this data.
    pub open spec fn record_type(self) -> RecordType {
        match self {
            RecordDataView::Address(IpAddress::V4(..)) => RecordType::A,
            RecordDataView::Address(IpAddress::V6(..)) => RecordType::AAAA,
            RecordDataView::Aname(_) => RecordType::ANAME,
            RecordDataView::Soa { .. } => RecordType::SOA,
        }
    }
}

/// A record: who owns it, for how many seconds it may be kept, and what it says.
#[derive(Debug)]
pub struct DnsRecord {
    pub owner: DomainName,
    pub ttl: u32,
    pub data: RecordData,
}

/// The mathematical content of a record.
pub struct RecordView {
    pub owner: NameView,
    pub ttl: u32,
    pub data: RecordDataView,
}

impl View for DnsRecord {
    type V = RecordView;

    open spec fn view(&self) -> RecordView {
        RecordView { owner: self.owner@, ttl: self.ttl, data: self.data@ }
    }
}

impl RecordView {
    /// The key under which a table holds the record.
    pub open spec fn key(self) -> RecordKey {
        record_key(self.owner, self.data.record_type())
    }

    /// Whether the names in an address or ANAME record are names.
    pub open spec fn valid(self) -> bool {
        &&& self.owner.valid()
        &&& match self.data {
            RecordDataView::Aname(target) => target.valid(),
            _ => true,
        }
    }
}

/// The records in a record set.
pub uninterp spec fn set_records(set: RecordSet) -> Seq<RecordView>;

/// The number of the zone's version that a record set was last changed in.
pub uninterp spec fn set_serial(set: RecordSet) -> u32;

/// The record sets in a table of a zone that is not served yet.
pub uninterp spec fn initial_sets(table: BTreeMap<RrKey, RecordSet>) -> Map<RecordKey, RecordSet>;

/// The record sets in the table of a served zone.
pub uninterp spec fn zone_sets(table: BTreeMap<RrKey, Arc<RecordSet>>) -> Map<
    RecordKey,
    RecordSet,
>;

/// `RecordSet::from` on `Record::from_rdata` with an A or AAAA record's data: the set holds that one
/// record.
#[verifier::external_body]
fn address_set(owner: &DomainName, ttl: u32, address: IpAddress) -> (set: RecordSet)
    requires
        owner@.valid(),
    ensures
        set_records(set) == seq![
            RecordView { owner: owner@, ttl, data: RecordDataView::Address(address) },
        ],
{
    let mut name = Name::from_labels(owner.labels.iter().map(|l| l.as_slice())).unwrap();
    name.set_fqdn(owner.fqdn);
    let data = match address {
        IpAddress::V4(a, b, c, d) => RData::A(A::new(a, b, c, d)),
        IpAddress::V6(bits) => RData::AAAA(AAAA(bits.into())),
    };
    RecordSet::from(Record::from_rdata(name, ttl, data))
}

/// `RecordSet::from` on `Record::from_rdata` with an ANAME record's data: the set holds that one
/// record.
#[verifier::external_body]
fn aname_set(owner: &DomainName, ttl: u32, target: &DomainName) -> (set: RecordSet)
    requires
        owner@.valid(),
        target@.valid(),
    ensures
        set_records(set) == seq![
            RecordView { owner: owner@, ttl, data: RecordDataView::Aname(target@) },
        ],
{
    let mut name = Name::from_labels(owner.labels.iter().map(|l| l.as_slice())).unwrap();
    name.set_fqdn(owner.fqdn);
    let mut end = Name::from_labels(target.labels.iter().map(|l| l.as_slice())).unwrap();
    end.set_fqdn(target.fqdn);
    RecordSet::from(Record::from_rdata(name, ttl, RData::ANAME(ANAME(end))))
}

/// `RecordSet::new` and `RecordSet::add_rdata` with the data that `SOA::new` makes: the new set has a
/// time to live of zero and holds that one record. Whatever number the set was made with, adding the
/// record leaves it with number zero.
#[verifier::external_body]
fn soa_set(
    owner: &DomainName,
    number: u32,
    names: (&DomainName, &DomainName),
    serial: u32,
    times: (i32, i32, i32, u32),
) -> (set: RecordSet)
    requires
        owner@.valid(),
        names.0@.valid(),
        names.1@.valid(),
    ensures
        set_records(set) == seq![
            RecordView {
                owner: owner@,
                ttl: 0,
                data: RecordDataView::Soa {
                    mname: names.0@,
                    rname: names.1@,
                    serial,
                    refresh: times.0,
                    retry: times.1,
                    expire: times.2,
                    minimum: times.3,
                },
            },
        ],
        set_serial(set) == 0,
{
    let mut name = Name::from_labels(owner.labels.iter().map(|l| l.as_slice())).unwrap();
    name.set_fqdn(owner.fqdn);
    let mut mname = Name::from_labels(names.0.labels.iter().map(|l| l.as_slice())).unwrap();
    mname.set_fqdn(names.0.fqdn);
    let mut rname = Name::from_labels(names.1.labels.iter().map(|l| l.as_slice())).unwrap();
    rname.set_fqdn(names.1.fqdn);
    let soa = SOA::new(mname, rname, serial, times.0, times.1, times.2, times.3);
    let mut set = RecordSet::new(&name, hickory_proto::rr::RecordType::SOA, number);
    set.add_rdata(RData::SOA(soa));
    set
}

/// `BTreeMap::new`: a table without record sets.
#[verifier::external_body]
fn empty_table() -> (table: BTreeMap<RrKey, RecordSet>)
    ensures
        initial_sets(table).dom() == Set::<RecordKey>::empty(),
{
    BTreeMap::new()
}

/// `BTreeMap::insert` under the `RrKey` of the owner's `LowerName` and the type: the key then leads
/// to `set`, and every other key to what it led to before.
#[verifier::external_body]
fn insert_set(
    table: &mut BTreeMap<RrKey, RecordSet>,
    owner: &DomainName,
    record_type: RecordType,
    set: RecordSet,
)
    requires
        owner@.valid(),
    ensures
        initial_sets(*final(table)) == initial_sets(*old(table)).insert(
            record_key(owner@, record_type),
            set,
        ),
{
    let name = Name::from_labels(owner.labels.iter().map(|l| l.as_slice())).unwrap();
    let outside = match record_type {
        RecordType::A => hickory_proto::rr::RecordType::A,
        RecordType::AAAA => hickory_proto::rr::RecordType::AAAA,
        RecordType::ANAME => hickory_proto::rr::RecordType::ANAME,
        RecordType::SOA => hickory_proto::rr::RecordType::SOA,
    };
    table.insert(RrKey::new(LowerName::new(&name), outside), set);
}

/// `BTreeMap::remove` under the `RrKey` of the owner's `LowerName` and the type: the key leads
/// nowhere afterwards, every other key leads to what it led to before, and the result tells whether
/// there was anything under the key.
#[verifier::external_body]
fn remove_set(
    table: &mut BTreeMap<RrKey, Arc<RecordSet>>,
    owner: &DomainName,
    record_type: RecordType,
) -> (removed: bool)
    requires
        owner@.valid(),
    ensures
        zone_sets(*final(table)) == zone_sets(*old(table)).remove(record_key(owner@, record_type)),
        removed == zone_sets(*old(table)).contains_key(record_key(owner@, record_type)),
{
    let name = Name::from_labels(owner.labels.iter().map(|l| l.as_slice())).unwrap();
    let outside = match record_type {
        RecordType::A => hickory_proto::rr::RecordType::A,
        RecordType::AAAA => hickory_proto::rr::RecordType::AAAA,
        RecordType::ANAME => hickory_proto::rr::RecordType::ANAME,
        RecordType::SOA => hickory_proto::rr::RecordType::SOA,
    };
    table.remove(&RrKey::new(LowerName::new(&name), outside)).is_some()
}

impl DnsRecord {
    /// The record as the DNS library takes it: a set of its own.
    pub fn to_record_set(&self) -> (set: RecordSet)
        requires
            self@.valid(),
        ensures
            set_records(set) == seq![self@],
    {
        match &self.data {
            RecordData::Address(address) => address_set(&self.owner, self.ttl, *address),
            RecordData::Aname(target) => aname_set(&self.owner, self.ttl, target),
        }
    }
}

/// Takes the records of a type that `owner` has out of the table, and tells whether it had any.
pub fn remove_records(
    table: &mut BTreeMap<RrKey, Arc<RecordSet>>,
    owner: &DomainName,
    record_type: RecordType,
) -> (removed: bool)
    requires
        owner@.valid(),
    ensures
        zone_sets(*final(table)) == zone_sets(*old(table)).remove(record_key(owner@, record_type)),
        removed == zone_sets(*old(table)).contains_key(record_key(owner@, record_type)),
{
    remove_set(table, owner, record_type)
}

/// The name server of a zone, below the zone's origin.
pub const NAME_SERVER_PREFIX: &'static str = "ns.dns";

/// The mailbox of whoever is responsible for a zone, below the zone's origin.
pub const HOSTMASTER_PREFIX: &'static str = "hostmaster";

/// The labels of a name that is put below an origin.
pub open spec fn below(prefix: &str, origin: NameView) -> NameView {
    NameView { labels: plain_name(prefix@).labels + origin.labels, fqdn: true }
}

/// Whether the names that every zone has below its origin are short enough.
pub open spec fn can_be_origin(origin: NameView) -> bool {
    &&& name_len(below(NAME_SERVER_PREFIX, origin).labels) <= 255
    &&& name_len(below(HOSTMASTER_PREFIX, origin).labels) <= 255
}

/// The record that says who is in charge of the zone.
pub open spec fn soa_record(origin: NameView) -> RecordView {
    RecordView {
        owner: origin,
        ttl: 0,
        data: RecordDataView::Soa {
            mname: below(NAME_SERVER_PREFIX, origin),
            rname: below(HOSTMASTER_PREFIX, origin),
            serial: 0,
            refresh: 300,
            retry: 300,
            expire: i32::MAX,
            minimum: 100,
        },
    }
}

/// The texts of the fixed names are plain.
proof fn lemma_fixed_names()
    ensures
        is_plain_text(NAME_SERVER_PREFIX@),
        is_plain_text(HOSTMASTER_PREFIX@),
{
    reveal_strlit("ns.dns");
    reveal_strlit("hostmaster");
    reveal_with_fuel(split_on, 11);
}

/// The fixed name that `text` writes.
fn fixed_name(text: &str) -> (r: DomainName)
    requires
        is_plain_text(text@),
    ensures
        r@ == plain_name(text@),
        r@.valid(),
{
    match DomainName::parse(text) {
        Ok(name) => name,
        Err(_) => unreached(),
    }
}

/// Whether a zone can be served under `origin`.
pub fn is_zone_origin(origin: &DomainName) -> (r: bool)
    requires
        origin@.valid(),
    ensures
        r == can_be_origin(origin@),
{
    proof {
        lemma_fixed_names();
    }
    fixed_name(NAME_SERVER_PREFIX).append_domain(origin).is_ok() && fixed_name(
        HOSTMASTER_PREFIX,
    ).append_domain(origin).is_ok()
}

/// The name that `prefix` writes, below `origin`.
fn name_below(prefix: &str, origin: &DomainName) -> (r: DomainName)
    requires
        is_plain_text(prefix@),
        origin@.valid(),
        name_len(below(prefix, origin@).labels) <= 255,
    ensures
        r@ == below(prefix, origin@),
        r@.valid(),
{
    match fixed_name(prefix).append_domain(origin) {
        Ok(name) => name,
        Err(_) => unreached(),
    }
}

/// The records that a zone has before anything is served: just the one that says who is in charge.
pub fn generate_initial_records(origin: &DomainName) -> (table: BTreeMap<RrKey, RecordSet>)
    requires
        origin@.valid(),
        can_be_origin(origin@),
    ensures
        initial_sets(table).dom() == set![record_key(origin@, RecordType::SOA)],
        set_records(initial_sets(table)[record_key(origin@, RecordType::SOA)]) == seq![
            soa_record(origin@),
        ],
        set_serial(initial_sets(table)[record_key(origin@, RecordType::SOA)]) == 0,
{
    proof {
        lemma_fixed_names();
    }
    let mname = name_below(NAME_SERVER_PREFIX, origin);
    let rname = name_below(HOSTMASTER_PREFIX, origin);
    let mut table = empty_table();
    let soa = soa_set(origin, 0, (&mname, &rname), 0, (300, 300, i32::MAX, 100));
    insert_set(&mut table, origin, RecordType::SOA, soa);
    table
}

/// A record is found under its owner's labels in lower case and the number of its type: 1 for an IPv4
/// address, 28 for an IPv6 address, 65305 for an ANAME record and 6 for an SOA record.
pub proof fn law_record_key_is_owner_and_type(record: RecordView)
    ensures
        record.key().0 == lower_labels(record.owner.labels),
        record.data is Address && record.data->Address_0 is V4 ==> record.key().1 == 1,
        record.data is Address && record.data->Address_0 is V6 ==> record.key().1 == 28,
        record.data is Aname ==> record.key().1 == 65305,
        record.data is Soa ==> record.key().1 == 6,
        record_key(record.owner, RecordType::A) == (lower_labels(record.owner.labels), 1u16),
        record_key(record.owner, RecordType::AAAA) == (lower_labels(record.owner.labels), 28u16),
        record_key(record.owner, RecordType::ANAME) == (
            lower_labels(record.owner.labels),
            65305u16,
        ),
        record_key(record.owner, RecordType::SOA) == (lower_labels(record.owner.labels), 6u16),
{
}

/// The view of a record holds its owner, its time to live and what it says.
pub proof fn law_record_view_is_faithful(record: DnsRecord)
    ensures
        record@.owner == record.owner@,
        record@.ttl == record.ttl,
        record.data is Address ==> record@.data == RecordDataView::Address(record.data->Address_0),
        record.data is Aname ==> record@.data == RecordDataView::Aname(record.data->Aname_0@),
{
}

/// The bytes of the labels that every zone has below its origin.
proof fn lemma_fixed_labels()
    ensures
        plain_name(NAME_SERVER_PREFIX@).labels == seq![
            seq![110u8, 115u8],
            seq![100u8, 110u8, 115u8],
        ],
        plain_name(HOSTMASTER_PREFIX@).labels == seq![
            seq![104u8, 111u8, 115u8, 116u8, 109u8, 97u8, 115u8, 116u8, 101u8, 114u8],
        ],
{
    reveal_strlit("ns.dns");
    reveal_strlit("hostmaster");
    reveal_with_fuel(split_on, 11);
    let server = plain_name(NAME_SERVER_PREFIX@).labels;
    assert(split_on(NAME_SERVER_PREFIX@, '.').len() == 2);
    assert(server[0] =~= seq![110u8, 115u8]);
    assert(server[1] =~= seq![100u8, 110u8, 115u8]);
    assert(server =~= seq![seq![110u8, 115u8], seq![100u8, 110u8, 115u8]]);
    let mailbox = plain_name(HOSTMASTER_PREFIX@).labels;
    assert(split_on(HOSTMASTER_PREFIX@, '.').len() == 1);
    assert(mailbox[0] =~= seq![
        104u8,
        111u8,
        115u8,
        116u8,
        109u8,
        97u8,
        115u8,
        116u8,
        101u8,
        114u8,
    ]);
    assert(mailbox =~= seq![mailbox[0]]);
}

/// Whatever the origin of a zone, its first record belongs to the origin, names the server `ns.dns`
/// and the mailbox `hostmaster` below it, both fully qualified, and gives the times and numbers with
/// which every zone starts.
pub proof fn law_zone_starts_with_its_authority(origin: NameView)
    ensures
        soa_record(origin).owner == origin,
        soa_record(origin).ttl == 0,
        soa_record(origin).data == (RecordDataView::Soa {
            mname: NameView {
                labels: seq![seq![110u8, 115u8], seq![100u8, 110u8, 115u8]] + origin.labels,
                fqdn: true,
            },
            rname: NameView {
                labels: seq![
                    seq![104u8, 111u8, 115u8, 116u8, 109u8, 97u8, 115u8, 116u8, 101u8, 114u8],
                ] + origin.labels,
                fqdn: true,
            },
            serial: 0,
            refresh: 300,
            retry: 300,
            expire: 0x7fff_ffff,
            minimum: 100,
        }),
{
    lemma_fixed_labels();
}

/// A name can be the origin of a zone exactly if its bytes and its labels together count at most
/// 244: the longest name below it, which adds one label of ten bytes, is then at most 255 long.
pub proof fn law_origins_leave_room(origin: NameView)
    ensures
        can_be_origin(origin) <==> label_bytes(origin.labels) + origin.labels.len() <= 244,
{
    lemma_fixed_labels();
    let server = plain_name(NAME_SERVER_PREFIX@).labels;
    let mailbox = plain_name(HOSTMASTER_PREFIX@).labels;
    law_name_lengths_add_up(server, origin.labels);
    law_name_lengths_add_up(mailbox, origin.labels);
    assert(label_bytes(server) == 5) by {
        reveal_with_fuel(label_bytes, 3);
    }
    assert(label_bytes(mailbox) == 10) by {
        reveal_with_fuel(label_bytes, 2);
    }
}

/// A record can be stored exactly if its owner is a name and, where it leads to another name, that is
/// one too.
pub proof fn law_valid_records(record: RecordView)
    ensures
        record.data is Aname ==> (record.valid() <==> valid_labels(record.owner.labels)
            && valid_labels(record.data->Aname_0.labels)),
        !(record.data is Aname) ==> (record.valid() <==> valid_labels(record.owner.labels)),
{
}

} // verus!
