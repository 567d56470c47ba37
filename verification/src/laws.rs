//! What holds of updates and cleanups taken together.
use crate::address::IpAddress;
use crate::apply::{
    address_step, address_steps, aname_step, aname_steps, apply_parses, apply_steps, fresh,
    previous_anames, remove_steps, ApplyStepView,
};
use crate::cleanup::{
    address_events, address_keys, aname_events, aname_keys, cleanup_events, cleanup_keys,
    entries_parse, lemma_no_address_key,
};
use crate::error::Error;
use crate::event::EventView;
use crate::names::{lower_labels, parsed_name, NameView};
use crate::parsing::{all_parse, parsed_prefix};
use crate::reconcile::{Action, ReconcileStep, RESYNC_SECONDS};
use crate::records::{
    record_key, set_records, RecordDataView, RecordKey, RecordType, RecordView,
};
use crate::service::{EntriesView, Service};
use hickory_proto::rr::RecordSet;
use vstd::prelude::*;

verus! {

/// What a zone holds: the records under each key.
pub type Zone = Map<RecordKey, Set<RecordView>>;

/// What a zone with these record sets holds.
pub open spec fn zone_of(sets: Map<RecordKey, RecordSet>) -> Zone {
    sets.map_values(|set: RecordSet| set_records(set).to_set())
}

/// The records under a key, none where the zone lacks the key.
pub open spec fn held(zone: Zone, key: RecordKey) -> Set<RecordView> {
    if zone.contains_key(key) {
        zone[key]
    } else {
        Set::empty()
    }
}

/// Whether two zones hold the same under a key.
pub open spec fn same_at(zone: Zone, other: Zone, key: RecordKey) -> bool {
    zone.contains_key(key) == other.contains_key(key) && held(zone, key) == held(other, key)
}

/// Whether one of the records says `data`.
pub open spec fn has_data(records: Set<RecordView>, data: RecordDataView) -> bool {
    exists|record: RecordView| #[trigger] records.contains(record) && record.data == data
}

/// The number of the type of CNAME records, which no other record may stand beside.
pub const CNAME_CODE: u16 = 5;

/// Whether the owner of the records under `key` has CNAME records: the zone then refuses every other
/// record of that owner.
pub open spec fn refused(zone: Zone, key: RecordKey) -> bool {
    zone.contains_key((key.0, CNAME_CODE))
}

/// The zone after a record was handed to it: beside a CNAME record nothing changes, an address is
/// added unless the owner has it already, an ANAME record takes the place of what was there, and so
/// does an SOA record unless what was there is as new.
pub open spec fn stored(zone: Zone, record: RecordView) -> Zone {
    let key = record.key();
    if refused(zone, key) {
        zone
    } else {
        match record.data {
            RecordDataView::Address(_) => if has_data(held(zone, key), record.data) {
                zone
            } else {
                zone.insert(key, held(zone, key).insert(record))
            },
            RecordDataView::Aname(_) => zone.insert(key, set![record]),
            RecordDataView::Soa { serial, .. } => if exists|other: RecordView| #[trigger]
                held(zone, key).contains(other) && !is_older(other.data, serial) {
                zone
            } else {
                zone.insert(key, set![record])
            },
        }
    }
}

/// Whether `data` is that of an SOA record with a serial number below `serial`.
pub open spec fn is_older(data: RecordDataView, serial: u32) -> bool {
    data is Soa && data->serial < serial
}

/// The zone after the steps.
pub open spec fn run_steps(zone: Zone, steps: Seq<ApplyStepView>) -> Zone
    decreases steps.len(),
{
    if steps.len() == 0 {
        zone
    } else {
        let before = run_steps(zone, steps.drop_last());
        match steps.last() {
            ApplyStepView::Upsert { record, .. } => stored(before, record),
            ApplyStepView::RemoveAname { name, .. } => before.remove(
                record_key(name, RecordType::ANAME),
            ),
        }
    }
}

/// The record of an address of `name`.
pub open spec fn address_record(name: NameView, ttl: u32, address: IpAddress) -> RecordView {
    RecordView { owner: name, ttl, data: RecordDataView::Address(address) }
}

/// The record that says that `aname` stands for `name`.
pub open spec fn aname_record(name: NameView, ttl: u32, aname: NameView) -> RecordView {
    RecordView { owner: aname, ttl, data: RecordDataView::Aname(name) }
}

/// Whether one of the addresses of `name` has its record under `key`.
pub open spec fn has_address(
    name: NameView,
    ttl: u32,
    addresses: Seq<IpAddress>,
    key: RecordKey,
) -> bool {
    exists|i: int|
        0 <= i < addresses.len() && address_record(name, ttl, #[trigger] addresses[i]).key() == key
}

/// Whether `record` is that of one of the addresses, belongs under `key` and says what none of
/// `records` says.
pub open spec fn is_new_address(
    records: Set<RecordView>,
    name: NameView,
    ttl: u32,
    addresses: Seq<IpAddress>,
    key: RecordKey,
    record: RecordView,
) -> bool {
    &&& record.key() == key
    &&& !has_data(records, record.data)
    &&& exists|i: int|
        0 <= i < addresses.len() && record == address_record(name, ttl, #[trigger] addresses[i])
}

/// `records` and those of the addresses of `name` that belong under `key` and were not there.
pub open spec fn with_addresses(
    records: Set<RecordView>,
    name: NameView,
    ttl: u32,
    addresses: Seq<IpAddress>,
    key: RecordKey,
) -> Set<RecordView> {
    Set::new(
        |record: RecordView|
            records.contains(record) || is_new_address(
                records,
                name,
                ttl,
                addresses,
                key,
                record,
            ),
    )
}

/// The key of the ANAME records of the name that `text` writes.
pub open spec fn aname_key(text: Seq<char>) -> RecordKey {
    record_key(parsed_name(text)->Ok_0, RecordType::ANAME)
}

/// Whether one of the texts writes the name of the ANAME records under `key`.
pub open spec fn writes_key(texts: Seq<Seq<char>>, key: RecordKey) -> bool {
    exists|text: Seq<char>| texts.contains(text) && #[trigger] aname_key(text) == key
}

/// The names to be added are exactly those that are there now and were not before, and each is added
/// once. (Read the other way round: the same holds of the names to be removed.)
pub proof fn law_fresh_is_difference(names: Seq<Seq<char>>, known: Seq<Seq<char>>)
    ensures
        fresh(names, known).no_duplicates(),
        forall|text: Seq<char>| #[trigger]
            fresh(names, known).contains(text) <==> names.contains(text) && !known.contains(text),
    decreases names.len(),
{
    if names.len() > 0 {
        let front = names.drop_last();
        law_fresh_is_difference(front, known);
        let rest = fresh(front, known);
        let all = fresh(names, known);
        assert forall|text: Seq<char>| #[trigger] all.contains(text) <==> names.contains(text)
            && !known.contains(text) by {
            assert(names.contains(text) <==> front.contains(text) || text == names.last()) by {
                if names.contains(text) {
                    let i = choose|i: int| 0 <= i < names.len() && names[i] == text;
                    if i < front.len() {
                        assert(front[i] == text);
                    }
                }
                if front.contains(text) {
                    let i = choose|i: int| 0 <= i < front.len() && front[i] == text;
                    assert(names[i] == text);
                }
                assert(names[names.len() - 1] == names.last());
            }
            if known.contains(names.last()) || front.contains(names.last()) {
                assert(all == rest);
                assert(rest.contains(text) <==> front.contains(text) && !known.contains(text));
            } else {
                assert(all == rest.push(names.last()));
                assert(rest.contains(text) <==> front.contains(text) && !known.contains(text));
                if all.contains(text) {
                    let i = choose|i: int| 0 <= i < all.len() && all[i] == text;
                    if i < rest.len() {
                        assert(rest[i] == text);
                    }
                }
                if rest.contains(text) {
                    let i = choose|i: int| 0 <= i < rest.len() && rest[i] == text;
                    assert(all[i] == text);
                }
                assert(all[rest.len() as int] == names.last());
            }
        }
        if !(known.contains(names.last()) || front.contains(names.last())) {
            assert(!rest.contains(names.last()));
            assert forall|i: int, j: int|
                0 <= i < all.len() && 0 <= j < all.len() && i != j implies all[i] != all[j] by {
                if i < rest.len() {
                    assert(rest.contains(rest[i]));
                }
                if j < rest.len() {
                    assert(rest.contains(rest[j]));
                }
            }
        }
    }
}

/// Where every text writes a name, the prefix is all of them.
proof fn lemma_prefix_elements(texts: Seq<Seq<char>>)
    requires
        all_parse(texts),
    ensures
        parsed_prefix(texts) == texts.map_values(|t: Seq<char>| (t, parsed_name(t)->Ok_0)),
    decreases texts.len(),
{
    let pairs = texts.map_values(|t: Seq<char>| (t, parsed_name(t)->Ok_0));
    if texts.len() == 0 {
        assert(parsed_prefix(texts) =~= pairs);
    } else {
        let front = texts.drop_last();
        assert forall|i: int| 0 <= i < front.len() implies parsed_name(
            #[trigger] front[i],
        ) is Ok by {
            assert(front[i] == texts[i]);
        }
        lemma_prefix_elements(front);
        assert(parsed_name(texts[texts.len() - 1]) is Ok);
        assert(parsed_prefix(texts) =~= pairs);
    }
}

/// The keys of texts that all write names.
proof fn lemma_aname_keys(texts: Seq<Seq<char>>)
    requires
        all_parse(texts),
    ensures
        forall|text: Seq<char>|
            texts.contains(text) ==> aname_keys(parsed_prefix(texts)).contains(
                #[trigger] aname_key(text),
            ),
        forall|key: RecordKey| #[trigger]
            aname_keys(parsed_prefix(texts)).contains(key) ==> exists|text: Seq<char>|
                texts.contains(text) && key == #[trigger] aname_key(text),
{
    lemma_prefix_elements(texts);
    let pairs = parsed_prefix(texts);
    let keys = pairs.map_values(
        |n: (Seq<char>, NameView)| record_key(n.1, RecordType::ANAME),
    );
    assert forall|text: Seq<char>| texts.contains(text) implies aname_keys(pairs).contains(
        #[trigger] aname_key(text),
    ) by {
        let i = choose|i: int| 0 <= i < texts.len() && texts[i] == text;
        assert(keys[i] == aname_key(text));
    }
    assert forall|key: RecordKey| #[trigger] aname_keys(pairs).contains(key) implies exists|
        text: Seq<char>,
    |
        texts.contains(text) && key == #[trigger] aname_key(text) by {
        let i = choose|i: int| 0 <= i < keys.len() && keys[i] == key;
        assert(texts.contains(texts[i]));
        assert(key == aname_key(texts[i]));
    }
}

/// Texts that are all among texts that write names write names.
proof fn lemma_subset_parses(some: Seq<Seq<char>>, all: Seq<Seq<char>>)
    requires
        all_parse(all),
        forall|text: Seq<char>| #[trigger] some.contains(text) ==> all.contains(text),
    ensures
        all_parse(some),
{
    assert forall|i: int| 0 <= i < some.len() implies parsed_name(#[trigger] some[i]) is Ok by {
        assert(some.contains(some[i]));
        let j = choose|j: int| 0 <= j < all.len() && all[j] == some[i];
        assert(parsed_name(all[j]) is Ok);
    }
}

/// An update that succeeds where the remembered names can be read leaves names that can be read: a
/// cleanup from memory never fails.
pub proof fn law_remembered_entries_parse(entries: EntriesView, previous: EntriesView)
    requires
        entries_parse(previous),
        apply_parses(entries, previous.anames),
    ensures
        entries_parse(entries),
{
    law_fresh_is_difference(entries.anames, previous.anames);
    let to_add = fresh(entries.anames, previous.anames);
    assert forall|i: int| 0 <= i < entries.anames.len() implies parsed_name(
        #[trigger] entries.anames[i],
    ) is Ok by {
        let text = entries.anames[i];
        assert(entries.anames.contains(text));
        if previous.anames.contains(text) {
            let j = choose|j: int| 0 <= j < previous.anames.len() && previous.anames[j] == text;
            assert(parsed_name(previous.anames[j]) is Ok);
        } else {
            assert(to_add.contains(text));
            let j = choose|j: int| 0 <= j < to_add.len() && to_add[j] == text;
            assert(parsed_name(to_add[j]) is Ok);
        }
    }
}

/// Every record that an update stores is one that a cleanup of the same names removes.
pub proof fn law_cleanup_covers_update(
    entries: EntriesView,
    previous: Seq<Seq<char>>,
    addresses: Seq<IpAddress>,
    ttl: u32,
    record: RecordView,
    event: EventView,
)
    requires
        entries_parse(entries),
        apply_steps(entries, previous, addresses, ttl).contains(
            (ApplyStepView::Upsert { record, event }),
        ),
    ensures
        cleanup_keys(entries).contains(record.key()),
        forall|sets: Map<RecordKey, RecordSet>|
            !(#[trigger] sets.remove_keys(cleanup_keys(entries))).contains_key(record.key()),
{
    let step = ApplyStepView::Upsert { record, event };
    let steps = apply_steps(entries, previous, addresses, ttl);
    let name = parsed_name(entries.a_record)->Ok_0;
    let to_add = fresh(entries.anames, previous);
    law_fresh_is_difference(entries.anames, previous);
    lemma_subset_parses(to_add, entries.anames);
    lemma_prefix_elements(to_add);
    lemma_aname_keys(entries.anames);
    let first = address_steps(name, ttl, addresses);
    let second = aname_steps(name, ttl, parsed_prefix(to_add));
    let third = remove_steps(parsed_prefix(fresh(previous, entries.anames)));
    assert(steps == first + second + third);
    let i = choose|i: int| 0 <= i < steps.len() && steps[i] == step;
    if i < first.len() {
        assert(steps[i] == first[i]);
        assert(first[i] == address_step(name, ttl, addresses[i]));
    } else if i < first.len() + second.len() {
        let j = i - first.len();
        assert(steps[i] == second[j]);
        assert(second[j] == aname_step(name, ttl, parsed_prefix(to_add)[j].1));
        assert(to_add.contains(to_add[j]));
        assert(record.key() == aname_key(to_add[j]));
    } else {
        assert(steps[i] == third[i - first.len() - second.len()]);
    }
}

/// Running some steps and then others is running all of them.
proof fn lemma_run_append(zone: Zone, some: Seq<ApplyStepView>, others: Seq<ApplyStepView>)
    ensures
        run_steps(zone, some + others) == run_steps(run_steps(zone, some), others),
    decreases others.len(),
{
    if others.len() == 0 {
        assert(some + others == some);
    } else {
        lemma_run_append(zone, some, others.drop_last());
        assert((some + others).drop_last() == some + others.drop_last());
        assert((some + others).last() == others.last());
    }
}

/// No step makes or removes a CNAME record.
proof fn lemma_run_refused(zone: Zone, steps: Seq<ApplyStepView>, key: RecordKey)
    ensures
        refused(run_steps(zone, steps), key) == refused(zone, key),
    decreases steps.len(),
{
    if steps.len() > 0 {
        lemma_run_refused(zone, steps.drop_last(), key);
        if let ApplyStepView::Upsert { record, .. } = steps.last() {
            assert(record.key().1 != CNAME_CODE);
        }
    }
}

/// Storing addresses adds those that are not there yet, and nothing else; beside a CNAME record it
/// adds nothing.
proof fn lemma_run_addresses(
    zone: Zone,
    name: NameView,
    ttl: u32,
    addresses: Seq<IpAddress>,
    key: RecordKey,
)
    ensures
        ({
            let after = run_steps(zone, address_steps(name, ttl, addresses));
            &&& refused(zone, key) ==> same_at(after, zone, key)
            &&& !refused(zone, key) ==> {
                &&& after.contains_key(key) <==> zone.contains_key(key) || has_address(
                    name,
                    ttl,
                    addresses,
                    key,
                )
                &&& held(after, key) == with_addresses(held(zone, key), name, ttl, addresses, key)
            }
        }),
    decreases addresses.len(),
{
    let steps = address_steps(name, ttl, addresses);
    let all = with_addresses(held(zone, key), name, ttl, addresses, key);
    if addresses.len() == 0 {
        assert(held(zone, key) =~= all);
    } else {
        let front = addresses.drop_last();
        let record = address_record(name, ttl, addresses.last());
        lemma_run_addresses(zone, name, ttl, front, key);
        assert(steps.drop_last() =~= address_steps(name, ttl, front));
        assert(steps.last() == address_step(name, ttl, addresses.last()));
        let before = run_steps(zone, steps.drop_last());
        let after = run_steps(zone, steps);
        lemma_run_refused(zone, steps.drop_last(), key);
        assert(after == stored(before, record));
        assert(addresses[addresses.len() - 1] == addresses.last());
        assert(has_address(name, ttl, addresses, key) <==> has_address(name, ttl, front, key)
            || record.key() == key) by {
            if has_address(name, ttl, front, key) {
                let i = choose|i: int|
                    0 <= i < front.len() && address_record(
                        name,
                        ttl,
                        #[trigger] front[i],
                    ).key() == key;
                assert(addresses[i] == front[i]);
            }
            if has_address(name, ttl, addresses, key) {
                let i = choose|i: int|
                    0 <= i < addresses.len() && address_record(
                        name,
                        ttl,
                        #[trigger] addresses[i],
                    ).key() == key;
                if i < front.len() {
                    assert(front[i] == addresses[i]);
                }
            }
        }
        let old = held(zone, key);
        assert forall|r: RecordView|
            is_new_address(old, name, ttl, addresses, key, r) <==> is_new_address(
                old,
                name,
                ttl,
                front,
                key,
                r,
            ) || (r == record && record.key() == key && !has_data(old, record.data)) by {
            if is_new_address(old, name, ttl, front, key, r) {
                let i = choose|i: int|
                    0 <= i < front.len() && r == address_record(name, ttl, #[trigger] front[i]);
                assert(addresses[i] == front[i]);
            }
            if is_new_address(old, name, ttl, addresses, key, r) {
                let i = choose|i: int|
                    0 <= i < addresses.len() && r == address_record(
                        name,
                        ttl,
                        #[trigger] addresses[i],
                    );
                if i < front.len() {
                    assert(front[i] == addresses[i]);
                }
            }
        }
        let between = held(before, key);
        if record.key() == key {
            if has_data(between, record.data) {
                let r = choose|r: RecordView| #[trigger]
                    between.contains(r) && r.data == record.data;
                assert(old.contains(r) || r == record);
            } else if has_data(old, record.data) {
                let r = choose|r: RecordView| #[trigger]
                    old.contains(r) && r.data == record.data;
                assert(between.contains(r));
            }
        }
        if !refused(zone, key) {
            assert(held(after, key) =~= all);
        }
    }
}

/// Whether one of the names has its ANAME records under `key`.
spec fn names_key(names: Seq<(Seq<char>, NameView)>, key: RecordKey) -> bool {
    exists|i: int|
        0 <= i < names.len() && record_key((#[trigger] names[i]).1, RecordType::ANAME) == key
}

/// One name more has its records under one key more.
proof fn lemma_names_key(names: Seq<(Seq<char>, NameView)>, key: RecordKey)
    requires
        names.len() > 0,
    ensures
        names_key(names, key) <==> names_key(names.drop_last(), key) || record_key(
            names.last().1,
            RecordType::ANAME,
        ) == key,
{
    let front = names.drop_last();
    if names_key(front, key) {
        let i = choose|i: int|
            0 <= i < front.len() && record_key((#[trigger] front[i]).1, RecordType::ANAME) == key;
        assert(names[i] == front[i]);
    }
    if names_key(names, key) {
        let i = choose|i: int|
            0 <= i < names.len() && record_key((#[trigger] names[i]).1, RecordType::ANAME) == key;
        if i < front.len() {
            assert(front[i] == names[i]);
        }
    }
    assert(names[names.len() - 1] == names.last());
}

/// Storing names leaves each of their keys with the record of one of them, but for those beside a
/// CNAME record, and every other key alone.
proof fn lemma_run_anames(
    zone: Zone,
    name: NameView,
    ttl: u32,
    anames: Seq<(Seq<char>, NameView)>,
    key: RecordKey,
)
    ensures
        ({
            let after = run_steps(zone, aname_steps(name, ttl, anames));
            &&& names_key(anames, key) && !refused(zone, key) ==> after.contains_key(key)
                && exists|i: int|
                0 <= i < anames.len() && record_key(
                    (#[trigger] anames[i]).1,
                    RecordType::ANAME,
                ) == key && after[key] == set![aname_record(name, ttl, anames[i].1)]
            &&& !names_key(anames, key) || refused(zone, key) ==> same_at(after, zone, key)
        }),
    decreases anames.len(),
{
    let steps = aname_steps(name, ttl, anames);
    if anames.len() > 0 {
        let front = anames.drop_last();
        lemma_run_anames(zone, name, ttl, front, key);
        lemma_names_key(anames, key);
        assert(steps.drop_last() =~= aname_steps(name, ttl, front));
        assert(steps.last() == aname_step(name, ttl, anames.last().1));
        let before = run_steps(zone, steps.drop_last());
        let record = aname_record(name, ttl, anames.last().1);
        let after = run_steps(zone, steps);
        lemma_run_refused(zone, steps.drop_last(), key);
        assert(after == stored(before, record));
        if refused(zone, key) {
            assert(same_at(after, before, key));
        } else if record.key() == key {
            assert(anames[anames.len() - 1] == anames.last());
        } else if names_key(front, key) {
            let i = choose|i: int|
                0 <= i < front.len() && record_key((#[trigger] front[i]).1, RecordType::ANAME)
                    == key && before[key] == set![aname_record(name, ttl, front[i].1)];
            assert(anames[i] == front[i]);
        }
    }
}

/// Removing names takes their keys away, and leaves every other key alone.
proof fn lemma_run_removals(zone: Zone, anames: Seq<(Seq<char>, NameView)>, key: RecordKey)
    ensures
        ({
            let after = run_steps(zone, remove_steps(anames));
            &&& names_key(anames, key) ==> !after.contains_key(key)
            &&& !names_key(anames, key) ==> same_at(after, zone, key)
        }),
    decreases anames.len(),
{
    let steps = remove_steps(anames);
    if anames.len() > 0 {
        let front = anames.drop_last();
        lemma_run_removals(zone, front, key);
        lemma_names_key(anames, key);
        assert(steps.drop_last() =~= remove_steps(front));
        assert(steps.last() == (ApplyStepView::RemoveAname {
            text: anames.last().0,
            name: anames.last().1,
        }));
    }
}

/// Texts that all write names write the keys of those names.
proof fn lemma_writes_key(texts: Seq<Seq<char>>, key: RecordKey)
    requires
        all_parse(texts),
    ensures
        writes_key(texts, key) <==> names_key(parsed_prefix(texts), key),
{
    lemma_prefix_elements(texts);
    let names = parsed_prefix(texts);
    if writes_key(texts, key) {
        let text = choose|text: Seq<char>| texts.contains(text) && #[trigger] aname_key(text) == key;
        let i = choose|i: int| 0 <= i < texts.len() && texts[i] == text;
        assert(names[i].1 == parsed_name(text)->Ok_0);
    }
    if names_key(names, key) {
        let i = choose|i: int|
            0 <= i < names.len() && record_key((#[trigger] names[i]).1, RecordType::ANAME) == key;
        assert(texts.contains(texts[i]));
        assert(aname_key(texts[i]) == key);
    }
}

/// No address has its record under the key of a name's ANAME records.
proof fn lemma_address_is_no_aname(
    name: NameView,
    ttl: u32,
    address: IpAddress,
    texts: Seq<Seq<char>>,
)
    ensures
        !writes_key(texts, address_record(name, ttl, address).key()),
{
    let key = address_record(name, ttl, address).key();
    assert(key.1 != RecordType::ANAME.code());
}

/// What every key holds after an update that succeeds. The key of a name that is taken away is gone.
/// Beside a CNAME record nothing else changes. The key of a name that is new holds one record alone,
/// which leads to the domain name and belongs to a new name under that key. Any other key holds what
/// it held and the addresses that belong under it and were not there.
pub proof fn law_zone_after_update(
    zone: Zone,
    entries: EntriesView,
    previous: Seq<Seq<char>>,
    addresses: Seq<IpAddress>,
    ttl: u32,
    key: RecordKey,
)
    requires
        apply_parses(entries, previous),
    ensures
        ({
            let name = parsed_name(entries.a_record)->Ok_0;
            let to_add = fresh(entries.anames, previous);
            let to_remove = fresh(previous, entries.anames);
            let after = run_steps(zone, apply_steps(entries, previous, addresses, ttl));
            if writes_key(to_remove, key) {
                !after.contains_key(key)
            } else if refused(zone, key) {
                same_at(after, zone, key)
            } else if writes_key(to_add, key) {
                &&& after.contains_key(key)
                &&& exists|text: Seq<char>|
                    to_add.contains(text) && #[trigger] aname_key(text) == key && after[key]
                        == set![aname_record(name, ttl, parsed_name(text)->Ok_0)]
            } else {
                &&& after.contains_key(key) <==> zone.contains_key(key) || has_address(
                    name,
                    ttl,
                    addresses,
                    key,
                )
                &&& held(after, key) == with_addresses(held(zone, key), name, ttl, addresses, key)
            }
        }),
{
    let name = parsed_name(entries.a_record)->Ok_0;
    let to_add = fresh(entries.anames, previous);
    let to_remove = fresh(previous, entries.anames);
    let first = address_steps(name, ttl, addresses);
    let second = aname_steps(name, ttl, parsed_prefix(to_add));
    let third = remove_steps(parsed_prefix(to_remove));
    lemma_run_append(zone, first + second, third);
    lemma_run_append(zone, first, second);
    let one = run_steps(zone, first);
    let two = run_steps(one, second);
    lemma_run_refused(zone, first, key);
    lemma_run_addresses(zone, name, ttl, addresses, key);
    lemma_run_anames(one, name, ttl, parsed_prefix(to_add), key);
    lemma_run_removals(two, parsed_prefix(to_remove), key);
    lemma_writes_key(to_add, key);
    lemma_writes_key(to_remove, key);
    lemma_prefix_elements(to_add);
    if !writes_key(to_remove, key) && !refused(zone, key) && writes_key(to_add, key) {
        let names = parsed_prefix(to_add);
        let i = choose|i: int|
            0 <= i < names.len() && record_key((#[trigger] names[i]).1, RecordType::ANAME) == key
                && two[key] == set![aname_record(name, ttl, names[i].1)];
        assert(to_add.contains(to_add[i]));
        assert(aname_key(to_add[i]) == key);
    }
}

/// Whether every name that is remembered can be read.
pub open spec fn memory_parses(domains: Map<Seq<char>, EntriesView>) -> bool {
    forall|service: Seq<char>| #[trigger]
        domains.contains_key(service) ==> entries_parse(domains[service])
}

/// Whether every key with records is either one of the `fixed` keys or one that the cleanup of a
/// remembered service takes out.
pub open spec fn accounted(
    keys: Set<RecordKey>,
    fixed: Set<RecordKey>,
    domains: Map<Seq<char>, EntriesView>,
) -> bool {
    forall|key: RecordKey| #[trigger]
        keys.contains(key) ==> fixed.contains(key) || exists|service: Seq<char>| #[trigger]
            domains.contains_key(service) && cleanup_keys(domains[service]).contains(key)
}

/// Whether two texts write names that have the same address records.
pub open spec fn same_owner(text: Seq<char>, other: Seq<char>) -> bool {
    lower_labels((parsed_name(text)->Ok_0).labels) == lower_labels((parsed_name(other)->Ok_0).labels)
}

/// An update that succeeds leaves no record behind that no cleanup would find, if the domain name of
/// the service is still the one that was remembered; and what is then remembered can be read.
pub proof fn law_update_keeps_zone_accounted(
    domains: Map<Seq<char>, EntriesView>,
    service: Seq<char>,
    entries: EntriesView,
    addresses: Seq<IpAddress>,
    ttl: u32,
    zone: Zone,
    fixed: Set<RecordKey>,
)
    requires
        memory_parses(domains),
        accounted(zone.dom(), fixed, domains),
        apply_parses(entries, previous_anames(domains, service)),
        domains.contains_key(service) ==> same_owner(entries.a_record, domains[service].a_record),
    ensures
        accounted(
            run_steps(
                zone,
                apply_steps(entries, previous_anames(domains, service), addresses, ttl),
            ).dom(),
            fixed,
            domains.insert(service, entries),
        ),
        memory_parses(domains.insert(service, entries)),
{
    let previous = previous_anames(domains, service);
    let steps = apply_steps(entries, previous, addresses, ttl);
    let after = domains.insert(service, entries);
    let name = parsed_name(entries.a_record)->Ok_0;
    let before = EntriesView { a_record: entries.a_record, anames: previous };
    law_remembered_entries_parse(entries, before);
    law_fresh_is_difference(entries.anames, previous);
    law_fresh_is_difference(previous, entries.anames);
    lemma_aname_keys(entries.anames);
    assert forall|key: RecordKey| #[trigger] run_steps(zone, steps).dom().contains(key) implies
        fixed.contains(key) || exists|s: Seq<char>| #[trigger]
        after.contains_key(s) && cleanup_keys(after[s]).contains(key) by {
        law_zone_after_update(zone, entries, previous, addresses, ttl, key);
        assert(after.contains_key(service));
        assert(after[service] == entries);
        if has_address(name, ttl, addresses, key) {
            assert(cleanup_keys(entries).contains(key));
        } else if writes_key(fresh(entries.anames, previous), key) {
            assert(cleanup_keys(entries).contains(key));
        } else if !fixed.contains(key) {
            assert(zone.dom().contains(key));
            let s = choose|s: Seq<char>| #[trigger]
                domains.contains_key(s) && cleanup_keys(domains[s]).contains(key);
            if s == service {
                lemma_aname_keys(previous);
                if aname_keys(parsed_prefix(previous)).contains(key) {
                    let text = choose|text: Seq<char>|
                        previous.contains(text) && key == #[trigger] aname_key(text);
                    assert(entries.anames.contains(text)) by {
                        if !entries.anames.contains(text) {
                            assert(fresh(previous, entries.anames).contains(text));
                        }
                    }
                }
                assert(cleanup_keys(entries).contains(key));
            } else {
                assert(after.contains_key(s));
                assert(after[s] == domains[s]);
            }
        }
    }
    assert forall|s: Seq<char>| #[trigger] after.contains_key(s) implies entries_parse(
        after[s],
    ) by {
        if s != service {
            assert(domains.contains_key(s));
        }
    }
}

/// What is remembered after a cleanup of `entries`: nothing of the service, unless one of the names
/// could not be read.
pub open spec fn memory_after_cleanup(
    domains: Map<Seq<char>, EntriesView>,
    service: Seq<char>,
    entries: EntriesView,
) -> Map<Seq<char>, EntriesView> {
    if entries_parse(entries) {
        domains.remove(service)
    } else {
        domains
    }
}

/// A cleanup leaves no record behind that no later cleanup would find, if it goes by the names that
/// were remembered for the service, or none were.
pub proof fn law_cleanup_keeps_zone_accounted(
    service: &Service,
    domains: Map<Seq<char>, EntriesView>,
    entries: EntriesView,
    keys: Set<RecordKey>,
    fixed: Set<RecordKey>,
)
    requires
        memory_parses(domains),
        accounted(keys, fixed, domains),
        service.cleanup_entries(domains) == Some(entries),
        domains.contains_key(service.lb_name()) ==> domains[service.lb_name()] == entries,
    ensures
        accounted(
            keys.difference(cleanup_keys(entries)),
            fixed,
            memory_after_cleanup(domains, service.lb_name(), entries),
        ),
        memory_parses(memory_after_cleanup(domains, service.lb_name(), entries)),
{
    let rest = keys.difference(cleanup_keys(entries));
    let after = memory_after_cleanup(domains, service.lb_name(), entries);
    assert forall|key: RecordKey| #[trigger] rest.contains(key) implies fixed.contains(key)
        || exists|s: Seq<char>| #[trigger]
        after.contains_key(s) && cleanup_keys(after[s]).contains(key) by {
        assert(keys.contains(key));
        if !fixed.contains(key) {
            let s = choose|s: Seq<char>| #[trigger]
                domains.contains_key(s) && cleanup_keys(domains[s]).contains(key);
            assert(s != service.lb_name());
            assert(after.contains_key(s));
            assert(after[s] == domains[s]);
        }
    }
    assert forall|s: Seq<char>| #[trigger] after.contains_key(s) implies entries_parse(
        after[s],
    ) by {
        assert(domains.contains_key(s));
    }
}

/// After an update that succeeds every address has its record, provided that the domain name has no
/// CNAME record: what was under the key is still there, and each address that was not is added, with
/// the time to live of the update.
pub proof fn law_update_stores_addresses(
    zone: Zone,
    entries: EntriesView,
    previous: Seq<Seq<char>>,
    addresses: Seq<IpAddress>,
    ttl: u32,
    i: int,
)
    requires
        apply_parses(entries, previous),
        0 <= i < addresses.len(),
        !refused(
            zone,
            address_record(parsed_name(entries.a_record)->Ok_0, ttl, addresses[i]).key(),
        ),
    ensures
        ({
            let name = parsed_name(entries.a_record)->Ok_0;
            let key = address_record(name, ttl, addresses[i]).key();
            let after = run_steps(zone, apply_steps(entries, previous, addresses, ttl));
            &&& after.contains_key(key)
            &&& after[key] == with_addresses(held(zone, key), name, ttl, addresses, key)
            &&& has_data(after[key], RecordDataView::Address(addresses[i]))
        }),
{
    let name = parsed_name(entries.a_record)->Ok_0;
    let record = address_record(name, ttl, addresses[i]);
    let key = record.key();
    let after = run_steps(zone, apply_steps(entries, previous, addresses, ttl));
    law_zone_after_update(zone, entries, previous, addresses, ttl, key);
    lemma_address_is_no_aname(name, ttl, addresses[i], fresh(entries.anames, previous));
    lemma_address_is_no_aname(name, ttl, addresses[i], fresh(previous, entries.anames));
    assert(has_address(name, ttl, addresses, key));
    let old = held(zone, key);
    if has_data(old, record.data) {
        let r = choose|r: RecordView| #[trigger] old.contains(r) && r.data == record.data;
        assert(after[key].contains(r));
    } else {
        assert(is_new_address(old, name, ttl, addresses, key, record));
        assert(after[key].contains(record));
    }
}

/// After an update that succeeds every further name has its record, provided that it had one before if
/// it was remembered, that it does not differ from a name that is taken away in writing only, and that
/// it has no CNAME record. The key of a name that is new holds one record alone, which leads to the
/// domain name and belongs to that name or to one that differs from it in writing only; any other key
/// holds what it held.
pub proof fn law_update_stores_names(
    zone: Zone,
    entries: EntriesView,
    previous: Seq<Seq<char>>,
    addresses: Seq<IpAddress>,
    ttl: u32,
    text: Seq<char>,
)
    requires
        apply_parses(entries, previous),
        entries.anames.contains(text),
        previous.contains(text) ==> zone.contains_key(aname_key(text)),
        !refused(zone, aname_key(text)),
        forall|gone: Seq<char>|
            previous.contains(gone) && !entries.anames.contains(gone) ==> #[trigger] aname_key(gone)
                != aname_key(text),
    ensures
        ({
            let name = parsed_name(entries.a_record)->Ok_0;
            let key = aname_key(text);
            let after = run_steps(zone, apply_steps(entries, previous, addresses, ttl));
            &&& after.contains_key(key)
            &&& writes_key(fresh(entries.anames, previous), key) ==> exists|other: Seq<char>|
                fresh(entries.anames, previous).contains(other) && #[trigger] aname_key(other)
                    == key && after[key] == set![
                    aname_record(name, ttl, parsed_name(other)->Ok_0),
                ]
            &&& !writes_key(fresh(entries.anames, previous), key) ==> after[key] == zone[key]
        }),
{
    let name = parsed_name(entries.a_record)->Ok_0;
    let key = aname_key(text);
    let after = run_steps(zone, apply_steps(entries, previous, addresses, ttl));
    law_fresh_is_difference(entries.anames, previous);
    law_fresh_is_difference(previous, entries.anames);
    law_zone_after_update(zone, entries, previous, addresses, ttl, key);
    if !previous.contains(text) {
        assert(fresh(entries.anames, previous).contains(text));
        assert(writes_key(fresh(entries.anames, previous), key));
    }
    if !writes_key(fresh(entries.anames, previous), key) {
        lemma_other_key_unchanged(held(zone, key), name, ttl, addresses, key);
    }
}

/// A key that none of the addresses belongs under gets no record from them.
proof fn lemma_other_key_unchanged(
    records: Set<RecordView>,
    name: NameView,
    ttl: u32,
    addresses: Seq<IpAddress>,
    key: RecordKey,
)
    requires
        !address_keys(name).contains(key),
    ensures
        !has_address(name, ttl, addresses, key),
        with_addresses(records, name, ttl, addresses, key) == records,
{
    assert forall|i: int| 0 <= i < addresses.len() implies address_record(
        name,
        ttl,
        #[trigger] addresses[i],
    ).key() != key by {
        assert(address_keys(name).contains(address_record(name, ttl, addresses[i]).key()));
    }
    assert(with_addresses(records, name, ttl, addresses, key) =~= records);
}

/// After an update that succeeds no name has a record that the service had and has no more.
pub proof fn law_update_removes_names(
    zone: Zone,
    entries: EntriesView,
    previous: Seq<Seq<char>>,
    addresses: Seq<IpAddress>,
    ttl: u32,
    gone: Seq<char>,
)
    requires
        apply_parses(entries, previous),
        previous.contains(gone),
        !entries.anames.contains(gone),
    ensures
        !run_steps(zone, apply_steps(entries, previous, addresses, ttl)).contains_key(
            aname_key(gone),
        ),
{
    law_fresh_is_difference(previous, entries.anames);
    law_zone_after_update(zone, entries, previous, addresses, ttl, aname_key(gone));
    assert(fresh(previous, entries.anames).contains(gone));
}

/// An update that succeeds changes nothing but under the keys of the names that the service has or
/// had.
pub proof fn law_update_touches_own_names(
    zone: Zone,
    entries: EntriesView,
    previous: Seq<Seq<char>>,
    addresses: Seq<IpAddress>,
    ttl: u32,
    key: RecordKey,
)
    requires
        apply_parses(entries, previous),
        key.1 == 1 || key.1 == 28 ==> key.0 != lower_labels(
            (parsed_name(entries.a_record)->Ok_0).labels,
        ),
        forall|text: Seq<char>|
            entries.anames.contains(text) || previous.contains(text) ==> #[trigger] aname_key(text)
                != key,
    ensures
        same_at(run_steps(zone, apply_steps(entries, previous, addresses, ttl)), zone, key),
{
    law_fresh_is_difference(entries.anames, previous);
    law_fresh_is_difference(previous, entries.anames);
    law_zone_after_update(zone, entries, previous, addresses, ttl, key);
    lemma_other_key_unchanged(
        held(zone, key),
        parsed_name(entries.a_record)->Ok_0,
        ttl,
        addresses,
        key,
    );
}

/// Once an update is remembered, the next update of the same names only stores the addresses again,
/// and the zone holds what it held.
pub proof fn law_update_settles(
    domains: Map<Seq<char>, EntriesView>,
    service: Seq<char>,
    entries: EntriesView,
    addresses: Seq<IpAddress>,
    ttl: u32,
    zone: Zone,
)
    requires
        apply_parses(entries, previous_anames(domains, service)),
    ensures
        ({
            let first = apply_steps(entries, previous_anames(domains, service), addresses, ttl);
            let again = apply_steps(
                entries,
                previous_anames(domains.insert(service, entries), service),
                addresses,
                ttl,
            );
            &&& again == address_steps(parsed_name(entries.a_record)->Ok_0, ttl, addresses)
            &&& run_steps(run_steps(zone, first), again) == run_steps(zone, first)
        }),
{
    let previous = previous_anames(domains, service);
    let name = parsed_name(entries.a_record)->Ok_0;
    let first = apply_steps(entries, previous, addresses, ttl);
    let again = apply_steps(entries, entries.anames, addresses, ttl);
    let none = fresh(entries.anames, entries.anames);
    assert(previous_anames(domains.insert(service, entries), service) == entries.anames);
    law_fresh_is_difference(entries.anames, entries.anames);
    assert(none.len() == 0) by {
        if none.len() > 0 {
            assert(none.contains(none[0]));
        }
    }
    assert(parsed_prefix(none).len() == 0);
    assert(again =~= address_steps(name, ttl, addresses));
    let once = run_steps(zone, first);
    let twice = run_steps(once, again);
    assert forall|key: RecordKey| #[trigger] same_at(twice, once, key) by {
        lemma_run_addresses(once, name, ttl, addresses, key);
        lemma_run_refused(zone, first, key);
        assert forall|r: RecordView|
            !refused(zone, key) implies !is_new_address(held(once, key), name, ttl, addresses, key, r) by {
            if is_new_address(held(once, key), name, ttl, addresses, key, r) {
                let i = choose|i: int|
                    0 <= i < addresses.len() && r == address_record(
                        name,
                        ttl,
                        #[trigger] addresses[i],
                    );
                law_update_stores_addresses(zone, entries, previous, addresses, ttl, i);
            }
        }
        assert(held(twice, key) =~= held(once, key));
        if !refused(zone, key) && has_address(name, ttl, addresses, key) {
            let i = choose|i: int|
                0 <= i < addresses.len() && address_record(
                    name,
                    ttl,
                    #[trigger] addresses[i],
                ).key() == key;
            law_update_stores_addresses(zone, entries, previous, addresses, ttl, i);
        }
    }
    lemma_same_zone(twice, once);
}

/// Zones with the same keys and the same records under each are the same.
proof fn lemma_same_zone(zone: Zone, other: Zone)
    requires
        forall|key: RecordKey| #[trigger] same_at(zone, other, key),
    ensures
        zone == other,
{
    assert forall|key: RecordKey| #[trigger] zone.contains_key(key) == other.contains_key(key)
        && (zone.contains_key(key) ==> zone[key] == other[key]) by {
        assert(same_at(zone, other, key));
    }
    assert(zone =~= other);
}

/// A cleanup takes the zone back to what it held before the first update of a service, but for
/// records that had the service's own names already; and the record sets that a cleanup leaves hold
/// just that.
pub proof fn law_cleanup_undoes_first_update(
    zone: Zone,
    entries: EntriesView,
    addresses: Seq<IpAddress>,
    ttl: u32,
    sets: Map<RecordKey, RecordSet>,
)
    requires
        entries_parse(entries),
    ensures
        ({
            let after = run_steps(zone, apply_steps(entries, Seq::empty(), addresses, ttl));
            let keys = cleanup_keys(entries);
            &&& after.remove_keys(keys) == zone.remove_keys(keys)
            &&& zone_of(sets) == after ==> zone_of(sets.remove_keys(keys)) == zone.remove_keys(keys)
        }),
{
    let none = Seq::<Seq<char>>::empty();
    let name = parsed_name(entries.a_record)->Ok_0;
    let keys = cleanup_keys(entries);
    law_fresh_is_difference(entries.anames, none);
    lemma_subset_parses(fresh(entries.anames, none), entries.anames);
    lemma_aname_keys(entries.anames);
    let after = run_steps(zone, apply_steps(entries, none, addresses, ttl));
    let left = after.remove_keys(keys);
    let start = zone.remove_keys(keys);
    assert forall|key: RecordKey| #[trigger] same_at(left, start, key) by {
        if !keys.contains(key) {
            law_zone_after_update(zone, entries, none, addresses, ttl, key);
            lemma_other_key_unchanged(held(zone, key), name, ttl, addresses, key);
            assert(held(after, key) == held(zone, key));
        }
    }
    lemma_same_zone(left, start);
    if zone_of(sets) == after {
        assert(zone_of(sets.remove_keys(keys)) =~= zone_of(sets).remove_keys(keys));
    }
}

/// Names without ANAME records give no events.
proof fn lemma_no_aname_events(sets: Map<RecordKey, RecordSet>, names: Seq<(Seq<char>, NameView)>)
    requires
        forall|i: int|
            0 <= i < names.len() ==> !sets.contains_key(
                record_key((#[trigger] names[i]).1, RecordType::ANAME),
            ),
    ensures
        aname_events(sets, names) == Seq::<EventView>::empty(),
    decreases names.len(),
{
    if names.len() > 0 {
        let front = names.drop_last();
        assert forall|i: int| 0 <= i < front.len() implies !sets.contains_key(
            record_key((#[trigger] front[i]).1, RecordType::ANAME),
        ) by {
            assert(front[i] == names[i]);
        }
        lemma_no_aname_events(sets, front);
        assert(!sets.contains_key(record_key(names[names.len() - 1].1, RecordType::ANAME)));
    }
}

/// A second cleanup of the same names finds nothing: it changes nothing and reports nothing.
pub proof fn law_cleanup_is_idempotent(sets: Map<RecordKey, RecordSet>, entries: EntriesView)
    ensures
        sets.remove_keys(cleanup_keys(entries)).remove_keys(cleanup_keys(entries))
            == sets.remove_keys(cleanup_keys(entries)),
        cleanup_events(sets.remove_keys(cleanup_keys(entries)), entries)
            == Seq::<EventView>::empty(),
{
    let rest = sets.remove_keys(cleanup_keys(entries));
    let names = parsed_prefix(entries.anames);
    let keys = names.map_values(
        |n: (Seq<char>, NameView)| record_key(n.1, RecordType::ANAME),
    );
    assert(rest.remove_keys(cleanup_keys(entries)) =~= rest);
    assert forall|i: int| 0 <= i < names.len() implies !rest.contains_key(
        record_key((#[trigger] names[i]).1, RecordType::ANAME),
    ) by {
        assert(keys[i] == record_key(names[i].1, RecordType::ANAME));
        assert(aname_keys(names).contains(keys[i]));
    }
    lemma_no_aname_events(rest, names);
    if entries_parse(entries) {
        let name = parsed_name(entries.a_record)->Ok_0;
        assert(address_keys(name).contains(record_key(name, RecordType::A)));
        assert(address_keys(name).contains(record_key(name, RecordType::AAAA)));
        assert(address_events(rest, name) =~= Seq::<EventView>::empty());
    }
    assert(cleanup_events(rest, entries) =~= Seq::<EventView>::empty());
}

/// The further names go first: a cleanup that fails on the way has removed no address that one of
/// them leads to.
pub proof fn law_failed_cleanup_keeps_addresses(
    sets: Map<RecordKey, RecordSet>,
    entries: EntriesView,
    name: NameView,
)
    requires
        !entries_parse(entries),
    ensures
        forall|key: RecordKey| #[trigger]
            address_keys(name).contains(key) && sets.contains_key(key) ==> sets.remove_keys(
                cleanup_keys(entries),
            ).contains_key(key),
{
    lemma_no_address_key(parsed_prefix(entries.anames), name);
}

/// When the annotation of a service goes away after an update, the service is cleaned up early, after
/// the names of that update; once they are forgotten, the service is ignored.
pub proof fn law_removed_annotation_is_cleaned_up(
    service: &Service,
    domains: Map<Seq<char>, EntriesView>,
    entries: EntriesView,
)
    requires
        service.metadata.name is Some,
        service.metadata.namespace is Some,
        service.is_load_balancer(),
        service.entries() is None,
    ensures
        ({
            let updated = domains.insert(service.lb_name(), entries);
            let forgotten = updated.remove(service.lb_name());
            &&& service.decision(updated) == Ok::<_, Error>(ReconcileStep::EarlyCleanup)
            &&& service.cleanup_entries(updated) == Some(entries)
            &&& service.decision(forgotten) == Ok::<_, Error>(
                ReconcileStep::Ignore(Action::Requeue(RESYNC_SECONDS)),
            )
            &&& service.cleanup_entries(forgotten) is None
        }),
{
}

} // verus!
