//! Removing the records of a service.
use crate::error::Error;
use crate::event::{event_view, event_views, removed, Event, EventView};
use crate::names::{lower_labels, name_text, parsed_name, DomainName, NameView};
use crate::parsing::{
    all_parse, all_valid, law_reading_stops_at_the_first_error, name_error, parse_error, parse_names,
    parsed_prefix, parsed_views, ParsedName,
};
use crate::patch::{is_finalizer_removal, remove_finalizer, FinalizerPatch};
use crate::reconcile::{lb_name, Action};
use crate::records::{record_key, remove_records, zone_sets, RecordKey, RecordType};
use crate::service::{get_hld_annotation, EntriesView, Service};
use crate::state::{remembered, ReconcilerState};
use hickory_proto::rr::{RecordSet, RrKey};
use kube::Error as KubeError;
use std::collections::BTreeMap;
use std::sync::Arc;
use vstd::prelude::*;

verus! {

impl Service {
    /// The names to clean up after: those of the annotations, or else the last ones remembered.
    pub open spec fn cleanup_entries(&self, domains: Map<Seq<char>, EntriesView>) -> Option<
        EntriesView,
    > {
        if self.entries() is Some {
            self.entries()
        } else {
            remembered(domains, self.lb_name())
        }
    }
}

/// The keys of the ANAME records of the names.
pub open spec fn aname_keys(names: Seq<(Seq<char>, NameView)>) -> Set<RecordKey> {
    names.map_values(|n: (Seq<char>, NameView)| record_key(n.1, RecordType::ANAME)).to_set()
}

/// The keys of the address records of a name.
pub open spec fn address_keys(name: NameView) -> Set<RecordKey> {
    set![record_key(name, RecordType::A), record_key(name, RecordType::AAAA)]
}

/// The events of taking out the ANAME records of the names in order: one for each name that still
/// has such records when its turn comes.
pub open spec fn aname_events(
    sets: Map<RecordKey, RecordSet>,
    names: Seq<(Seq<char>, NameView)>,
) -> Seq<EventView>
    decreases names.len(),
{
    if names.len() == 0 {
        Seq::empty()
    } else {
        let front = names.drop_last();
        let key = record_key(names.last().1, RecordType::ANAME);
        if sets.contains_key(key) && !aname_keys(front).contains(key) {
            aname_events(sets, front).push(removed(names.last().0))
        } else {
            aname_events(sets, front)
        }
    }
}

/// The event of taking out the records of a type that `name` has, if it has any.
pub open spec fn address_event(
    sets: Map<RecordKey, RecordSet>,
    name: NameView,
    record_type: RecordType,
) -> Seq<EventView> {
    if sets.contains_key(record_key(name, record_type)) {
        seq![removed(name_text(name))]
    } else {
        Seq::empty()
    }
}

/// The events of taking out the address records of `name`: A records first.
pub open spec fn address_events(sets: Map<RecordKey, RecordSet>, name: NameView) -> Seq<EventView> {
    address_event(sets, name, RecordType::A) + address_event(sets, name, RecordType::AAAA)
}

/// Whether all the texts write names.
pub open spec fn entries_parse(entries: EntriesView) -> bool {
    all_parse(entries.anames) && parsed_name(entries.a_record) is Ok
}

/// The error of a cleanup: that of the first text that writes no name, the further names first.
pub open spec fn entries_error(entries: EntriesView) -> Option<Error> {
    if !all_parse(entries.anames) {
        parse_error(entries.anames)
    } else if parsed_name(entries.a_record) is Err {
        Some(name_error(entries.a_record))
    } else {
        None
    }
}

/// The keys whose records a cleanup takes out: those of the further names up to the first text that
/// writes no name, and those of the domain name if all the texts write names.
pub open spec fn cleanup_keys(entries: EntriesView) -> Set<RecordKey> {
    if entries_parse(entries) {
        aname_keys(parsed_prefix(entries.anames)).union(
            address_keys(parsed_name(entries.a_record)->Ok_0),
        )
    } else {
        aname_keys(parsed_prefix(entries.anames))
    }
}

/// The events of a cleanup: those of the further names, then those of the domain name.
pub open spec fn cleanup_events(
    sets: Map<RecordKey, RecordSet>,
    entries: EntriesView,
) -> Seq<EventView> {
    if entries_parse(entries) {
        aname_events(sets, parsed_prefix(entries.anames)) + address_events(
            sets,
            parsed_name(entries.a_record)->Ok_0,
        )
    } else {
        aname_events(sets, parsed_prefix(entries.anames))
    }
}

/// What a cleanup has done.
pub struct CleanupReport {
    /// What is to be published, the first event first.
    pub events: Vec<Event>,
    pub outcome: Result<Action, Error>,
}

/// Pushing an event pushes its content.
proof fn lemma_event_views_push(events: Seq<Event>, event: Event)
    ensures
        event_views(events.push(event)) == event_views(events).push(event@),
{
    assert(event_views(events.push(event)) =~= event_views(events).push(event@));
}

/// The keys of one name more.
proof fn lemma_aname_keys_push(names: Seq<(Seq<char>, NameView)>, name: (Seq<char>, NameView))
    ensures
        aname_keys(names.push(name)) == aname_keys(names).insert(
            record_key(name.1, RecordType::ANAME),
        ),
{
    let f = |n: (Seq<char>, NameView)| record_key(n.1, RecordType::ANAME);
    let keys = names.map_values(f);
    let more = names.push(name).map_values(f);
    assert(more == keys.push(f(name)));
    assert forall|k: RecordKey| more.to_set().contains(k) <==> keys.to_set().insert(
        f(name),
    ).contains(k) by {
        if more.contains(k) {
            let i = choose|i: int| 0 <= i < more.len() && more[i] == k;
            if i < keys.len() {
                assert(keys[i] == k);
            }
        }
        if keys.contains(k) {
            let i = choose|i: int| 0 <= i < keys.len() && keys[i] == k;
            assert(more[i] == k);
        }
        assert(more[keys.len() as int] == f(name));
    }
    assert(more.to_set() =~= keys.to_set().insert(f(name)));
}

/// Takes the ANAME records of a name out of the table, and gives the event if there were any.
pub fn remove_aname(table: &mut BTreeMap<RrKey, Arc<RecordSet>>, aname: &ParsedName) -> (r: Option<
    Event,
>)
    requires
        aname.name@.valid(),
    ensures
        zone_sets(*final(table)) == zone_sets(*old(table)).remove(
            record_key(aname.name@, RecordType::ANAME),
        ),
        event_view(r) == if zone_sets(*old(table)).contains_key(
            record_key(aname.name@, RecordType::ANAME),
        ) {
            Some(removed(aname.text@))
        } else {
            None
        },
{
    if remove_records(table, &aname.name, RecordType::ANAME) {
        Some(Event::removed(aname.text.as_str()))
    } else {
        None
    }
}

/// Takes the ANAME records of the names out of the table, and gives the events.
pub fn remove_anames(table: &mut BTreeMap<RrKey, Arc<RecordSet>>, anames: &Vec<ParsedName>) -> (r:
    Vec<Event>)
    requires
        all_valid(anames@),
    ensures
        zone_sets(*final(table)) == zone_sets(*old(table)).remove_keys(
            aname_keys(parsed_views(anames@)),
        ),
        event_views(r@) == aname_events(zone_sets(*old(table)), parsed_views(anames@)),
{
    let mut events: Vec<Event> = Vec::new();
    let ghost names = parsed_views(anames@);
    assert(aname_keys(names.take(0)) =~= Set::<RecordKey>::empty());
    assert(zone_sets(*old(table)) =~= zone_sets(*old(table)).remove_keys(
        aname_keys(names.take(0)),
    ));
    for i in 0..anames.len()
        invariant
            all_valid(anames@),
            names == parsed_views(anames@),
            zone_sets(*table) == zone_sets(*old(table)).remove_keys(
                aname_keys(names.take(i as int)),
            ),
            event_views(events@) == aname_events(zone_sets(*old(table)), names.take(i as int)),
    {
        proof {
            assert(names.take(i + 1) == names.take(i as int).push(names[i as int]));
            assert(names.take(i + 1).drop_last() == names.take(i as int));
            lemma_aname_keys_push(names.take(i as int), names[i as int]);
        }
        let ghost before = zone_sets(*table);
        if let Some(event) = remove_aname(table, &anames[i]) {
            proof {
                lemma_event_views_push(events@, event);
            }
            events.push(event);
        }
        assert(zone_sets(*table) =~= zone_sets(*old(table)).remove_keys(
            aname_keys(names.take(i + 1)),
        ));
    }
    assert(names.take(names.len() as int) == names);
    events
}

/// Takes the address records of `name` out of the table, and appends the events.
fn remove_addresses(
    table: &mut BTreeMap<RrKey, Arc<RecordSet>>,
    name: &DomainName,
    events: &mut Vec<Event>,
)
    requires
        name@.valid(),
    ensures
        zone_sets(*final(table)) == zone_sets(*old(table)).remove_keys(address_keys(name@)),
        event_views(final(events)@) == event_views(old(events)@) + address_events(
            zone_sets(*old(table)),
            name@,
        ),
{
    let ghost sets = zone_sets(*table);
    let ghost a_key = record_key(name@, RecordType::A);
    let ghost aaaa_key = record_key(name@, RecordType::AAAA);
    assert(a_key.1 != aaaa_key.1);
    let had_a = remove_records(table, name, RecordType::A);
    let had_aaaa = remove_records(table, name, RecordType::AAAA);
    assert(zone_sets(*table) =~= sets.remove_keys(address_keys(name@)));
    if had_a {
        let event = Event::removed(name.text().as_str());
        proof {
            lemma_event_views_push(events@, event);
        }
        events.push(event);
    }
    let ghost between = event_views(events@);
    if had_aaaa {
        let event = Event::removed(name.text().as_str());
        proof {
            lemma_event_views_push(events@, event);
        }
        events.push(event);
    }
    assert(event_views(events@) =~= event_views(old(events)@) + address_events(sets, name@));
}

/// Takes the records of names that were read out of the table: first those of the further names,
/// so that none of them is left without the records it leads to, then those of the domain name,
/// unless reading the names failed.
pub fn remove_entries(
    table: &mut BTreeMap<RrKey, Arc<RecordSet>>,
    anames: &Vec<ParsedName>,
    a_record: Result<DomainName, Error>,
) -> (r: CleanupReport)
    requires
        all_valid(anames@),
        a_record matches Ok(name) ==> name@.valid(),
    ensures
        zone_sets(*final(table)) == zone_sets(*old(table)).remove_keys(
            match a_record {
                Ok(name) => aname_keys(parsed_views(anames@)).union(address_keys(name@)),
                Err(_) => aname_keys(parsed_views(anames@)),
            },
        ),
        event_views(r.events@) == match a_record {
            Ok(name) => aname_events(zone_sets(*old(table)), parsed_views(anames@))
                + address_events(zone_sets(*old(table)), name@),
            Err(_) => aname_events(zone_sets(*old(table)), parsed_views(anames@)),
        },
        r.outcome == match a_record {
            Ok(_) => Ok::<_, Error>(Action::AwaitChange),
            Err(error) => Err(error),
        },
{
    let ghost sets = zone_sets(*table);
    let ghost keys = aname_keys(parsed_views(anames@));
    let mut events = remove_anames(table, anames);
    match a_record {
        Ok(name) => {
            proof {
                lemma_no_address_key(parsed_views(anames@), name@);
            }
            remove_addresses(table, &name, &mut events);
            assert(zone_sets(*table) =~= sets.remove_keys(keys.union(address_keys(name@))));
            CleanupReport { events, outcome: Ok(Action::AwaitChange) }
        },
        Err(error) => CleanupReport { events, outcome: Err(error) },
    }
}

/// No address record is found under the key of an ANAME record.
pub proof fn lemma_no_address_key(names: Seq<(Seq<char>, NameView)>, name: NameView)
    ensures
        !aname_keys(names).contains(record_key(name, RecordType::A)),
        !aname_keys(names).contains(record_key(name, RecordType::AAAA)),
{
    let keys = names.map_values(
        |n: (Seq<char>, NameView)| record_key(n.1, RecordType::ANAME),
    );
    assert forall|i: int| 0 <= i < keys.len() implies (#[trigger] keys[i]).1
        == RecordType::ANAME.code() by {
        assert(keys[i] == record_key(names[i].1, RecordType::ANAME));
    }
}

/// Removes the records of a service that is going away, and forgets its names. The names are those
/// of its annotations or, where those are gone, the last ones that were remembered; without either
/// there is nothing to do. A text that writes no name ends the cleanup: what comes before it in the
/// order of the further names and the domain name is removed all the same, but the service is
/// still remembered.
pub fn reconcile_cleanup(
    service: &Service,
    state: &mut ReconcilerState,
    table: &mut BTreeMap<RrKey, Arc<RecordSet>>,
) -> (r: CleanupReport)
    ensures
        match service.cleanup_entries(old(state)@) {
            None => {
                &&& *final(table) == *old(table)
                &&& *final(state) == *old(state)
                &&& r.events@.len() == 0
                &&& r.outcome == Ok::<_, Error>(Action::AwaitChange)
            },
            Some(entries) => {
                &&& zone_sets(*final(table)) == zone_sets(*old(table)).remove_keys(
                    cleanup_keys(entries),
                )
                &&& event_views(r.events@) == cleanup_events(zone_sets(*old(table)), entries)
                &&& entries_parse(entries) ==> {
                    &&& final(state)@ == old(state)@.remove(service.lb_name())
                    &&& r.outcome == Ok::<_, Error>(Action::AwaitChange)
                }
                &&& !entries_parse(entries) ==> {
                    &&& *final(state) == *old(state)
                    &&& entries_error(entries) is Some
                    &&& r.outcome == Err::<Action, _>(entries_error(entries)->0)
                }
            },
        },
        final(state).spec_ttl() == old(state).spec_ttl(),
{
    let name = lb_name(service);
    let anno = match get_hld_annotation(service) {
        Some(entries) => Some(entries),
        None => state.domain_for_service(name.as_str()),
    };
    match anno {
        None => CleanupReport { events: Vec::new(), outcome: Ok(Action::AwaitChange) },
        Some(entries) => {
            let (anames, error) = parse_names(&entries.anames);
            let a_record = match error {
                Some(error) => Err(error),
                None => match DomainName::parse(entries.a_record.as_str()) {
                    Ok(name) => Ok(name),
                    Err(error) => Err(Error::from(error)),
                },
            };
            let report = remove_entries(table, &anames, a_record);
            if report.outcome.is_ok() {
                state.remove_domain_for_service(name.as_str());
            }
            report
        },
    }
}

/// What a cleanup before the end of a service has done, and what is left to do.
pub struct EarlyCleanup {
    /// What is to be published, the first event first.
    pub events: Vec<Event>,
    /// The patch to be sent, if any.
    pub outcome: Result<Option<FinalizerPatch>, Error>,
}

/// Removes the records of a service that has lost its annotation, and prepares to take the finalizer
/// off it.
pub fn reconcile_early_cleanup(
    service: &Service,
    state: &mut ReconcilerState,
    table: &mut BTreeMap<RrKey, Arc<RecordSet>>,
) -> (r: EarlyCleanup)
    ensures
        match service.cleanup_entries(old(state)@) {
            None => {
                &&& *final(table) == *old(table)
                &&& *final(state) == *old(state)
                &&& r.events@.len() == 0
            },
            Some(entries) => {
                &&& zone_sets(*final(table)) == zone_sets(*old(table)).remove_keys(
                    cleanup_keys(entries),
                )
                &&& event_views(r.events@) == cleanup_events(zone_sets(*old(table)), entries)
                &&& entries_parse(entries) ==> final(state)@ == old(state)@.remove(
                    service.lb_name(),
                )
                &&& !entries_parse(entries) ==> *final(state) == *old(state)
            },
        },
        final(state).spec_ttl() == old(state).spec_ttl(),
        match service.cleanup_entries(old(state)@) {
            Some(entries) if !entries_parse(entries) => {
                &&& entries_error(entries) is Some
                &&& r.outcome == Err::<Option<FinalizerPatch>, _>(entries_error(entries)->0)
            },
            _ => is_finalizer_removal(service, r.outcome),
        },
{
    let report = reconcile_cleanup(service, state, table);
    match report.outcome {
        Err(error) => EarlyCleanup { events: report.events, outcome: Err(error) },
        Ok(_) => EarlyCleanup { events: report.events, outcome: remove_finalizer(service) },
    }
}

/// What becomes of a service whose finalizer was to be taken off.
pub fn finish_early_cleanup(patched: Result<(), KubeError>) -> (r: Result<Action, Error>)
    ensures
        r == match patched {
            Ok(_) => Ok::<_, Error>(Action::AwaitChange),
            Err(source) => Err(Error::FinalizerRemoveFailed { source }),
        },
{
    match patched {
        Ok(_) => Ok(Action::AwaitChange),
        Err(source) => Err(Error::FinalizerRemoveFailed { source }),
    }
}

/// The ANAME keys of names are those of each name: its labels in lower case, and the number 65305.
pub proof fn law_aname_keys_are_those_of_the_names(
    names: Seq<(Seq<char>, NameView)>,
    key: RecordKey,
)
    ensures
        aname_keys(names).contains(key) <==> exists|i: int|
            0 <= i < names.len() && key == (lower_labels((#[trigger] names[i]).1.labels), 65305u16),
{
    let keys = names.map_values(
        |n: (Seq<char>, NameView)| record_key(n.1, RecordType::ANAME),
    );
    if aname_keys(names).contains(key) {
        let i = choose|i: int| 0 <= i < keys.len() && keys[i] == key;
        assert(key == (lower_labels(names[i].1.labels), 65305u16));
    }
    if exists|i: int|
        0 <= i < names.len() && key == (lower_labels((#[trigger] names[i]).1.labels), 65305u16) {
        let i = choose|i: int|
            0 <= i < names.len() && key == (lower_labels((#[trigger] names[i]).1.labels), 65305u16);
        assert(keys[i] == key);
    }
}

/// Whether `key` is that of the ANAME records of the further name at `i`, and that name and all before
/// it can be read.
pub open spec fn is_readable_aname(entries: EntriesView, i: int, key: RecordKey) -> bool {
    &&& 0 <= i < entries.anames.len()
    &&& forall|j: int| 0 <= j <= i ==> parsed_name(#[trigger] entries.anames[j]) is Ok
    &&& key == (lower_labels((parsed_name(entries.anames[i])->Ok_0).labels), 65305u16)
}

/// Whether `key` is that of the A or AAAA records of the domain name, and all the names can be read.
pub open spec fn is_readable_address(entries: EntriesView, key: RecordKey) -> bool {
    &&& forall|j: int|
        0 <= j < entries.anames.len() ==> parsed_name(#[trigger] entries.anames[j]) is Ok
    &&& parsed_name(entries.a_record) is Ok
    &&& key.0 == lower_labels((parsed_name(entries.a_record)->Ok_0).labels)
    &&& key.1 == 1 || key.1 == 28
}

/// A cleanup takes out just the records of the service's own names: the ANAME records of each further
/// name up to the first that cannot be read and, if all can be, the A and AAAA records of the domain
/// name.
pub proof fn law_cleanup_removes_just_its_own(entries: EntriesView, key: RecordKey)
    ensures
        cleanup_keys(entries).contains(key) <==> is_readable_address(entries, key) || exists|i: int|
            #[trigger] is_readable_aname(entries, i, key),
{
    let names = parsed_prefix(entries.anames);
    law_reading_stops_at_the_first_error(entries.anames);
    law_aname_keys_are_those_of_the_names(names, key);
    if aname_keys(names).contains(key) {
        let i = choose|i: int|
            0 <= i < names.len() && key == (lower_labels((#[trigger] names[i]).1.labels), 65305u16);
        assert(names[i] == (entries.anames[i], parsed_name(entries.anames[i])->Ok_0));
        assert(is_readable_aname(entries, i, key));
    }
    if exists|i: int| #[trigger] is_readable_aname(entries, i, key) {
        let i = choose|i: int| #[trigger] is_readable_aname(entries, i, key);
        assert(i < names.len()) by {
            if names.len() <= i {
                assert(parsed_name(entries.anames[names.len() as int]) is Ok);
            }
        }
        assert(names[i] == (entries.anames[i], parsed_name(entries.anames[i])->Ok_0));
    }
    assert(entries_parse(entries) <==> parsed_name(entries.a_record) is Ok && forall|j: int|
        0 <= j < entries.anames.len() ==> parsed_name(#[trigger] entries.anames[j]) is Ok);
}

/// A cleanup leaves every record alone that is not under one of the service's own names: neither an
/// address of the domain name nor the ANAME record of a further name.
pub proof fn law_cleanup_touches_own_names(
    sets: Map<RecordKey, RecordSet>,
    entries: EntriesView,
    key: RecordKey,
)
    requires
        key.1 == 1 || key.1 == 28 ==> parsed_name(entries.a_record) is Err || key.0 != lower_labels(
            (parsed_name(entries.a_record)->Ok_0).labels,
        ),
        key.1 == 65305 ==> forall|i: int|
            0 <= i < entries.anames.len() ==> parsed_name(#[trigger] entries.anames[i]) is Err
                || key.0 != lower_labels((parsed_name(entries.anames[i])->Ok_0).labels),
    ensures
        sets.remove_keys(cleanup_keys(entries)).contains_key(key) <==> sets.contains_key(key),
        sets.contains_key(key) ==> sets.remove_keys(cleanup_keys(entries))[key] == sets[key],
{
    law_cleanup_removes_just_its_own(entries, key);
    if exists|i: int| #[trigger] is_readable_aname(entries, i, key) {
        let i = choose|i: int| #[trigger] is_readable_aname(entries, i, key);
        assert(parsed_name(entries.anames[i]) is Ok);
    }
}

/// After a cleanup whose names can all be read, no record is left under any of them.
pub proof fn law_cleanup_leaves_nothing_of_its_own(
    sets: Map<RecordKey, RecordSet>,
    entries: EntriesView,
    i: int,
)
    requires
        parsed_name(entries.a_record) is Ok,
        forall|j: int|
            0 <= j < entries.anames.len() ==> parsed_name(#[trigger] entries.anames[j]) is Ok,
    ensures
        ({
            let left = sets.remove_keys(cleanup_keys(entries));
            let owner = lower_labels((parsed_name(entries.a_record)->Ok_0).labels);
            &&& !left.contains_key((owner, 1u16))
            &&& !left.contains_key((owner, 28u16))
            &&& 0 <= i < entries.anames.len() ==> !left.contains_key(
                (lower_labels((parsed_name(entries.anames[i])->Ok_0).labels), 65305u16),
            )
        }),
{
    let owner = lower_labels((parsed_name(entries.a_record)->Ok_0).labels);
    law_cleanup_removes_just_its_own(entries, (owner, 1u16));
    law_cleanup_removes_just_its_own(entries, (owner, 28u16));
    assert(is_readable_address(entries, (owner, 1u16)));
    assert(is_readable_address(entries, (owner, 28u16)));
    if 0 <= i < entries.anames.len() {
        let key = (lower_labels((parsed_name(entries.anames[i])->Ok_0).labels), 65305u16);
        law_cleanup_removes_just_its_own(entries, key);
        assert(is_readable_aname(entries, i, key));
    }
}

/// Names are taken out one after the other: the next name gives an event, with its text, exactly if
/// the names before it have left it any ANAME records.
pub proof fn law_each_removed_name_is_reported(
    sets: Map<RecordKey, RecordSet>,
    names: Seq<(Seq<char>, NameView)>,
    next: (Seq<char>, NameView),
)
    ensures
        names.len() == 0 ==> aname_events(sets, names).len() == 0,
        ({
            let left = sets.remove_keys(aname_keys(names));
            let events = aname_events(sets, names.push(next));
            let before = aname_events(sets, names);
            if left.contains_key((lower_labels(next.1.labels), 65305u16)) {
                &&& events.len() == before.len() + 1
                &&& events.drop_last() == before
                &&& events.last() == removed(next.0)
            } else {
                events == before
            }
        }),
{
    assert(names.push(next).drop_last() == names);
    assert(names.push(next).last() == next);
    let before = aname_events(sets, names);
    assert(before.push(removed(next.0)).drop_last() == before);
}

/// A cleanup reports the further names first, in order, then, if all names can be read, the domain name
/// once for its A records and once for its AAAA records, each if there are any.
pub proof fn law_cleanup_reports_what_it_removes(
    sets: Map<RecordKey, RecordSet>,
    entries: EntriesView,
)
    ensures
        ({
            let events = cleanup_events(sets, entries);
            let anames = aname_events(sets, parsed_prefix(entries.anames));
            let readable = parsed_name(entries.a_record) is Ok && forall|j: int|
                0 <= j < entries.anames.len() ==> parsed_name(#[trigger] entries.anames[j]) is Ok;
            let name = parsed_name(entries.a_record)->Ok_0;
            let has_a = sets.contains_key((lower_labels(name.labels), 1u16));
            let has_aaaa = sets.contains_key((lower_labels(name.labels), 28u16));
            &&& !readable ==> events == anames
            &&& readable && !has_a && !has_aaaa ==> events == anames
            &&& readable && has_a != has_aaaa ==> events == anames.push(removed(name_text(name)))
            &&& readable && has_a && has_aaaa ==> events == anames.push(
                removed(name_text(name)),
            ).push(removed(name_text(name)))
        }),
{
    let readable = parsed_name(entries.a_record) is Ok && forall|j: int|
        0 <= j < entries.anames.len() ==> parsed_name(#[trigger] entries.anames[j]) is Ok;
    assert(entries_parse(entries) <==> readable);
    let name = parsed_name(entries.a_record)->Ok_0;
    let anames = aname_events(sets, parsed_prefix(entries.anames));
    let event = removed(name_text(name));
    assert(record_key(name, RecordType::A) == (lower_labels(name.labels), 1u16));
    assert(record_key(name, RecordType::AAAA) == (lower_labels(name.labels), 28u16));
    if readable {
        let events = cleanup_events(sets, entries);
        let has_a = sets.contains_key((lower_labels(name.labels), 1u16));
        let has_aaaa = sets.contains_key((lower_labels(name.labels), 28u16));
        if has_a && has_aaaa {
            assert(events =~= anames.push(event).push(event));
        } else if has_a || has_aaaa {
            assert(events =~= anames.push(event));
        } else {
            assert(events =~= anames);
        }
    }
}

/// A cleanup goes by the names of the annotations if there are any, and otherwise by those that are
/// remembered under the service's own name.
pub proof fn law_cleanup_goes_by_annotations_first(
    service: &Service,
    domains: Map<Seq<char>, EntriesView>,
)
    ensures
        service.entries() is Some ==> service.cleanup_entries(domains) == service.entries(),
        service.entries() is None && service.metadata.name is Some ==> {
            let name = service.metadata.name->0@;
            &&& domains.contains_key(name) ==> service.cleanup_entries(domains) == Some(
                domains[name],
            )
            &&& !domains.contains_key(name) ==> service.cleanup_entries(domains) is None
        },
{
}

/// A cleanup fails exactly if one of the names cannot be read, with the error of the first such name
/// in the order in which they are read: the further names in turn, then the domain name.
pub proof fn law_cleanup_fails_with_the_first_error(entries: EntriesView, i: int)
    ensures
        entries_parse(entries) <==> parsed_name(entries.a_record) is Ok && forall|j: int|
            0 <= j < entries.anames.len() ==> parsed_name(#[trigger] entries.anames[j]) is Ok,
        entries_error(entries) is None <==> entries_parse(entries),
        0 <= i < entries.anames.len() && parsed_name(entries.anames[i]) is Err && (forall|j: int|
            0 <= j < i ==> parsed_name(#[trigger] entries.anames[j]) is Ok) ==> entries_error(entries)
            == Some(Error::TrustDNSProto(parsed_name(entries.anames[i])->Err_0)),
        parsed_name(entries.a_record) is Err && (forall|j: int|
            0 <= j < entries.anames.len() ==> parsed_name(#[trigger] entries.anames[j]) is Ok)
            ==> entries_error(entries) == Some(
            Error::TrustDNSProto(parsed_name(entries.a_record)->Err_0),
        ),
{
    law_reading_stops_at_the_first_error(entries.anames);
    let stop = parsed_prefix(entries.anames).len() as int;
    if 0 <= i < entries.anames.len() && parsed_name(entries.anames[i]) is Err && (forall|j: int|
        0 <= j < i ==> parsed_name(#[trigger] entries.anames[j]) is Ok) {
        assert(stop == i) by {
            if stop < i {
                assert(parsed_name(entries.anames[stop]) is Ok);
            }
        }
    }
}

/// The address keys of a name are its labels in lower case with the numbers 1 and 28; taking the
/// records under them out is reported once for each of the two that has any.
pub proof fn law_addresses_are_found_and_reported(
    sets: Map<RecordKey, RecordSet>,
    name: NameView,
    key: RecordKey,
)
    ensures
        address_keys(name).contains(key) <==> key.0 == lower_labels(name.labels) && (key.1 == 1
            || key.1 == 28),
        ({
            let has_a = sets.contains_key((lower_labels(name.labels), 1u16));
            let has_aaaa = sets.contains_key((lower_labels(name.labels), 28u16));
            let event = removed(name_text(name));
            &&& !has_a && !has_aaaa ==> address_events(sets, name).len() == 0
            &&& has_a != has_aaaa ==> address_events(sets, name) == seq![event]
            &&& has_a && has_aaaa ==> address_events(sets, name) == seq![event, event]
        }),
{
    assert(record_key(name, RecordType::A) == (lower_labels(name.labels), 1u16));
    assert(record_key(name, RecordType::AAAA) == (lower_labels(name.labels), 28u16));
    let has_a = sets.contains_key((lower_labels(name.labels), 1u16));
    let has_aaaa = sets.contains_key((lower_labels(name.labels), 28u16));
    let event = removed(name_text(name));
    if has_a && has_aaaa {
        assert(address_events(sets, name) =~= seq![event, event]);
    } else if has_a || has_aaaa {
        assert(address_events(sets, name) =~= seq![event]);
    }
}

} // verus!
