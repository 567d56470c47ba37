//! Bringing the records of an annotated service up to date.
use crate::address::{
    law_no_address_is_lost, parse_addresses, parsed_address, parsed_addresses, IpAddress,
};
use crate::error::Error;
use crate::event::{added, event_view, Event, EventView};
use crate::names::{name_text, parsed_name, DomainName, NameView};
use crate::parsing::{
    all_parse, all_valid, law_reading_stops_at_the_first_error, name_error, parse_error, parse_names,
    parsed_prefix, parsed_views, ParsedName,
};
use crate::reconcile::{lb_name, Action, RESYNC_SECONDS};
use crate::records::{DnsRecord, RecordData, RecordDataView, RecordView};
use crate::service::{
    get_hld_annotation, get_lb_ips, ingress_ips, law_no_ingress_address_is_lost, AnnotationEntries,
    EntriesView, Service,
};
use crate::state::{remembered, ReconcilerState};
use crate::text::texts;
use vstd::hash_map::StringHashMap;
use vstd::pervasive::unreached;
use vstd::prelude::*;

verus! {

/// The texts of `names` that are not among `known`, each once, in the order of their first
/// occurrence.
pub open spec fn fresh(names: Seq<Seq<char>>, known: Seq<Seq<char>>) -> Seq<Seq<char>>
    decreases names.len(),
{
    if names.len() == 0 {
        Seq::empty()
    } else {
        let front = names.drop_last();
        if known.contains(names.last()) || front.contains(names.last()) {
            fresh(front, known)
        } else {
            fresh(front, known).push(names.last())
        }
    }
}

/// The texts of a list, to be looked up.
fn text_set(names: &Vec<String>) -> (r: StringHashMap<()>)
    ensures
        r@.dom() == texts(names@).to_set(),
{
    let mut r: StringHashMap<()> = StringHashMap::new();
    let ghost all = texts(names@);
    assert(r@.dom() =~= all.take(0).to_set());
    for i in 0..names.len()
        invariant
            all == texts(names@),
            r@.dom() == all.take(i as int).to_set(),
    {
        r.insert(names[i].clone(), ());
        proof {
            assert(all.take(i + 1) == all.take(i as int).push(all[i as int]));
            lemma_push_to_set(all.take(i as int), all[i as int]);
        }
        assert(r@.dom() =~= all.take(i + 1).to_set());
    }
    assert(all.take(all.len() as int) == all);
    r
}

/// A sequence of one element more has the elements of the sequence and that one.
proof fn lemma_push_to_set<T>(s: Seq<T>, x: T)
    ensures
        s.push(x).to_set() == s.to_set().insert(x),
{
    assert forall|y: T| s.push(x).to_set().contains(y) <==> s.to_set().insert(x).contains(y) by {
        if s.contains(y) {
            let i = choose|i: int| 0 <= i < s.len() && s[i] == y;
            assert(s.push(x)[i] == y);
        }
        assert(s.push(x)[s.len() as int] == x);
    }
    assert(s.push(x).to_set() =~= s.to_set().insert(x));
}

/// The texts of `names` that are not among `known`, each once, in the order of their first
/// occurrence.
pub fn fresh_names(names: &Vec<String>, known: &Vec<String>) -> (r: Vec<String>)
    ensures
        texts(r@) == fresh(texts(names@), texts(known@)),
{
    let known_set = text_set(known);
    let mut seen: StringHashMap<()> = StringHashMap::new();
    let mut r: Vec<String> = Vec::new();
    let ghost all = texts(names@);
    assert(seen@.dom() =~= all.take(0).to_set());
    for i in 0..names.len()
        invariant
            all == texts(names@),
            known_set@.dom() == texts(known@).to_set(),
            seen@.dom() == all.take(i as int).to_set(),
            texts(r@) == fresh(all.take(i as int), texts(known@)),
    {
        proof {
            assert(all.take(i + 1) == all.take(i as int).push(all[i as int]));
            assert(all.take(i + 1).drop_last() == all.take(i as int));
            lemma_push_to_set(all.take(i as int), all[i as int]);
            assert(known_set@.contains_key(all[i as int]) <==> texts(known@).contains(
                all[i as int],
            ));
            assert(seen@.contains_key(all[i as int]) <==> all.take(i as int).contains(
                all[i as int],
            ));
        }
        let name = names[i].as_str();
        if !known_set.contains_key(name) && !seen.contains_key(name) {
            let ghost before = r@;
            r.push(names[i].clone());
            assert(texts(r@) == texts(before).push(all[i as int]));
        }
        seen.insert(names[i].clone(), ());
        assert(seen@.dom() =~= all.take(i + 1).to_set());
    }
    assert(all.take(all.len() as int) == all);
    r
}

/// One thing that is to be done to the zone.
pub enum ApplyStep {
    /// Store a record and, if that changed the zone, publish the event.
    Upsert { record: DnsRecord, event: Event },
    /// Remove the ANAME records of a name that the service has no more.
    RemoveAname(ParsedName),
}

/// The mathematical content of an [`ApplyStep`].
pub enum ApplyStepView {
    Upsert { record: RecordView, event: EventView },
    RemoveAname { text: Seq<char>, name: NameView },
}

impl View for ApplyStep {
    type V = ApplyStepView;

    open spec fn view(&self) -> ApplyStepView {
        match *self {
            ApplyStep::Upsert { record, event } => ApplyStepView::Upsert {
                record: record@,
                event: event@,
            },
            ApplyStep::RemoveAname(aname) => ApplyStepView::RemoveAname {
                text: aname.text@,
                name: aname.name@,
            },
        }
    }
}

impl ApplyStepView {
    /// Whether the names in the step are names.
    pub open spec fn valid(self) -> bool {
        match self {
            ApplyStepView::Upsert { record, .. } => record.valid(),
            ApplyStepView::RemoveAname { name, .. } => name.valid(),
        }
    }
}

/// The contents of a sequence of steps.
pub open spec fn step_views(steps: Seq<ApplyStep>) -> Seq<ApplyStepView> {
    steps.map_values(|s: ApplyStep| s@)
}

/// Whether the names in all the steps are names.
pub open spec fn steps_valid(steps: Seq<ApplyStep>) -> bool {
    forall|i: int| 0 <= i < steps.len() ==> (#[trigger] steps[i])@.valid()
}

/// Storing an address of `name`.
pub open spec fn address_step(name: NameView, ttl: u32, address: IpAddress) -> ApplyStepView {
    ApplyStepView::Upsert {
        record: RecordView { owner: name, ttl, data: RecordDataView::Address(address) },
        event: added(name_text(name), address.spec_text()),
    }
}

/// Storing that `aname` stands for `name`.
pub open spec fn aname_step(name: NameView, ttl: u32, aname: NameView) -> ApplyStepView {
    ApplyStepView::Upsert {
        record: RecordView { owner: aname, ttl, data: RecordDataView::Aname(name) },
        event: added(name_text(aname), name_text(name)),
    }
}

/// Storing all the addresses of `name`.
pub open spec fn address_steps(name: NameView, ttl: u32, addresses: Seq<IpAddress>) -> Seq<
    ApplyStepView,
> {
    addresses.map_values(|address: IpAddress| address_step(name, ttl, address))
}

/// Storing that all the `anames` stand for `name`.
pub open spec fn aname_steps(
    name: NameView,
    ttl: u32,
    anames: Seq<(Seq<char>, NameView)>,
) -> Seq<ApplyStepView> {
    anames.map_values(|aname: (Seq<char>, NameView)| aname_step(name, ttl, aname.1))
}

/// Removing the ANAME records of all the `anames`.
pub open spec fn remove_steps(anames: Seq<(Seq<char>, NameView)>) -> Seq<ApplyStepView> {
    anames.map_values(
        |aname: (Seq<char>, NameView)|
            ApplyStepView::RemoveAname { text: aname.0, name: aname.1 },
    )
}

/// The steps that store the addresses of `name` and the names that lead to it, and remove the names
/// that lead to it no more.
pub fn plan_steps(
    name: &DomainName,
    ttl: u32,
    addresses: &Vec<IpAddress>,
    to_add: &Vec<ParsedName>,
    to_remove: Vec<ParsedName>,
) -> (steps: Vec<ApplyStep>)
    requires
        name@.valid(),
        all_valid(to_add@),
        all_valid(to_remove@),
    ensures
        step_views(steps@) == address_steps(name@, ttl, addresses@) + aname_steps(
            name@,
            ttl,
            parsed_views(to_add@),
        ) + remove_steps(parsed_views(to_remove@)),
        steps_valid(steps@),
{
    let mut steps: Vec<ApplyStep> = Vec::new();
    let ghost first = address_steps(name@, ttl, addresses@);
    let ghost second = aname_steps(name@, ttl, parsed_views(to_add@));
    let ghost third = remove_steps(parsed_views(to_remove@));
    for i in 0..addresses.len()
        invariant
            name@.valid(),
            first == address_steps(name@, ttl, addresses@),
            step_views(steps@) == first.take(i as int),
            steps_valid(steps@),
    {
        let address = addresses[i];
        let event = Event::added(name.text().as_str(), address.text().as_str());
        let record = DnsRecord { owner: name.clone(), ttl, data: RecordData::Address(address) };
        let ghost before = steps@;
        steps.push(ApplyStep::Upsert { record, event });
        assert(step_views(steps@) =~= step_views(before).push(first[i as int]));
        assert(first.take(i + 1) =~= first.take(i as int).push(first[i as int]));
    }
    assert(first.take(addresses@.len() as int) =~= first);
    for i in 0..to_add.len()
        invariant
            name@.valid(),
            all_valid(to_add@),
            second == aname_steps(name@, ttl, parsed_views(to_add@)),
            step_views(steps@) == first + second.take(i as int),
            steps_valid(steps@),
    {
        let aname = &to_add[i].name;
        let event = Event::added(aname.text().as_str(), name.text().as_str());
        let record = DnsRecord {
            owner: aname.clone(),
            ttl,
            data: RecordData::Aname(name.clone()),
        };
        let ghost before = steps@;
        steps.push(ApplyStep::Upsert { record, event });
        assert(step_views(steps@) =~= step_views(before).push(second[i as int]));
        assert(first + second.take(i + 1) =~= (first + second.take(i as int)).push(
            second[i as int],
        ));
    }
    assert(first + second.take(to_add@.len() as int) =~= first + second);
    let ghost removals = to_remove@;
    for aname in it: to_remove
        invariant
            it.seq() == removals,
            all_valid(removals),
            third == remove_steps(parsed_views(removals)),
            step_views(steps@) == first + second + third.take(it.index() as int),
            steps_valid(steps@),
    {
        let ghost n = it.index() as int;
        let ghost before = steps@;
        steps.push(ApplyStep::RemoveAname(aname));
        assert(step_views(steps@) =~= step_views(before).push(third[n]));
        assert(first + second + third.take(n + 1) =~= (first + second + third.take(n)).push(
            third[n],
        ));
    }
    assert(first + second + third.take(removals.len() as int) =~= first + second + third);
    steps
}

impl ApplyStep {
    /// The event to publish after a record was handed to the zone; `stored` tells whether that
    /// changed the zone.
    pub fn event_after(self, stored: bool) -> (r: Option<Event>)
        ensures
            event_view(r) == match self@ {
                ApplyStepView::Upsert { event, .. } if stored => Some(event),
                _ => None,
            },
    {
        match self {
            ApplyStep::Upsert { event, .. } => if stored {
                Some(event)
            } else {
                None
            },
            ApplyStep::RemoveAname(_) => None,
        }
    }
}

/// The further names that the service was last given.
pub open spec fn previous_anames(
    domains: Map<Seq<char>, EntriesView>,
    service: Seq<char>,
) -> Seq<Seq<char>> {
    match remembered(domains, service) {
        Some(entries) => entries.anames,
        None => Seq::empty(),
    }
}

/// Whether all the texts that an update has to read write names.
pub open spec fn apply_parses(entries: EntriesView, previous: Seq<Seq<char>>) -> bool {
    &&& parsed_name(entries.a_record) is Ok
    &&& all_parse(fresh(entries.anames, previous))
    &&& all_parse(fresh(previous, entries.anames))
}

/// The error of an update: that of the domain name, or else of the first name to be added that cannot
/// be read, or else of the first one to be removed.
pub open spec fn apply_error(entries: EntriesView, previous: Seq<Seq<char>>) -> Option<Error> {
    if parsed_name(entries.a_record) is Err {
        Some(name_error(entries.a_record))
    } else if !all_parse(fresh(entries.anames, previous)) {
        parse_error(fresh(entries.anames, previous))
    } else {
        parse_error(fresh(previous, entries.anames))
    }
}

/// The steps of an update: storing the addresses of the domain name, storing the names that are
/// new, removing those that are gone. The first text that writes no name ends the steps.
pub open spec fn apply_steps(
    entries: EntriesView,
    previous: Seq<Seq<char>>,
    addresses: Seq<IpAddress>,
    ttl: u32,
) -> Seq<ApplyStepView> {
    match parsed_name(entries.a_record) {
        Err(_) => Seq::empty(),
        Ok(name) => {
            let to_add = fresh(entries.anames, previous);
            let to_remove = fresh(previous, entries.anames);
            let stored = address_steps(name, ttl, addresses) + aname_steps(
                name,
                ttl,
                parsed_prefix(to_add),
            );
            if all_parse(to_add) {
                stored + remove_steps(parsed_prefix(to_remove))
            } else {
                stored
            }
        },
    }
}

impl Service {
    /// The addresses of the load balancer.
    pub open spec fn addresses(&self) -> Seq<IpAddress> {
        match self.lb_ips() {
            Some(ips) => parsed_addresses(ips),
            None => Seq::empty(),
        }
    }
}

/// How the records of a service are brought up to date.
pub struct ApplyPlan {
    /// The name under which the service is remembered.
    pub service: String,
    /// The names that the service has now.
    pub entries: AnnotationEntries,
    /// What is to be done to the zone, in order.
    pub steps: Vec<ApplyStep>,
    /// What becomes of the service once the steps are done.
    pub outcome: Result<Action, Error>,
}

/// Plans the update of the records of an annotated service. A text that writes no name makes the
/// update fail, after the steps that come before it.
pub fn reconcile_apply(service: &Service, state: &ReconcilerState) -> (plan: ApplyPlan)
    requires
        service.entries() is Some,
    ensures
        plan.service@ == service.lb_name(),
        plan.entries@ == service.entries()->0,
        step_views(plan.steps@) == apply_steps(
            service.entries()->0,
            previous_anames(state@, service.lb_name()),
            service.addresses(),
            state.spec_ttl(),
        ),
        steps_valid(plan.steps@),
        apply_parses(
            service.entries()->0,
            previous_anames(state@, service.lb_name()),
        ) ==> plan.outcome == Ok::<_, Error>(Action::Requeue(RESYNC_SECONDS)),
        !apply_parses(service.entries()->0, previous_anames(state@, service.lb_name())) ==> {
            let error = apply_error(
                service.entries()->0,
                previous_anames(state@, service.lb_name()),
            );
            error is Some && plan.outcome == Err::<Action, _>(error->0)
        },
{
    let entries = match get_hld_annotation(service) {
        Some(entries) => entries,
        None => unreached(),
    };
    let service_name = lb_name(service);
    let previous: Vec<String> = match state.domain_for_service(service_name.as_str()) {
        Some(entries) => entries.anames,
        None => Vec::new(),
    };
    let ghost known = previous_anames(state@, service.lb_name());
    assert(texts(previous@) =~= known);
    let name = match DomainName::parse(entries.a_record.as_str()) {
        Ok(name) => name,
        Err(error) => {
            let steps: Vec<ApplyStep> = Vec::new();
            assert(step_views(steps@) =~= Seq::empty());
            return ApplyPlan {
                service: service_name,
                entries,
                steps,
                outcome: Err(Error::from(error)),
            };
        },
    };
    let ips = match get_lb_ips(service) {
        Some(ips) => ips,
        None => Vec::new(),
    };
    let addresses = parse_addresses(&ips);
    assert(addresses@ =~= service.addresses());
    let (to_add, add_error) = parse_names(&fresh_names(&entries.anames, &previous));
    if let Some(error) = add_error {
        let steps = plan_steps(&name, state.ttl(), &addresses, &to_add, Vec::new());
        assert(step_views(steps@) =~= apply_steps(
            entries@,
            known,
            addresses@,
            state.spec_ttl(),
        ));
        return ApplyPlan { service: service_name, entries, steps, outcome: Err(error) };
    }
    let (to_remove, remove_error) = parse_names(&fresh_names(&previous, &entries.anames));
    let steps = plan_steps(&name, state.ttl(), &addresses, &to_add, to_remove);
    let outcome = match remove_error {
        Some(error) => Err(error),
        None => Ok(Action::Requeue(RESYNC_SECONDS)),
    };
    ApplyPlan { service: service_name, entries, steps, outcome }
}

/// Ends an update whose steps are done: the names of the service are remembered unless the update
/// failed.
pub fn finish_apply(state: &mut ReconcilerState, plan: ApplyPlan) -> (r: Result<Action, Error>)
    ensures
        r == plan.outcome,
        r is Ok ==> final(state)@ == old(state)@.insert(plan.service@, plan.entries@),
        r is Err ==> *final(state) == *old(state),
        final(state).spec_ttl() == old(state).spec_ttl(),
{
    match plan.outcome {
        Ok(action) => {
            state.set_domain_for_service(plan.service.as_str(), &plan.entries);
            Ok(action)
        },
        Err(error) => Err(error),
    }
}

/// What an update does, step by step, if the domain name can be read: it stores each address under the
/// domain name, in order; then it stores, under each name to be added, that it stands for the domain
/// name; then, if all those names could be read, it removes each name to be removed. Every step that
/// stores says so in its event. If the domain name cannot be read, nothing is done.
pub proof fn law_update_plan(
    entries: EntriesView,
    previous: Seq<Seq<char>>,
    addresses: Seq<IpAddress>,
    ttl: u32,
)
    ensures
        ({
            let steps = apply_steps(entries, previous, addresses, ttl);
            let name = parsed_name(entries.a_record)->Ok_0;
            let to_add = parsed_prefix(fresh(entries.anames, previous));
            let to_remove = parsed_prefix(fresh(previous, entries.anames));
            let complete = to_add.len() == fresh(entries.anames, previous).len();
            &&& parsed_name(entries.a_record) is Err ==> steps.len() == 0
            &&& parsed_name(entries.a_record) is Ok ==> {
                &&& steps.len() == addresses.len() + to_add.len() + if complete {
                    to_remove.len()
                } else {
                    0
                }
                &&& forall|i: int|
                    #![trigger addresses[i]]
                    0 <= i < addresses.len() ==> steps[i] == (ApplyStepView::Upsert {
                        record: RecordView {
                            owner: name,
                            ttl,
                            data: RecordDataView::Address(addresses[i]),
                        },
                        event: added(name_text(name), addresses[i].spec_text()),
                    })
                &&& forall|i: int|
                    #![trigger to_add[i]]
                    0 <= i < to_add.len() ==> steps[addresses.len() + i] == (ApplyStepView::Upsert {
                        record: RecordView {
                            owner: to_add[i].1,
                            ttl,
                            data: RecordDataView::Aname(name),
                        },
                        event: added(name_text(to_add[i].1), name_text(name)),
                    })
                &&& forall|i: int|
                    #![trigger to_remove[i]]
                    complete && 0 <= i < to_remove.len() ==> steps[addresses.len() + to_add.len()
                        + i] == (ApplyStepView::RemoveAname {
                        text: to_remove[i].0,
                        name: to_remove[i].1,
                    })
            }
        }),
{
    law_reading_stops_at_the_first_error(fresh(entries.anames, previous));
}

/// An update succeeds exactly if every name that it reads can be read. Otherwise it fails with the
/// error of the first that cannot: the domain name, then the names to be added, then those to be
/// removed.
pub proof fn law_update_fails_with_the_first_error(entries: EntriesView, previous: Seq<Seq<char>>)
    ensures
        ({
            let to_add = fresh(entries.anames, previous);
            let to_remove = fresh(previous, entries.anames);
            let added = parsed_prefix(to_add).len();
            let removed = parsed_prefix(to_remove).len();
            let error = apply_error(entries, previous);
            &&& apply_parses(entries, previous) <==> parsed_name(entries.a_record) is Ok && added
                == to_add.len() && removed == to_remove.len()
            &&& error is None <==> apply_parses(entries, previous)
            &&& parsed_name(entries.a_record) is Err ==> error == Some(
                Error::TrustDNSProto(parsed_name(entries.a_record)->Err_0),
            )
            &&& parsed_name(entries.a_record) is Ok && added < to_add.len() ==> error == Some(
                Error::TrustDNSProto(parsed_name(to_add[added as int])->Err_0),
            )
            &&& parsed_name(entries.a_record) is Ok && added == to_add.len() && removed
                < to_remove.len() ==> error == Some(
                Error::TrustDNSProto(parsed_name(to_remove[removed as int])->Err_0),
            )
        }),
{
    law_reading_stops_at_the_first_error(fresh(entries.anames, previous));
    law_reading_stops_at_the_first_error(fresh(previous, entries.anames));
}

/// The addresses of a service are just those that its ingress points give and that can be read.
pub proof fn law_service_addresses_are_those_of_its_ingress(service: &Service)
    ensures
        service.status is None ==> service.addresses().len() == 0,
        service.status is Some && service.status->0.load_balancer is None
            ==> service.addresses().len() == 0,
        service.status is Some && service.status->0.load_balancer is Some
            && service.status->0.load_balancer->0.ingress is None ==> service.addresses().len() == 0,
        service.status is Some && service.status->0.load_balancer is Some
            && service.status->0.load_balancer->0.ingress is Some ==> {
            let ingress = service.status->0.load_balancer->0.ingress->0@;
            &&& forall|i: int|
                0 <= i < ingress.len() && (#[trigger] ingress[i]).ip is Some && parsed_address(
                    ingress[i].ip->0@,
                ) is Some ==> service.addresses().contains(parsed_address(ingress[i].ip->0@)->0)
            &&& forall|address: IpAddress| #[trigger]
                service.addresses().contains(address) ==> exists|i: int|
                    0 <= i < ingress.len() && (#[trigger] ingress[i]).ip is Some && parsed_address(
                        ingress[i].ip->0@,
                    ) == Some(address)
        },
{
    if service.lb_ips() is Some {
        let ingress = service.status->0.load_balancer->0.ingress->0@;
        let ips = ingress_ips(ingress);
        law_no_ingress_address_is_lost(ingress);
        law_no_address_is_lost(ips);
        assert forall|i: int|
            0 <= i < ingress.len() && (#[trigger] ingress[i]).ip is Some && parsed_address(
                ingress[i].ip->0@,
            ) is Some implies service.addresses().contains(
            parsed_address(ingress[i].ip->0@)->0,
        ) by {
            let k = choose|k: int| 0 <= k < ips.len() && ips[k] == ingress[i].ip->0@;
            assert(parsed_address(ips[k]) is Some);
        }
        assert forall|address: IpAddress| #[trigger]
            service.addresses().contains(address) implies exists|i: int|
            0 <= i < ingress.len() && (#[trigger] ingress[i]).ip is Some && parsed_address(
                ingress[i].ip->0@,
            ) == Some(address) by {
            let k = choose|k: int|
                0 <= k < ips.len() && parsed_address(#[trigger] ips[k]) == Some(address);
            assert(ips.contains(ips[k]));
        }
    }
}

/// Whatever address an ingress point of a service gives, an update of the service stores it under the
/// domain name, if both can be read.
pub proof fn law_every_listed_address_is_stored(
    service: &Service,
    entries: EntriesView,
    previous: Seq<Seq<char>>,
    ttl: u32,
    i: int,
)
    requires
        parsed_name(entries.a_record) is Ok,
        service.status is Some,
        service.status->0.load_balancer is Some,
        service.status->0.load_balancer->0.ingress is Some,
        0 <= i < service.status->0.load_balancer->0.ingress->0@.len(),
        service.status->0.load_balancer->0.ingress->0@[i].ip is Some,
        parsed_address(service.status->0.load_balancer->0.ingress->0@[i].ip->0@) is Some,
    ensures
        ({
            let name = parsed_name(entries.a_record)->Ok_0;
            let address = parsed_address(
                service.status->0.load_balancer->0.ingress->0@[i].ip->0@,
            )->0;
            apply_steps(entries, previous, service.addresses(), ttl).contains(
                (ApplyStepView::Upsert {
                    record: RecordView { owner: name, ttl, data: RecordDataView::Address(address) },
                    event: added(name_text(name), address.spec_text()),
                }),
            )
        }),
{
    let ingress = service.status->0.load_balancer->0.ingress->0@;
    let address = parsed_address(ingress[i].ip->0@)->0;
    let addresses = service.addresses();
    let steps = apply_steps(entries, previous, addresses, ttl);
    law_service_addresses_are_those_of_its_ingress(service);
    law_update_plan(entries, previous, addresses, ttl);
    assert(addresses.contains(address));
    let k = choose|k: int| 0 <= k < addresses.len() && addresses[k] == address;
    assert(steps.contains(steps[k]));
}

/// The further names that a service had are those that are remembered under its name, if any are.
pub proof fn law_previous_names_are_the_remembered_ones(
    domains: Map<Seq<char>, EntriesView>,
    service: Seq<char>,
)
    ensures
        domains.contains_key(service) ==> previous_anames(domains, service)
            == domains[service].anames,
        !domains.contains_key(service) ==> previous_anames(domains, service).len() == 0,
{
}

/// The view of a step holds the record and the event, or the name to be removed, and the views of
/// steps keep their order.
pub proof fn law_step_view_is_faithful(step: ApplyStep, steps: Seq<ApplyStep>)
    ensures
        step is Upsert ==> step@ == (ApplyStepView::Upsert {
            record: step->record@,
            event: step->event@,
        }),
        step is RemoveAname ==> step@ == (ApplyStepView::RemoveAname {
            text: step->RemoveAname_0.text@,
            name: step->RemoveAname_0.name@,
        }),
        step_views(steps).len() == steps.len(),
        forall|i: int| 0 <= i < steps.len() ==> #[trigger] step_views(steps)[i] == steps[i]@,
        steps_valid(steps) <==> forall|i: int|
            0 <= i < steps.len() ==> (#[trigger] step_views(steps)[i]).valid(),
        step@ is Upsert ==> step@.valid() == step@->record.valid(),
        step@ is RemoveAname ==> step@.valid() == step@->name.valid(),
{
    assert(forall|i: int| 0 <= i < steps.len() ==> #[trigger] step_views(steps)[i] == steps[i]@);
    if forall|i: int| 0 <= i < steps.len() ==> (#[trigger] step_views(steps)[i]).valid() {
        assert forall|i: int| 0 <= i < steps.len() implies (#[trigger] steps[i])@.valid() by {
            assert(step_views(steps)[i].valid());
        }
    }
}

/// The parts of a plan have one step for each address or name, in order: an address is stored under
/// the domain name, a further name with the domain name as its target, and a name that is gone is
/// removed as it was written and read.
pub proof fn law_each_item_of_a_plan_has_its_step(
    name: NameView,
    ttl: u32,
    addresses: Seq<IpAddress>,
    anames: Seq<(Seq<char>, NameView)>,
)
    ensures
        address_steps(name, ttl, addresses).len() == addresses.len(),
        forall|i: int|
            0 <= i < addresses.len() ==> #[trigger] address_steps(name, ttl, addresses)[i] == (
            ApplyStepView::Upsert {
                record: RecordView { owner: name, ttl, data: RecordDataView::Address(addresses[i]) },
                event: added(name_text(name), addresses[i].spec_text()),
            }),
        aname_steps(name, ttl, anames).len() == anames.len(),
        forall|i: int|
            0 <= i < anames.len() ==> #[trigger] aname_steps(name, ttl, anames)[i] == (
            ApplyStepView::Upsert {
                record: RecordView { owner: anames[i].1, ttl, data: RecordDataView::Aname(name) },
                event: added(name_text(anames[i].1), name_text(name)),
            }),
        remove_steps(anames).len() == anames.len(),
        forall|i: int|
            0 <= i < anames.len() ==> #[trigger] remove_steps(anames)[i] == (
            ApplyStepView::RemoveAname { text: anames[i].0, name: anames[i].1 }),
{
}

} // verus!
