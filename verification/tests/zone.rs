//! Decisions, updates and cleanups, carried out on a real zone.
use hickory_proto::rr::rdata::CNAME;
use hickory_proto::rr::{LowerName, Name, RData, Record, RecordType as Type, RrKey};
use hickory_server::authority::ZoneType;
use hickory_server::store::in_memory::InMemoryAuthority;
use homelab_dns::apply::{finish_apply, fresh_names, reconcile_apply, ApplyStep};
use homelab_dns::cleanup::{
    finish_early_cleanup, reconcile_cleanup, reconcile_early_cleanup, remove_aname, remove_entries,
};
use homelab_dns::error::Error;
use homelab_dns::event::Event;
use homelab_dns::names::DomainName;
use homelab_dns::parsing::{parse_names, ParsedName};
use homelab_dns::reconcile::{reconcile, Action, ReconcileStep};
use homelab_dns::records::generate_initial_records;
use homelab_dns::service::{
    AnnotationEntries, LoadBalancerIngress, LoadBalancerStatus, ObjectMeta, Service, ServiceSpec,
    ServiceStatus,
};
use homelab_dns::state::ReconcilerState;
use kube::Error as KubeError;
use std::str::FromStr;

const OURS: &str = "homelab-dns.k8s.r0ssd.co/cleanup";

fn strings(texts: &[&str]) -> Vec<String> {
    texts.iter().map(|t| t.to_string()).collect()
}

fn service(a_record: Option<&str>, anames: Option<&str>, ips: &[&str]) -> Service {
    let mut annotations = vec![("unrelated".to_string(), "value".to_string())];
    if let Some(a_record) = a_record {
        annotations.push(("k8s.r0ssd.co/dns-entry".to_string(), a_record.to_string()));
    }
    if let Some(anames) = anames {
        annotations.push(("k8s.r0ssd.co/cname-entry".to_string(), anames.to_string()));
    }
    Service {
        metadata: ObjectMeta {
            name: Some("web".to_string()),
            namespace: Some("default".to_string()),
            annotations: Some(annotations),
            finalizers: Some(strings(&["other", OURS])),
        },
        spec: Some(ServiceSpec { type_: Some("LoadBalancer".to_string()) }),
        status: Some(ServiceStatus {
            load_balancer: Some(LoadBalancerStatus {
                ingress: Some(
                    ips.iter().map(|ip| LoadBalancerIngress { ip: Some(ip.to_string()) }).collect(),
                ),
            }),
        }),
    }
}

fn zone() -> InMemoryAuthority {
    let records = generate_initial_records(&DomainName::parse("home.lab").unwrap());
    InMemoryAuthority::new(Name::from_str("home.lab").unwrap(), records, ZoneType::Primary, false)
        .unwrap()
}

fn notes(events: Vec<Event>) -> Vec<String> {
    events.into_iter().map(|e| e.note.unwrap()).collect()
}

/// Carries a plan out, and gives the notes of the events and the outcome.
fn update(
    service: &Service,
    state: &mut ReconcilerState,
    zone: &mut InMemoryAuthority,
) -> (Vec<String>, Result<Action, Error>) {
    let mut plan = reconcile_apply(service, state);
    let mut events = Vec::new();
    for step in std::mem::take(&mut plan.steps) {
        if let ApplyStep::RemoveAname(aname) = &step {
            events.extend(remove_aname(zone.records_get_mut(), aname));
        }
        let mut stored = false;
        if let ApplyStep::Upsert { record, .. } = &step {
            for made in record.to_record_set().records_without_rrsigs() {
                stored = zone.upsert_mut(made.clone(), 0);
            }
        }
        events.extend(step.event_after(stored));
    }
    (notes(events), finish_apply(state, plan))
}

fn has(zone: &mut InMemoryAuthority, owner: &str, record_type: Type) -> bool {
    let owner = Name::from_str(owner).unwrap();
    zone.records_get_mut().contains_key(&RrKey::new(LowerName::new(&owner), record_type))
}

/// What the records under a key say, with their times to live.
fn contents(zone: &mut InMemoryAuthority, owner: &str, record_type: Type) -> Vec<(String, u32)> {
    let owner = Name::from_str(owner).unwrap();
    let mut found: Vec<(String, u32)> = zone.records_get_mut()
        [&RrKey::new(LowerName::new(&owner), record_type)]
        .records_without_rrsigs()
        .map(|r| (r.data().unwrap().to_string(), r.ttl()))
        .collect();
    found.sort();
    found
}

#[test]
fn services_that_are_no_load_balancers_are_ignored() {
    let state = ReconcilerState::new(300);
    let mut srv = service(Some("web.home.lab"), None, &[]);
    srv.spec = Some(ServiceSpec { type_: Some("ClusterIP".to_string()) });
    srv.metadata.namespace = None;
    let step = reconcile(&srv, &state).unwrap();
    assert_eq!(step, ReconcileStep::Ignore(Action::Requeue(3600)));
}

#[test]
fn unnamed_services_are_errors() {
    let state = ReconcilerState::new(300);
    let mut srv = service(Some("web.home.lab"), None, &[]);
    srv.metadata.name = None;
    srv.spec = None;
    assert!(matches!(reconcile(&srv, &state), Err(Error::FinalizerUnnamedObject)));
}

#[test]
fn load_balancers_without_namespace_are_errors() {
    let state = ReconcilerState::new(300);
    let mut srv = service(None, None, &[]);
    srv.metadata.namespace = None;
    assert!(matches!(reconcile(&srv, &state), Err(Error::NoNamespace)));
}

#[test]
fn annotation_decides_about_load_balancers() {
    let mut state = ReconcilerState::new(300);
    let marked = service(Some("web.home.lab"), None, &[]);
    let bare = service(None, Some("a.home.lab"), &[]);
    assert_eq!(reconcile(&marked, &state).unwrap(), ReconcileStep::Finalize);
    assert_eq!(
        reconcile(&bare, &state).unwrap(),
        ReconcileStep::Ignore(Action::Requeue(3600))
    );
    let entries = AnnotationEntries { a_record: "web.home.lab".to_string(), anames: vec![] };
    state.set_domain_for_service("web", &entries);
    assert_eq!(reconcile(&marked, &state).unwrap(), ReconcileStep::Finalize);
    assert_eq!(reconcile(&bare, &state).unwrap(), ReconcileStep::EarlyCleanup);
}

#[test]
fn fresh_names_are_the_difference() {
    assert_eq!(
        fresh_names(&strings(&["b", "a", "b", "c"]), &strings(&["c", "d"])),
        strings(&["b", "a"])
    );
    assert_eq!(fresh_names(&strings(&["a"]), &strings(&["a"])), strings(&[]));
    assert_eq!(fresh_names(&strings(&["a", "A"]), &strings(&[])), strings(&["a", "A"]));
}

#[test]
fn update_stores_addresses_and_names() {
    let mut state = ReconcilerState::new(300);
    let mut zone = zone();
    let srv = service(
        Some("web.home.lab"),
        Some("a.home.lab,b.home.lab"),
        &["10.0.0.1", "nonsense", "2001:db8::2"],
    );
    let (notes, outcome) = update(&srv, &mut state, &mut zone);
    assert_eq!(
        notes,
        strings(&[
            "adding dns record mapping 'web.home.lab' to '10.0.0.1'",
            "adding dns record mapping 'web.home.lab' to '2001:db8::2'",
            "adding dns record mapping 'a.home.lab' to 'web.home.lab'",
            "adding dns record mapping 'b.home.lab' to 'web.home.lab'",
        ])
    );
    assert_eq!(outcome.unwrap(), Action::Requeue(3600));
    assert!(has(&mut zone, "web.home.lab", Type::A));
    assert!(has(&mut zone, "web.home.lab", Type::AAAA));
    assert!(has(&mut zone, "a.home.lab", Type::ANAME));
    assert!(has(&mut zone, "b.home.lab", Type::ANAME));
    let remembered = state.domain_for_service("web").unwrap();
    assert_eq!(remembered.a_record, "web.home.lab");
    assert_eq!(remembered.anames, strings(&["a.home.lab", "b.home.lab"]));
}

#[test]
fn update_settles() {
    let mut state = ReconcilerState::new(300);
    let mut zone = zone();
    let srv = service(Some("web.home.lab"), Some("a.home.lab"), &["10.0.0.1"]);
    update(&srv, &mut state, &mut zone).1.unwrap();
    let plan = reconcile_apply(&srv, &state);
    assert_eq!(plan.steps.len(), 1);
    let keys: Vec<RrKey> = zone.records_get_mut().keys().cloned().collect();
    let (notes, outcome) = update(&srv, &mut state, &mut zone);
    assert!(notes.is_empty());
    assert_eq!(outcome.unwrap(), Action::Requeue(3600));
    assert_eq!(zone.records_get_mut().keys().cloned().collect::<Vec<_>>(), keys);
}

#[test]
fn update_keeps_what_the_zone_holds() {
    let mut zone = zone();
    let srv = service(Some("web.home.lab"), Some("a.home.lab"), &["10.0.0.1", "10.0.0.2"]);
    update(&srv, &mut ReconcilerState::new(300), &mut zone).1.unwrap();
    let more = service(
        Some("web.home.lab"),
        Some("a.home.lab"),
        &["10.0.0.2", "10.0.0.3", "10.0.0.3", "::1"],
    );
    let mut state = ReconcilerState::new(60);
    for _ in 0..2 {
        update(&more, &mut state, &mut zone).1.unwrap();
        assert_eq!(
            contents(&mut zone, "web.home.lab", Type::A),
            vec![
                ("10.0.0.1".to_string(), 300),
                ("10.0.0.2".to_string(), 300),
                ("10.0.0.3".to_string(), 60),
            ]
        );
        assert_eq!(
            contents(&mut zone, "web.home.lab", Type::AAAA),
            vec![("::1".to_string(), 60)]
        );
        assert_eq!(
            contents(&mut zone, "a.home.lab", Type::ANAME),
            vec![("web.home.lab".to_string(), 60)]
        );
    }
}

#[test]
fn new_name_replaces_the_record_of_another_service() {
    let mut state = ReconcilerState::new(300);
    let mut zone = zone();
    let web = service(Some("web.home.lab"), Some("a.home.lab"), &[]);
    let mut db = service(Some("db.home.lab"), Some("a.home.lab"), &[]);
    db.metadata.name = Some("db".to_string());
    update(&web, &mut state, &mut zone).1.unwrap();
    update(&db, &mut state, &mut zone).1.unwrap();
    assert_eq!(
        contents(&mut zone, "a.home.lab", Type::ANAME),
        vec![("db.home.lab".to_string(), 300)]
    );
    update(&web, &mut state, &mut zone).1.unwrap();
    assert_eq!(
        contents(&mut zone, "a.home.lab", Type::ANAME),
        vec![("db.home.lab".to_string(), 300)]
    );
}

#[test]
fn update_leaves_the_other_address_family_alone() {
    let mut zone = zone();
    let both = service(Some("web.home.lab"), None, &["10.0.0.1", "::1"]);
    update(&both, &mut ReconcilerState::new(300), &mut zone).1.unwrap();
    let one = service(Some("web.home.lab"), None, &["10.0.0.2"]);
    update(&one, &mut ReconcilerState::new(300), &mut zone).1.unwrap();
    assert_eq!(contents(&mut zone, "web.home.lab", Type::A).len(), 2);
    assert_eq!(
        contents(&mut zone, "web.home.lab", Type::AAAA),
        vec![("::1".to_string(), 300)]
    );
}

#[test]
fn kept_name_without_record_stays_without() {
    let mut state = ReconcilerState::new(300);
    let mut zone = zone();
    let old = AnnotationEntries {
        a_record: "web.home.lab".to_string(),
        anames: strings(&["a.home.lab"]),
    };
    state.set_domain_for_service("web", &old);
    let srv = service(Some("web.home.lab"), Some("a.home.lab"), &[]);
    update(&srv, &mut state, &mut zone).1.unwrap();
    assert!(!has(&mut zone, "a.home.lab", Type::ANAME));
}

#[test]
fn nothing_is_stored_beside_a_cname() {
    let mut state = ReconcilerState::new(300);
    let mut zone = zone();
    for owner in ["web.home.lab", "a.home.lab"] {
        let target = CNAME(Name::from_str("elsewhere.lab").unwrap());
        let cname = Record::from_rdata(Name::from_str(owner).unwrap(), 1, RData::CNAME(target));
        assert!(zone.upsert_mut(cname, 0));
    }
    let srv =
        service(Some("web.home.lab"), Some("a.home.lab,b.home.lab"), &["10.0.0.1", "::1"]);
    let (notes, outcome) = update(&srv, &mut state, &mut zone);
    assert_eq!(
        notes,
        strings(&["adding dns record mapping 'b.home.lab' to 'web.home.lab'"])
    );
    outcome.unwrap();
    assert!(!has(&mut zone, "web.home.lab", Type::A));
    assert!(!has(&mut zone, "web.home.lab", Type::AAAA));
    assert!(!has(&mut zone, "a.home.lab", Type::ANAME));
    assert!(has(&mut zone, "a.home.lab", Type::CNAME));
    assert!(has(&mut zone, "b.home.lab", Type::ANAME));
}

/// The text of the error inside a failure to read a name.
fn inner(error: Error) -> String {
    match error {
        Error::TrustDNSProto(inner) => inner.to_string(),
        _ => panic!("another error"),
    }
}

fn refusal(text: &str) -> String {
    Name::from_str(text).unwrap_err().to_string()
}

#[test]
fn failure_carries_the_error_of_the_first_text() {
    let (long, spaced) = ("x".repeat(64), "x x");
    assert_ne!(refusal(&long), refusal(spaced));
    let mut zone = zone();
    let mut state = ReconcilerState::new(300);
    for (first, second) in [(long.as_str(), spaced), (spaced, long.as_str())] {
        let names = format!("a.home.lab,{},{}", first, second);
        let srv = service(Some("web.home.lab"), Some(&names), &[]);
        assert_eq!(inner(reconcile_apply(&srv, &state).outcome.unwrap_err()), refusal(first));
        let report = reconcile_cleanup(&srv, &mut state, zone.records_get_mut());
        assert_eq!(inner(report.outcome.unwrap_err()), refusal(first));
        let early = reconcile_early_cleanup(&srv, &mut state, zone.records_get_mut());
        assert_eq!(inner(early.outcome.unwrap_err()), refusal(first));
        // An update reads the domain name first, a cleanup reads it last.
        let srv = service(Some(first), Some(second), &[]);
        assert_eq!(inner(reconcile_apply(&srv, &state).outcome.unwrap_err()), refusal(first));
        let report = reconcile_cleanup(&srv, &mut state, zone.records_get_mut());
        assert_eq!(inner(report.outcome.unwrap_err()), refusal(second));
    }
}

#[test]
fn update_swaps_names() {
    let mut state = ReconcilerState::new(300);
    let mut zone = zone();
    let before = service(Some("web.home.lab"), Some("a.home.lab,b.home.lab"), &["10.0.0.1"]);
    update(&before, &mut state, &mut zone).1.unwrap();
    let after = service(Some("web.home.lab"), Some("b.home.lab,c.home.lab"), &["10.0.0.1"]);
    let (notes, outcome) = update(&after, &mut state, &mut zone);
    assert_eq!(
        notes,
        strings(&[
            "adding dns record mapping 'c.home.lab' to 'web.home.lab'",
            "removing dns record 'a.home.lab'",
        ])
    );
    outcome.unwrap();
    assert!(!has(&mut zone, "a.home.lab", Type::ANAME));
    assert!(has(&mut zone, "b.home.lab", Type::ANAME));
    assert!(has(&mut zone, "c.home.lab", Type::ANAME));
    assert_eq!(
        state.domain_for_service("web").unwrap().anames,
        strings(&["b.home.lab", "c.home.lab"])
    );
}

#[test]
fn nothing_is_left_after_updates_and_a_cleanup() {
    let mut state = ReconcilerState::new(300);
    let mut zone = zone();
    let keys: Vec<RrKey> = zone.records_get_mut().keys().cloned().collect();
    for anames in [Some("a.home.lab,b.home.lab"), Some("b.home.lab,c.home.lab"), None] {
        let srv = service(Some("web.home.lab"), anames, &["10.0.0.1", "::1"]);
        update(&srv, &mut state, &mut zone).1.unwrap();
    }
    let bare = service(None, None, &[]);
    reconcile_early_cleanup(&bare, &mut state, zone.records_get_mut()).outcome.unwrap();
    assert_eq!(zone.records_get_mut().keys().cloned().collect::<Vec<_>>(), keys);
}

#[test]
fn changed_domain_name_leaves_old_addresses() {
    let mut state = ReconcilerState::new(300);
    let mut zone = zone();
    update(&service(Some("old.home.lab"), None, &["10.0.0.1"]), &mut state, &mut zone).1.unwrap();
    let srv = service(Some("new.home.lab"), None, &["10.0.0.1"]);
    update(&srv, &mut state, &mut zone).1.unwrap();
    reconcile_cleanup(&srv, &mut state, zone.records_get_mut()).outcome.unwrap();
    assert!(has(&mut zone, "old.home.lab", Type::A));
    assert!(!has(&mut zone, "new.home.lab", Type::A));
}

#[test]
fn name_written_anew_is_removed() {
    let mut state = ReconcilerState::new(300);
    let mut zone = zone();
    let before = service(Some("web.home.lab"), Some("A.home.lab"), &[]);
    update(&before, &mut state, &mut zone).1.unwrap();
    assert!(has(&mut zone, "a.home.lab", Type::ANAME));
    let after = service(Some("web.home.lab"), Some("a.home.lab"), &[]);
    update(&after, &mut state, &mut zone).1.unwrap();
    assert!(!has(&mut zone, "a.home.lab", Type::ANAME));
}

#[test]
fn update_spares_other_services() {
    let mut state = ReconcilerState::new(300);
    let mut zone = zone();
    let web = service(Some("web.home.lab"), Some("a.home.lab"), &["10.0.0.1"]);
    let mut db = service(Some("db.home.lab"), Some("d.home.lab"), &["10.0.0.2"]);
    db.metadata.name = Some("db".to_string());
    update(&db, &mut state, &mut zone).1.unwrap();
    update(&web, &mut state, &mut zone).1.unwrap();
    update(&service(Some("web.home.lab"), None, &[]), &mut state, &mut zone).1.unwrap();
    assert!(has(&mut zone, "db.home.lab", Type::A));
    assert!(has(&mut zone, "d.home.lab", Type::ANAME));
    assert!(!has(&mut zone, "a.home.lab", Type::ANAME));
    assert!(has(&mut zone, "home.lab", Type::SOA));
    assert!(!has(&mut zone, "home.lab", Type::NS));
}

#[test]
fn update_of_an_unreadable_domain_name_does_nothing() {
    let mut state = ReconcilerState::new(300);
    let mut zone = zone();
    let srv = service(Some("web..lab"), Some("a.home.lab"), &["10.0.0.1"]);
    let (notes, outcome) = update(&srv, &mut state, &mut zone);
    assert!(notes.is_empty());
    assert!(matches!(outcome, Err(Error::TrustDNSProto(_))));
    assert_eq!(zone.records_get_mut().len(), 1);
    assert!(state.domain_for_service("web").is_none());
}

#[test]
fn update_stops_at_an_unreadable_name() {
    let mut state = ReconcilerState::new(300);
    let mut zone = zone();
    let srv = service(Some("web.home.lab"), Some("a.home.lab,..,b.home.lab"), &["10.0.0.1"]);
    let (notes, outcome) = update(&srv, &mut state, &mut zone);
    assert_eq!(notes.len(), 2);
    assert!(matches!(outcome, Err(Error::TrustDNSProto(_))));
    assert!(has(&mut zone, "web.home.lab", Type::A));
    assert!(has(&mut zone, "a.home.lab", Type::ANAME));
    assert!(!has(&mut zone, "b.home.lab", Type::ANAME));
    assert!(state.domain_for_service("web").is_none());
}

#[test]
fn update_stops_at_an_unreadable_old_name() {
    let mut state = ReconcilerState::new(300);
    let mut zone = zone();
    let old = AnnotationEntries {
        a_record: "web.home.lab".to_string(),
        anames: strings(&["..", "a.home.lab"]),
    };
    state.set_domain_for_service("web", &old);
    let srv = service(Some("web.home.lab"), Some("b.home.lab"), &[]);
    let (notes, outcome) = update(&srv, &mut state, &mut zone);
    assert_eq!(
        notes,
        strings(&["adding dns record mapping 'b.home.lab' to 'web.home.lab'"])
    );
    assert!(matches!(outcome, Err(Error::TrustDNSProto(_))));
    assert_eq!(state.domain_for_service("web").unwrap().anames, strings(&["..", "a.home.lab"]));
}

#[test]
fn update_without_status_stores_names_only() {
    let mut state = ReconcilerState::new(300);
    let mut zone = zone();
    let mut srv = service(Some("web.home.lab"), Some("a.home.lab"), &[]);
    srv.status = None;
    let (notes, outcome) = update(&srv, &mut state, &mut zone);
    assert_eq!(
        notes,
        strings(&["adding dns record mapping 'a.home.lab' to 'web.home.lab'"])
    );
    outcome.unwrap();
    assert!(!has(&mut zone, "web.home.lab", Type::A));
}

#[test]
fn update_uses_the_time_to_live() {
    let state = ReconcilerState::new(77);
    let plan = reconcile_apply(&service(Some("web.home.lab"), None, &["10.0.0.1"]), &state);
    assert_eq!(plan.service, "web");
    assert_eq!(plan.steps.len(), 1);
    match &plan.steps[0] {
        ApplyStep::Upsert { record, .. } => assert_eq!(record.ttl, 77),
        ApplyStep::RemoveAname(_) => panic!("a removal"),
    }
}

#[test]
fn event_comes_only_after_a_change() {
    let state = ReconcilerState::new(300);
    let srv = service(Some("web.home.lab"), None, &["10.0.0.1"]);
    let step = reconcile_apply(&srv, &state).steps.remove(0);
    assert!(step.event_after(false).is_none());
    let step = reconcile_apply(&srv, &state).steps.remove(0);
    assert!(step.event_after(true).is_some());
    let name = DomainName::parse("a.home.lab").unwrap();
    let step = ApplyStep::RemoveAname(ParsedName { text: "a.home.lab".to_string(), name });
    assert!(step.event_after(true).is_none());
}

#[test]
fn cleanup_undoes_an_update() {
    let mut state = ReconcilerState::new(300);
    let mut zone = zone();
    let keys: Vec<RrKey> = zone.records_get_mut().keys().cloned().collect();
    let srv = service(
        Some("web.home.lab"),
        Some("b.home.lab,a.home.lab,b.home.lab"),
        &["10.0.0.1", "::1", "10.0.0.2"],
    );
    update(&srv, &mut state, &mut zone).1.unwrap();
    let report = reconcile_cleanup(&srv, &mut state, zone.records_get_mut());
    assert_eq!(
        notes(report.events),
        strings(&[
            "removing dns record 'b.home.lab'",
            "removing dns record 'a.home.lab'",
            "removing dns record 'web.home.lab'",
            "removing dns record 'web.home.lab'",
        ])
    );
    assert_eq!(report.outcome.unwrap(), Action::AwaitChange);
    assert_eq!(zone.records_get_mut().keys().cloned().collect::<Vec<_>>(), keys);
    assert!(state.domain_for_service("web").is_none());
}

#[test]
fn second_cleanup_finds_nothing() {
    let mut state = ReconcilerState::new(300);
    let mut zone = zone();
    let srv = service(Some("web.home.lab"), Some("a.home.lab"), &["10.0.0.1"]);
    update(&srv, &mut state, &mut zone).1.unwrap();
    reconcile_cleanup(&srv, &mut state, zone.records_get_mut()).outcome.unwrap();
    let report = reconcile_cleanup(&srv, &mut state, zone.records_get_mut());
    assert!(report.events.is_empty());
    assert_eq!(report.outcome.unwrap(), Action::AwaitChange);
    assert_eq!(zone.records_get_mut().len(), 1);
}

#[test]
fn cleanup_of_an_unknown_service_does_nothing() {
    let mut state = ReconcilerState::new(300);
    let mut zone = zone();
    let report =
        reconcile_cleanup(&service(None, None, &[]), &mut state, zone.records_get_mut());
    assert!(report.events.is_empty());
    assert_eq!(report.outcome.unwrap(), Action::AwaitChange);
    assert_eq!(zone.records_get_mut().len(), 1);
}

#[test]
fn cleanup_spares_other_services() {
    let mut state = ReconcilerState::new(300);
    let mut zone = zone();
    let web = service(Some("web.home.lab"), Some("a.home.lab"), &["10.0.0.1"]);
    let mut db = service(Some("db.home.lab"), Some("d.home.lab"), &["10.0.0.2"]);
    db.metadata.name = Some("db".to_string());
    update(&web, &mut state, &mut zone).1.unwrap();
    update(&db, &mut state, &mut zone).1.unwrap();
    reconcile_cleanup(&web, &mut state, zone.records_get_mut()).outcome.unwrap();
    assert!(!has(&mut zone, "web.home.lab", Type::A));
    assert!(has(&mut zone, "db.home.lab", Type::A));
    assert!(has(&mut zone, "d.home.lab", Type::ANAME));
    assert!(state.domain_for_service("db").is_some());
}

#[test]
fn failed_cleanup_keeps_addresses() {
    let mut state = ReconcilerState::new(300);
    let mut zone = zone();
    let srv = service(Some("web.home.lab"), Some("a.home.lab,b.home.lab"), &["10.0.0.1"]);
    update(&srv, &mut state, &mut zone).1.unwrap();
    let broken = service(Some("web.home.lab"), Some("a.home.lab,..,b.home.lab"), &[]);
    let report = reconcile_cleanup(&broken, &mut state, zone.records_get_mut());
    assert_eq!(notes(report.events), strings(&["removing dns record 'a.home.lab'"]));
    assert!(matches!(report.outcome, Err(Error::TrustDNSProto(_))));
    assert!(has(&mut zone, "b.home.lab", Type::ANAME));
    assert!(has(&mut zone, "web.home.lab", Type::A));
    assert!(state.domain_for_service("web").is_some());
}

#[test]
fn cleanup_fails_on_an_unreadable_domain_name() {
    let mut state = ReconcilerState::new(300);
    let mut zone = zone();
    let srv = service(Some("web..lab"), None, &[]);
    let report = reconcile_cleanup(&srv, &mut state, zone.records_get_mut());
    assert!(report.events.is_empty());
    assert!(matches!(report.outcome, Err(Error::TrustDNSProto(_))));
}

#[test]
fn entries_are_removed_as_they_were_read() {
    let mut state = ReconcilerState::new(300);
    let mut zone = zone();
    let srv = service(Some("web.home.lab"), Some("a.home.lab"), &["10.0.0.1"]);
    update(&srv, &mut state, &mut zone).1.unwrap();
    let (anames, _) = parse_names(&strings(&["a.home.lab"]));
    let report = remove_entries(zone.records_get_mut(), &anames, Err(Error::NoNamespace));
    assert_eq!(notes(report.events), strings(&["removing dns record 'a.home.lab'"]));
    assert!(matches!(report.outcome, Err(Error::NoNamespace)));
    let name = DomainName::parse("web.home.lab.").unwrap();
    let report = remove_entries(zone.records_get_mut(), &anames, Ok(name));
    assert_eq!(notes(report.events), strings(&["removing dns record 'web.home.lab.'"]));
    assert_eq!(report.outcome.unwrap(), Action::AwaitChange);
    assert_eq!(zone.records_get_mut().len(), 1);
}

#[test]
fn lost_annotation_is_cleaned_up_from_memory() {
    let mut state = ReconcilerState::new(300);
    let mut zone = zone();
    let srv = service(Some("web.home.lab"), Some("a.home.lab"), &["10.0.0.1"]);
    update(&srv, &mut state, &mut zone).1.unwrap();
    let bare = service(None, None, &["10.0.0.1"]);
    assert_eq!(reconcile(&bare, &state).unwrap(), ReconcileStep::EarlyCleanup);
    let early = reconcile_early_cleanup(&bare, &mut state, zone.records_get_mut());
    assert_eq!(
        notes(early.events),
        strings(&["removing dns record 'a.home.lab'", "removing dns record 'web.home.lab'"])
    );
    let patch = early.outcome.unwrap().unwrap();
    assert_eq!(patch.name, "web");
    assert_eq!(patch.patch.0[0].path().to_string(), "/metadata/finalizers/1");
    assert_eq!(zone.records_get_mut().len(), 1);
    assert_eq!(
        reconcile(&bare, &state).unwrap(),
        ReconcileStep::Ignore(Action::Requeue(3600))
    );
}

#[test]
fn early_cleanup_without_finalizer_sends_nothing() {
    let mut state = ReconcilerState::new(300);
    let mut zone = zone();
    let mut bare = service(None, None, &[]);
    bare.metadata.finalizers = None;
    let early = reconcile_early_cleanup(&bare, &mut state, zone.records_get_mut());
    assert!(early.events.is_empty());
    assert!(early.outcome.unwrap().is_none());
}

#[test]
fn failed_early_cleanup_keeps_the_finalizer() {
    let mut state = ReconcilerState::new(300);
    let mut zone = zone();
    let old = AnnotationEntries { a_record: "web..lab".to_string(), anames: vec![] };
    state.set_domain_for_service("web", &old);
    let early =
        reconcile_early_cleanup(&service(None, None, &[]), &mut state, zone.records_get_mut());
    assert!(matches!(early.outcome, Err(Error::TrustDNSProto(_))));
    assert!(state.domain_for_service("web").is_some());
}

#[test]
fn unsent_patch_is_an_error() {
    assert_eq!(finish_early_cleanup(Ok(())).unwrap(), Action::AwaitChange);
    assert!(matches!(
        finish_early_cleanup(Err(KubeError::TlsRequired)),
        Err(Error::FinalizerRemoveFailed { source: KubeError::TlsRequired })
    ));
}

#[test]
fn unnamed_services_share_a_placeholder() {
    let mut state = ReconcilerState::new(300);
    let mut zone = zone();
    let mut srv = service(Some("web.home.lab"), None, &["10.0.0.1"]);
    srv.metadata.name = None;
    update(&srv, &mut state, &mut zone).1.unwrap();
    assert!(state.domain_for_service("???").is_some());
    srv.metadata.annotations = None;
    reconcile_cleanup(&srv, &mut state, zone.records_get_mut()).outcome.unwrap();
    assert!(state.domain_for_service("???").is_none());
    assert_eq!(zone.records_get_mut().len(), 1);
}
