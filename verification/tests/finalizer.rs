//! The finalizer, the errors and the events around it.
use homelab_dns::error::{Error, FinalizerError};
use homelab_dns::event::{Event, EventType};
use homelab_dns::patch::{finalizer_index, remove_finalizer, remove_finalizer_at};
use homelab_dns::reconcile::{error_policy, finish_reconcile, Action};
use homelab_dns::service::{ObjectMeta, Service};
use json_patch::PatchOperation;
use kube::Error as KubeError;

const OURS: &str = "homelab-dns.k8s.r0ssd.co/cleanup";

fn service(name: Option<&str>, finalizers: Option<&[&str]>) -> Service {
    Service {
        metadata: ObjectMeta {
            name: name.map(|n| n.to_string()),
            namespace: None,
            annotations: None,
            finalizers: finalizers.map(|f| f.iter().map(|t| t.to_string()).collect()),
        },
        spec: None,
        status: None,
    }
}

fn name_error() -> Error {
    Error::from(homelab_dns::names::DomainName::parse("a..b").unwrap_err())
}

#[test]
fn finalizer_is_found_at_its_first_place() {
    assert_eq!(finalizer_index(&service(None, Some(&["other", OURS, OURS]))), Some(1));
    assert_eq!(finalizer_index(&service(None, Some(&[OURS]))), Some(0));
    assert_eq!(finalizer_index(&service(None, Some(&["other"]))), None);
    assert_eq!(finalizer_index(&service(None, Some(&[]))), None);
    assert_eq!(finalizer_index(&service(None, None)), None);
}

#[test]
fn patch_tests_before_it_removes() {
    let patch = remove_finalizer_at(12);
    assert_eq!(patch.0.len(), 2);
    match &patch.0[0] {
        PatchOperation::Test(test) => {
            assert_eq!(test.path.to_string(), "/metadata/finalizers/12");
            assert_eq!(test.value.as_str(), Some(OURS));
        }
        _ => panic!("no test"),
    }
    match &patch.0[1] {
        PatchOperation::Remove(remove) => {
            assert_eq!(remove.path.to_string(), "/metadata/finalizers/12");
        }
        _ => panic!("no removal"),
    }
    for index in [0, 9, 10, 100, 1234567890, usize::MAX] {
        let path = format!("/metadata/finalizers/{}", index);
        assert_eq!(remove_finalizer_at(index).0[1].path().to_string(), path);
    }
}

#[test]
fn patch_spares_foreign_finalizers() {
    let target = "{\"metadata\":{\"finalizers\":[\"other\",\"homelab-dns.k8s.r0ssd.co/cleanup\"]}}";
    let mut object = target.parse().unwrap();
    json_patch::patch(&mut object, &remove_finalizer_at(1)).unwrap();
    assert_eq!(object.to_string(), "{\"metadata\":{\"finalizers\":[\"other\"]}}");
    let mut object = target.parse().unwrap();
    assert!(json_patch::patch(&mut object, &remove_finalizer_at(0)).is_err());
    assert_eq!(object.to_string(), target);
    assert!(json_patch::patch(&mut object, &remove_finalizer_at(2)).is_err());
    assert_eq!(object.to_string(), target);
}

#[test]
fn finalizer_removal_names_the_service() {
    let patch = remove_finalizer(&service(Some("web"), Some(&["other", OURS]))).unwrap().unwrap();
    assert_eq!(patch.name, "web");
    assert_eq!(patch.patch, remove_finalizer_at(1));
}

#[test]
fn nothing_to_patch_without_finalizer() {
    assert!(remove_finalizer(&service(Some("web"), Some(&["other"]))).unwrap().is_none());
    assert!(remove_finalizer(&service(None, None)).unwrap().is_none());
}

#[test]
fn finalizer_of_an_unnamed_service_stays() {
    let error = remove_finalizer(&service(None, Some(&[OURS]))).unwrap_err();
    assert!(matches!(error, Error::FinalizerUnnamedObject));
}

#[test]
fn error_messages() {
    assert_eq!(name_error().message(), "dns name conversion failure");
    assert_eq!(Error::NoNamespace.message(), "no namespace found in object");
    assert_eq!(Error::from(KubeError::TlsRequired).message(), "kube-rs failure");
    assert_eq!(
        Error::FinalizerApplyFailed { source: Box::new(Error::NoNamespace) }.message(),
        "finalizer failed to apply"
    );
    assert_eq!(
        Error::FinalizerCleanupFailed { source: Box::new(Error::NoNamespace) }.message(),
        "finalizer cleanup failed"
    );
    assert_eq!(
        Error::FinalizerAddFailed { source: KubeError::TlsRequired }.message(),
        "failed to add finalizer"
    );
    assert_eq!(
        Error::FinalizerRemoveFailed { source: KubeError::TlsRequired }.message(),
        "failed to add finalizer"
    );
    assert_eq!(Error::FinalizerUnnamedObject.message(), "unnamed object");
    assert_eq!(Error::FinalizerInvalid.message(), "invalid finalizer");
}

#[test]
fn finalizer_failures_become_errors() {
    match Error::from(FinalizerError::ApplyFailed(Error::NoNamespace)) {
        Error::FinalizerApplyFailed { source } => assert!(matches!(*source, Error::NoNamespace)),
        _ => panic!("another error"),
    }
    match Error::from(FinalizerError::CleanupFailed(name_error())) {
        Error::FinalizerCleanupFailed { source } => {
            assert!(matches!(*source, Error::TrustDNSProto(_)))
        }
        _ => panic!("another error"),
    }
    assert!(matches!(
        Error::from(FinalizerError::AddFinalizer(KubeError::TlsRequired)),
        Error::FinalizerAddFailed { source: KubeError::TlsRequired }
    ));
    assert!(matches!(
        Error::from(FinalizerError::RemoveFinalizer(KubeError::TlsRequired)),
        Error::FinalizerRemoveFailed { source: KubeError::TlsRequired }
    ));
    assert!(matches!(
        Error::from(FinalizerError::UnnamedObject),
        Error::FinalizerUnnamedObject
    ));
    assert!(matches!(Error::from(FinalizerError::InvalidFinalizer), Error::FinalizerInvalid));
    assert!(matches!(Error::from(KubeError::TlsRequired), Error::Kube(KubeError::TlsRequired)));
}

#[test]
fn failure_is_published_and_handed_on() {
    let report = finish_reconcile(
        Err(FinalizerError::ApplyFailed(name_error())),
        "failed to apply object: dns name conversion failure",
    );
    let event = report.event.unwrap();
    assert_eq!(event.type_, EventType::Warning);
    assert_eq!(event.action, "error");
    assert_eq!(event.reason, "dnsUpdate");
    assert_eq!(
        event.note.unwrap(),
        "failed to update dns: failed to apply object: dns name conversion failure"
    );
    assert!(matches!(report.outcome, Err(Error::FinalizerApplyFailed { .. })));
}

#[test]
fn success_is_handed_on_in_silence() {
    let report = finish_reconcile(Ok(Action::Requeue(3600)), "");
    assert!(report.event.is_none());
    assert_eq!(report.outcome.unwrap(), Action::Requeue(3600));
}

#[test]
fn failed_services_are_tried_again_soon() {
    assert_eq!(error_policy(&Error::NoNamespace), Action::Requeue(5));
    assert_eq!(error_policy(&name_error()), Action::Requeue(5));
}

#[test]
fn event_notes() {
    let event = Event::added("web.lab", "10.0.0.1");
    assert_eq!(event.type_, EventType::Normal);
    assert_eq!(event.action, "add");
    assert_eq!(event.reason, "dnsUpdate");
    assert_eq!(event.note.unwrap(), "adding dns record mapping 'web.lab' to '10.0.0.1'");
    let event = Event::removed("web.lab");
    assert_eq!(event.type_, EventType::Normal);
    assert_eq!(event.action, "remove");
    assert_eq!(event.reason, "dnsUpdate");
    assert_eq!(event.note.unwrap(), "removing dns record 'web.lab'");
}
