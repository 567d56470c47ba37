//! The decisions at the start and at the end of a reconciliation.
use crate::error::{finalizer_error, Error, FinalizerError};
use crate::event::{event_view, failed, Event};
use crate::service::{get_hld_annotation, is_load_balancer, EntriesView, Service};
use crate::state::{remembered, ReconcilerState};
use vstd::prelude::*;

verus! {

/// When a service is looked at again.
#[derive(Clone, Copy, Debug, PartialEq, Eq, Structural)]
pub enum Action {
    /// After so many seconds, or when it changes.
    Requeue(u64),
    /// When it changes.
    AwaitChange,
}

/// For how many seconds a service is left alone once nothing is to be done about it.
pub const RESYNC_SECONDS: u64 = 3600;

/// After how many seconds a failed reconciliation is tried again.
pub const RETRY_SECONDS: u64 = 5;

/// What a reconciliation does with a service.
#[derive(Clone, Copy, Debug, PartialEq, Eq, Structural)]
pub enum ReconcileStep {
    /// The service is none of this program's business.
    Ignore(Action),
    /// The annotation is gone but the records are not: clean up at once.
    EarlyCleanup,
    /// Apply or clean up, as the finalizer says.
    Finalize,
}

/// The name that stands in for that of a service without one.
pub const NO_NAME: &'static str = "???";

impl Service {
    /// The name under which the service is remembered.
    pub open spec fn lb_name(&self) -> Seq<char> {
        match self.metadata.name {
            Some(name) => name@,
            None => NO_NAME@,
        }
    }

    /// Whether and how the service is dealt with, given the names that each service was last given.
    pub open spec fn decision(&self, domains: Map<Seq<char>, EntriesView>) -> Result<
        ReconcileStep,
        Error,
    > {
        if self.metadata.name is None {
            Err(Error::FinalizerUnnamedObject)
        } else if !self.is_load_balancer() {
            Ok(ReconcileStep::Ignore(Action::Requeue(RESYNC_SECONDS)))
        } else if self.metadata.namespace is None {
            Err(Error::NoNamespace)
        } else if self.entries() is Some {
            Ok(ReconcileStep::Finalize)
        } else if remembered(domains, self.lb_name()) is Some {
            Ok(ReconcileStep::EarlyCleanup)
        } else {
            Ok(ReconcileStep::Ignore(Action::Requeue(RESYNC_SECONDS)))
        }
    }
}

/// No service gets the finalizer but a load balancer that is annotated, and whose update can therefore
/// be planned.
pub proof fn law_only_annotated_load_balancers_are_finalized(
    service: &Service,
    domains: Map<Seq<char>, EntriesView>,
)
    ensures
        service.decision(domains) == Ok::<_, Error>(ReconcileStep::Finalize) <==> {
            &&& service.is_load_balancer()
            &&& service.entries() is Some
            &&& service.metadata.name is Some
            &&& service.metadata.namespace is Some
        },
{
}

/// The name under which the service is remembered.
pub(crate) fn lb_name(srv: &Service) -> (r: String)
    ensures
        r@ == srv.lb_name(),
{
    match &srv.metadata.name {
        Some(name) => name.clone(),
        None => NO_NAME.to_owned(),
    }
}

/// Whether and how a service is dealt with. A service without a name is an error, and so is a load
/// balancer without a namespace; any other service than a load balancer is ignored, and so is a
/// load balancer that neither has names nor had any.
pub fn reconcile(service: &Service, state: &ReconcilerState) -> (r: Result<ReconcileStep, Error>)
    ensures
        r == service.decision(state@),
{
    let is_lb = is_load_balancer(service);
    match &service.metadata.name {
        None => Err(Error::FinalizerUnnamedObject),
        Some(name) => {
            if !is_lb {
                return Ok(ReconcileStep::Ignore(Action::Requeue(RESYNC_SECONDS)));
            }
            let anno = get_hld_annotation(service);
            let previous_anno = state.domain_for_service(name.as_str());
            if service.metadata.namespace.is_none() {
                return Err(Error::NoNamespace);
            }
            if anno.is_none() && previous_anno.is_none() {
                return Ok(ReconcileStep::Ignore(Action::Requeue(RESYNC_SECONDS)));
            }
            if anno.is_none() && previous_anno.is_some() {
                return Ok(ReconcileStep::EarlyCleanup);
            }
            Ok(ReconcileStep::Finalize)
        },
    }
}

/// How a reconciliation ends that went through the finalizer.
pub struct FinishReport {
    /// What is to be published.
    pub event: Option<Event>,
    pub outcome: Result<Action, Error>,
}

/// What becomes of a service once the finalizer has run: a failure is reported, with its text, and
/// handed on.
pub fn finish_reconcile(result: Result<Action, FinalizerError>, error_text: &str) -> (r:
    FinishReport)
    ensures
        event_view(r.event) == match result {
            Ok(_) => None,
            Err(_) => Some(failed(error_text@)),
        },
        r.outcome == match result {
            Ok(action) => Ok::<_, Error>(action),
            Err(error) => Err(finalizer_error(error)),
        },
{
    match result {
        Ok(action) => FinishReport { event: None, outcome: Ok(action) },
        Err(error) => FinishReport {
            event: Some(Event::failed(error_text)),
            outcome: Err(Error::from(error)),
        },
    }
}

/// When a service is looked at again whose reconciliation failed.
pub fn error_policy(_error: &Error) -> (r: Action)
    ensures
        r == Action::Requeue(RETRY_SECONDS),
{
    Action::Requeue(RETRY_SECONDS)
}

/// A service with a name is remembered under that name itself, whatever else it says; services without
/// a name share one that no service has.
pub proof fn law_services_are_remembered_by_their_own_name(service: &Service)
    ensures
        service.metadata.name is Some ==> service.lb_name() == service.metadata.name->0@,
        service.metadata.name is None ==> service.lb_name() == "???"@,
{
}

/// What an update or a cleanup of a named service does to the memory changes nothing that is
/// remembered of a service of another name.
pub proof fn law_named_services_are_remembered_apart(
    service: &Service,
    other: &Service,
    domains: Map<Seq<char>, EntriesView>,
    entries: EntriesView,
)
    requires
        service.metadata.name is Some,
        other.metadata.name is Some,
        service.metadata.name->0@ != other.metadata.name->0@,
    ensures
        remembered(domains.insert(service.lb_name(), entries), other.lb_name()) == remembered(
            domains,
            other.lb_name(),
        ),
        remembered(domains.remove(service.lb_name()), other.lb_name()) == remembered(
            domains,
            other.lb_name(),
        ),
        remembered(domains.insert(service.lb_name(), entries), service.metadata.name->0@) == Some(
            entries,
        ),
        remembered(domains.remove(service.lb_name()), service.metadata.name->0@) is None,
{
}

/// A service that does not ask for a load balancer is left alone for an hour, whatever else it says
/// and whatever is remembered; only one without a name is an error.
pub proof fn law_other_services_are_ignored(
    service: &Service,
    domains: Map<Seq<char>, EntriesView>,
)
    requires
        service.metadata.name is Some,
        service.spec is None || service.spec->0.type_ is None || service.spec->0.type_->0@
            != "LoadBalancer"@,
    ensures
        service.decision(domains) == Ok::<_, Error>(ReconcileStep::Ignore(Action::Requeue(3600))),
{
}

/// A service is cleaned up early exactly if it is a load balancer with a name and a namespace that has
/// lost its annotation and is still remembered.
pub proof fn law_early_cleanup_is_for_lost_annotations(
    service: &Service,
    domains: Map<Seq<char>, EntriesView>,
)
    ensures
        service.decision(domains) == Ok::<_, Error>(ReconcileStep::EarlyCleanup) <==> {
            &&& service.metadata.name is Some
            &&& service.metadata.namespace is Some
            &&& service.spec is Some
            &&& service.spec->0.type_ is Some
            &&& service.spec->0.type_->0@ == "LoadBalancer"@
            &&& service.entries() is None
            &&& domains.contains_key(service.metadata.name->0@)
        },
{
}

/// A load balancer with a name and a namespace that has neither names nor memories is left alone for
/// an hour, and one that has names is never ignored.
pub proof fn law_load_balancers_are_ignored_only_without_names(
    service: &Service,
    domains: Map<Seq<char>, EntriesView>,
)
    requires
        service.metadata.name is Some,
        service.metadata.namespace is Some,
        service.spec is Some,
        service.spec->0.type_ is Some,
        service.spec->0.type_->0@ == "LoadBalancer"@,
    ensures
        service.decision(domains) is Ok,
        service.decision(domains)->Ok_0 is Ignore <==> service.entries() is None
            && !domains.contains_key(service.metadata.name->0@),
        service.decision(domains)->Ok_0 is Ignore ==> service.decision(domains)->Ok_0
            == ReconcileStep::Ignore(Action::Requeue(3600)),
        service.decision(domains)->Ok_0 is Finalize <==> service.entries() is Some,
{
}

/// A reconciliation is refused exactly for a service without a name, and for a load balancer without
/// a namespace.
pub proof fn law_refused_services(service: &Service, domains: Map<Seq<char>, EntriesView>)
    ensures
        service.metadata.name is None ==> service.decision(domains) == Err::<ReconcileStep, _>(
            Error::FinalizerUnnamedObject,
        ),
        service.metadata.name is Some ==> {
            let lb = {
                &&& service.spec is Some
                &&& service.spec->0.type_ is Some
                &&& service.spec->0.type_->0@ == "LoadBalancer"@
            };
            &&& service.decision(domains) is Err <==> lb && service.metadata.namespace is None
            &&& service.decision(domains) is Err ==> service.decision(domains)->Err_0 is NoNamespace
        },
{
}

} // verus!
