//! The errors of a reconciliation.
use hickory_proto::error::ProtoError;
use kube::Error as KubeError;
use vstd::prelude::*;
use vstd::std_specs::convert::FromSpec;

verus! {

/// The error of the Kubernetes client: carried, never looked into.
#[verifier::external_type_specification]
#[verifier::external_body]
pub struct ExKubeError(KubeError);

/// Why a reconciliation failed.
#[allow(inconsistent_fields)]
#[derive(Debug)]
pub enum Error {
    /// The DNS library refused a name.
    TrustDNSProto(ProtoError),
    /// The service has no namespace.
    NoNamespace,
    /// The Kubernetes client failed.
    Kube(KubeError),
    /// The service could not be applied.
    FinalizerApplyFailed { source: Box<Error> },
    /// The service could not be cleaned up.
    FinalizerCleanupFailed { source: Box<Error> },
    /// The finalizer could not be added to the service.
    FinalizerAddFailed { source: KubeError },
    /// The finalizer could not be taken off the service.
    FinalizerRemoveFailed { source: KubeError },
    /// The service has no name.
    FinalizerUnnamedObject,
    /// The name of the finalizer fits into no patch.
    FinalizerInvalid,
}

/// What a run of the finalizer can fail with.
#[derive(Debug)]
pub enum FinalizerError {
    ApplyFailed(Error),
    CleanupFailed(Error),
    AddFinalizer(KubeError),
    RemoveFinalizer(KubeError),
    UnnamedObject,
    InvalidFinalizer,
}

/// The error that a failure of the finalizer is reported as.
pub open spec fn finalizer_error(error: FinalizerError) -> Error {
    match error {
        FinalizerError::ApplyFailed(inner) => Error::FinalizerApplyFailed {
            source: Box::new(inner),
        },
        FinalizerError::CleanupFailed(inner) => Error::FinalizerCleanupFailed {
            source: Box::new(inner),
        },
        FinalizerError::AddFinalizer(inner) => Error::FinalizerAddFailed { source: inner },
        FinalizerError::RemoveFinalizer(inner) => Error::FinalizerRemoveFailed { source: inner },
        FinalizerError::UnnamedObject => Error::FinalizerUnnamedObject,
        FinalizerError::InvalidFinalizer => Error::FinalizerInvalid,
    }
}

impl vstd::std_specs::convert::FromSpecImpl<FinalizerError> for Error {
    open spec fn obeys_from_spec() -> bool {
        true
    }

    open spec fn from_spec(error: FinalizerError) -> Error {
        finalizer_error(error)
    }
}

impl From<FinalizerError> for Error {
    fn from(error: FinalizerError) -> (r: Error) {
        match error {
            FinalizerError::ApplyFailed(inner) => Error::FinalizerApplyFailed {
                source: Box::new(inner),
            },
            FinalizerError::CleanupFailed(inner) => Error::FinalizerCleanupFailed {
                source: Box::new(inner),
            },
            FinalizerError::AddFinalizer(inner) => Error::FinalizerAddFailed { source: inner },
            FinalizerError::RemoveFinalizer(inner) => Error::FinalizerRemoveFailed {
                source: inner,
            },
            FinalizerError::UnnamedObject => Error::FinalizerUnnamedObject,
            FinalizerError::InvalidFinalizer => Error::FinalizerInvalid,
        }
    }
}

impl vstd::std_specs::convert::FromSpecImpl<ProtoError> for Error {
    open spec fn obeys_from_spec() -> bool {
        true
    }

    open spec fn from_spec(error: ProtoError) -> Error {
        Error::TrustDNSProto(error)
    }
}

impl From<ProtoError> for Error {
    fn from(error: ProtoError) -> (r: Error) {
        Error::TrustDNSProto(error)
    }
}

impl vstd::std_specs::convert::FromSpecImpl<KubeError> for Error {
    open spec fn obeys_from_spec() -> bool {
        true
    }

    open spec fn from_spec(error: KubeError) -> Error {
        Error::Kube(error)
    }
}

impl From<KubeError> for Error {
    fn from(error: KubeError) -> (r: Error) {
        Error::Kube(error)
    }
}

impl Error {
    /// The text of the error.
    pub open spec fn spec_message(self) -> Seq<char> {
        match self {
            Error::TrustDNSProto(_) => "dns name conversion failure"@,
            Error::NoNamespace => "no namespace found in object"@,
            Error::Kube(_) => "kube-rs failure"@,
            Error::FinalizerApplyFailed { .. } => "finalizer failed to apply"@,
            Error::FinalizerCleanupFailed { .. } => "finalizer cleanup failed"@,
            Error::FinalizerAddFailed { .. } => "failed to add finalizer"@,
            Error::FinalizerRemoveFailed { .. } => "failed to add finalizer"@,
            Error::FinalizerUnnamedObject => "unnamed object"@,
            Error::FinalizerInvalid => "invalid finalizer"@,
        }
    }

    /// The text of the error.
    pub fn message(&self) -> (r: String)
        ensures
            r@ == self.spec_message(),
    {
        match self {
            Error::TrustDNSProto(_) => "dns name conversion failure".to_owned(),
            Error::NoNamespace => "no namespace found in object".to_owned(),
            Error::Kube(_) => "kube-rs failure".to_owned(),
            Error::FinalizerApplyFailed { .. } => "finalizer failed to apply".to_owned(),
            Error::FinalizerCleanupFailed { .. } => "finalizer cleanup failed".to_owned(),
            Error::FinalizerAddFailed { .. } => "failed to add finalizer".to_owned(),
            Error::FinalizerRemoveFailed { .. } => "failed to add finalizer".to_owned(),
            Error::FinalizerUnnamedObject => "unnamed object".to_owned(),
            Error::FinalizerInvalid => "invalid finalizer".to_owned(),
        }
    }
}

/// A failure of the finalizer is reported as the error of its kind, which keeps what caused it.
pub proof fn law_finalizer_failure_keeps_its_cause(error: FinalizerError)
    ensures
        error is ApplyFailed ==> finalizer_error(error) is FinalizerApplyFailed && *(finalizer_error(
            error,
        )->FinalizerApplyFailed_source) == error->ApplyFailed_0,
        error is CleanupFailed ==> finalizer_error(error) is FinalizerCleanupFailed && *(
        finalizer_error(error)->FinalizerCleanupFailed_source) == error->CleanupFailed_0,
        error is AddFinalizer ==> finalizer_error(error) is FinalizerAddFailed && finalizer_error(
            error,
        )->FinalizerAddFailed_source == error->AddFinalizer_0,
        error is RemoveFinalizer ==> finalizer_error(error) is FinalizerRemoveFailed
            && finalizer_error(error)->FinalizerRemoveFailed_source == error->RemoveFinalizer_0,
        error is UnnamedObject ==> finalizer_error(error) is FinalizerUnnamedObject,
        error is InvalidFinalizer ==> finalizer_error(error) is FinalizerInvalid,
{
}

/// The text of an error goes by its kind alone.
pub proof fn law_message_tells_the_kind(error: Error)
    ensures
        error is TrustDNSProto ==> error.spec_message() == "dns name conversion failure"@,
        error is NoNamespace ==> error.spec_message() == "no namespace found in object"@,
        error is Kube ==> error.spec_message() == "kube-rs failure"@,
        error is FinalizerApplyFailed ==> error.spec_message() == "finalizer failed to apply"@,
        error is FinalizerCleanupFailed ==> error.spec_message() == "finalizer cleanup failed"@,
        error is FinalizerAddFailed ==> error.spec_message() == "failed to add finalizer"@,
        error is FinalizerRemoveFailed ==> error.spec_message() == "failed to add finalizer"@,
        error is FinalizerUnnamedObject ==> error.spec_message() == "unnamed object"@,
        error is FinalizerInvalid ==> error.spec_message() == "invalid finalizer"@,
{
}

/// Errors of the libraries beneath are carried as they are, under the kind that says whose they are.
pub proof fn law_outside_errors_are_carried(
    name_error: ProtoError,
    client_error: KubeError,
    finalizer_failure: FinalizerError,
)
    ensures
        <Error as FromSpec<ProtoError>>::obeys_from_spec(),
        <Error as FromSpec<ProtoError>>::from_spec(name_error) == Error::TrustDNSProto(name_error),
        <Error as FromSpec<KubeError>>::obeys_from_spec(),
        <Error as FromSpec<KubeError>>::from_spec(client_error) == Error::Kube(client_error),
        <Error as FromSpec<FinalizerError>>::obeys_from_spec(),
        <Error as FromSpec<FinalizerError>>::from_spec(finalizer_failure) == finalizer_error(
            finalizer_failure,
        ),
{
}

} // verus!
