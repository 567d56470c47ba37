//! The rules by which homelab-dns keeps the DNS records of a zone in step with the load balancers of
//! a Kubernetes cluster.
//!
//! Reading a service, deciding what becomes of it, planning the changes to the zone and removing
//! records all happen here; talking to the cluster and serving the zone do not.
pub mod address;
pub mod apply;
pub mod cleanup;
pub mod error;
pub mod event;
pub mod laws;
pub mod names;
pub mod parsing;
pub mod patch;
pub mod reconcile;
pub mod records;
pub mod service;
pub mod state;
pub mod text;
