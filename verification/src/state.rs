//! What the reconciler remembers between two runs.
use crate::service::{entries_view, AnnotationEntries, EntriesView};
use vstd::hash_map::StringHashMap;
use vstd::prelude::*;

verus! {

/// The memory of the reconciler: the names that each service was last given, by the name of the
/// service, and the time to live of the records that are created.
pub struct ReconcilerState {
    service_to_domain: StringHashMap<AnnotationEntries>,
    ttl: u32,
}

/// The entries remembered for `service`.
pub open spec fn remembered(
    domains: Map<Seq<char>, EntriesView>,
    service: Seq<char>,
) -> Option<EntriesView> {
    if domains.contains_key(service) {
        Some(domains[service])
    } else {
        None
    }
}

impl View for ReconcilerState {
    type V = Map<Seq<char>, EntriesView>;

    closed spec fn view(&self) -> Map<Seq<char>, EntriesView> {
        self.service_to_domain@.map_values(|entries: AnnotationEntries| entries@)
    }
}

impl ReconcilerState {
    /// The time to live of the records that are created, in seconds.
    pub closed spec fn spec_ttl(&self) -> u32 {
        self.ttl
    }

    /// A state that remembers nothing.
    pub fn new(ttl: u32) -> (r: Self)
        ensures
            r@ == Map::<Seq<char>, EntriesView>::empty(),
            r.spec_ttl() == ttl,
    {
        let r = ReconcilerState { service_to_domain: StringHashMap::new(), ttl };
        assert(r@ =~= Map::<Seq<char>, EntriesView>::empty());
        r
    }

    /// The time to live of the records that are created, in seconds.
    pub fn ttl(&self) -> (r: u32)
        ensures
            r == self.spec_ttl(),
    {
        self.ttl
    }

    /// The names that `service` was last given.
    pub fn domain_for_service(&self, service: &str) -> (r: Option<AnnotationEntries>)
        ensures
            entries_view(r) == remembered(self@, service@),
    {
        match self.service_to_domain.get(service) {
            Some(entries) => Some(entries.clone()),
            None => None,
        }
    }

    /// Forgets the names of `service`.
    pub fn remove_domain_for_service(&mut self, service: &str)
        ensures
            final(self)@ == old(self)@.remove(service@),
            final(self).spec_ttl() == old(self).spec_ttl(),
    {
        self.service_to_domain.remove(service);
        assert(self@ =~= old(self)@.remove(service@));
    }

    /// Remembers `entries` as the names of `service`.
    pub fn set_domain_for_service(&mut self, service: &str, entries: &AnnotationEntries)
        ensures
            final(self)@ == old(self)@.insert(service@, entries@),
            final(self).spec_ttl() == old(self).spec_ttl(),
    {
        self.service_to_domain.insert(service.to_owned(), entries.clone());
        assert(self@ =~= old(self)@.insert(service@, entries@));
    }
}

/// What was remembered last of a service is found again, what is forgotten is not, and neither touches
/// what is remembered of another service.
pub proof fn law_memory_keeps_services_apart(
    domains: Map<Seq<char>, EntriesView>,
    service: Seq<char>,
    entries: EntriesView,
    other: Seq<char>,
)
    ensures
        remembered(Map::empty(), other) is None,
        domains.contains_key(other) ==> remembered(domains, other) == Some(domains[other]),
        !domains.contains_key(other) ==> remembered(domains, other) is None,
        remembered(domains.insert(service, entries), service) == Some(entries),
        remembered(domains.remove(service), service) is None,
        other != service ==> {
            &&& remembered(domains.insert(service, entries), other) == remembered(domains, other)
            &&& remembered(domains.remove(service), other) == remembered(domains, other)
        },
{
}

} // verus!
