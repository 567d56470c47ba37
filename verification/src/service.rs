//! The parts of a Kubernetes service that decide about its DNS records.
use crate::text::{
    join_with, law_split_joins, occurrences, same_text, split, split_on, texts,
};
use vstd::prelude::*;

verus! {

/// The name of the annotation that marks a load balancer with the domain name that it should be
/// associated with.
pub const HOMELAB_DNS_ANNOTATION: &'static str = "k8s.r0ssd.co/dns-entry";

/// The name of the annotation that lists further names for the load balancer, separated by commas.
pub const HOMELAB_DNS_ANAME_ANNOTATION: &'static str = "k8s.r0ssd.co/cname-entry";

/// The finalizer that services are given so that their DNS records can be removed.
pub const HOMELAB_DNS_FINALIZER: &'static str = "homelab-dns.k8s.r0ssd.co/cleanup";

/// The service type that gets DNS records.
pub const LOAD_BALANCER: &'static str = "LoadBalancer";

/// A service.
#[derive(Debug)]
pub struct Service {
    pub metadata: ObjectMeta,
    pub spec: Option<ServiceSpec>,
    pub status: Option<ServiceStatus>,
}

/// What a service is called, and what is attached to it.
#[derive(Debug)]
pub struct ObjectMeta {
    pub name: Option<String>,
    pub namespace: Option<String>,
    /// Keys and values; a key counts at its first occurrence.
    pub annotations: Option<Vec<(String, String)>>,
    pub finalizers: Option<Vec<String>>,
}

/// What a service should be.
#[derive(Debug)]
pub struct ServiceSpec {
    pub type_: Option<String>,
}

/// What a service is at present.
#[derive(Debug)]
pub struct ServiceStatus {
    pub load_balancer: Option<LoadBalancerStatus>,
}

/// The state of the load balancer in front of a service.
#[derive(Debug)]
pub struct LoadBalancerStatus {
    pub ingress: Option<Vec<LoadBalancerIngress>>,
}

/// One point where traffic enters the load balancer.
#[derive(Debug)]
pub struct LoadBalancerIngress {
    pub ip: Option<String>,
}

/// The domain name of a service and the further names that lead to it.
#[derive(Debug)]
pub struct AnnotationEntries {
    pub a_record: String,
    pub anames: Vec<String>,
}

/// The mathematical content of [`AnnotationEntries`].
#[verifier::ext_equal]
pub struct EntriesView {
    pub a_record: Seq<char>,
    pub anames: Seq<Seq<char>>,
}

impl View for AnnotationEntries {
    type V = EntriesView;

    open spec fn view(&self) -> EntriesView {
        EntriesView { a_record: self.a_record@, anames: texts(self.anames@) }
    }
}

impl Clone for AnnotationEntries {
    fn clone(&self) -> (r: Self)
        ensures
            r@ == self@,
    {
        let mut anames: Vec<String> = Vec::new();
        for i in 0..self.anames.len()
            invariant
                anames@ == self.anames@.take(i as int),
        {
            anames.push(self.anames[i].clone());
            assert(self.anames@.take(i + 1) == self.anames@.take(i as int).push(
                self.anames@[i as int],
            ));
        }
        assert(self.anames@.take(self.anames@.len() as int) == self.anames@);
        AnnotationEntries { a_record: self.a_record.clone(), anames }
    }
}

/// The value of the first entry under `key`.
pub open spec fn lookup(entries: Seq<(String, String)>, key: Seq<char>) -> Option<Seq<char>>
    decreases entries.len(),
{
    if entries.len() == 0 {
        None
    } else if entries[0].0@ == key {
        Some(entries[0].1@)
    } else {
        lookup(entries.drop_first(), key)
    }
}

/// Whether the entry at `i` is the first under its key.
pub open spec fn is_first_entry(entries: Seq<(String, String)>, i: int) -> bool {
    &&& 0 <= i < entries.len()
    &&& forall|j: int| 0 <= j < i ==> (#[trigger] entries[j]).0@ != entries[i].0@
}

/// A key has the value that stands beside it where it first occurs, wherever that is.
pub proof fn law_lookup_finds_entry(entries: Seq<(String, String)>, i: int)
    requires
        is_first_entry(entries, i),
    ensures
        lookup(entries, entries[i].0@) == Some(entries[i].1@),
    decreases entries.len(),
{
    if i > 0 {
        let rest = entries.drop_first();
        assert(entries[0].0@ != entries[i].0@);
        assert forall|j: int| 0 <= j < i - 1 implies (#[trigger] rest[j]).0@ != rest[i - 1].0@ by {
            assert(rest[j] == entries[j + 1]);
        }
        law_lookup_finds_entry(rest, i - 1);
    }
}

/// A key that occurs nowhere has no value.
pub proof fn law_lookup_misses_key(entries: Seq<(String, String)>, key: Seq<char>)
    requires
        forall|i: int| 0 <= i < entries.len() ==> (#[trigger] entries[i]).0@ != key,
    ensures
        lookup(entries, key) is None,
    decreases entries.len(),
{
    if entries.len() > 0 {
        let rest = entries.drop_first();
        assert(entries[0].0@ != key);
        assert forall|i: int| 0 <= i < rest.len() implies (#[trigger] rest[i]).0@ != key by {
            assert(rest[i] == entries[i + 1]);
        }
        law_lookup_misses_key(rest, key);
    }
}

/// The addresses that the ingress points have, in order.
pub open spec fn ingress_ips(ingress: Seq<LoadBalancerIngress>) -> Seq<Seq<char>>
    decreases ingress.len(),
{
    if ingress.len() == 0 {
        Seq::empty()
    } else {
        let front = ingress_ips(ingress.drop_last());
        match ingress.last().ip {
            Some(ip) => front.push(ip@),
            None => front,
        }
    }
}

impl Service {
    /// Whether the service asks for a load balancer.
    pub open spec fn is_load_balancer(&self) -> bool {
        match self.spec {
            Some(spec) => match spec.type_ {
                Some(type_) => type_@ == LOAD_BALANCER@,
                None => false,
            },
            None => false,
        }
    }

    /// The addresses in the load balancer status, if it lists ingress points.
    pub open spec fn lb_ips(&self) -> Option<Seq<Seq<char>>> {
        match self.status {
            Some(status) => match status.load_balancer {
                Some(load_balancer) => match load_balancer.ingress {
                    Some(ingress) => Some(ingress_ips(ingress@)),
                    None => None,
                },
                None => None,
            },
            None => None,
        }
    }

    /// The value of an annotation.
    pub open spec fn annotation(&self, key: Seq<char>) -> Option<Seq<char>> {
        match self.metadata.annotations {
            Some(annotations) => lookup(annotations@, key),
            None => None,
        }
    }

    /// The names that the annotations ask for: those of the list count only beside a domain name.
    pub open spec fn entries(&self) -> Option<EntriesView> {
        match self.annotation(HOMELAB_DNS_ANNOTATION@) {
            Some(a_record) => Some(
                EntriesView {
                    a_record,
                    anames: match self.annotation(HOMELAB_DNS_ANAME_ANNOTATION@) {
                        Some(list) => split_on(list, ','),
                        None => Seq::empty(),
                    },
                },
            ),
            None => None,
        }
    }
}

/// The contents of optional entries.
pub open spec fn entries_view(entries: Option<AnnotationEntries>) -> Option<EntriesView> {
    match entries {
        Some(entries) => Some(entries@),
        None => None,
    }
}

/// Whether the service asks for a load balancer.
pub fn is_load_balancer(srv: &Service) -> (r: bool)
    ensures
        r == srv.is_load_balancer(),
{
    match &srv.spec {
        Some(spec) => match &spec.type_ {
            Some(type_) => same_text(type_, LOAD_BALANCER),
            None => false,
        },
        None => false,
    }
}

/// The addresses of the ingress points that have one.
fn collect_ips(ingress: &Vec<LoadBalancerIngress>) -> (ips: Vec<String>)
    ensures
        texts(ips@) == ingress_ips(ingress@),
{
    let mut ips: Vec<String> = Vec::new();
    for i in 0..ingress.len()
        invariant
            texts(ips@) == ingress_ips(ingress@.take(i as int)),
    {
        assert(ingress@.take(i + 1).drop_last() == ingress@.take(i as int));
        let ghost before = texts(ips@);
        if let Some(ip) = &ingress[i].ip {
            ips.push(ip.clone());
            assert(texts(ips@) == before.push(ip@));
        }
    }
    assert(ingress@.take(ingress@.len() as int) == ingress@);
    ips
}

/// The IP addresses from the load balancer status: nothing where the status, its load balancer or
/// the list of ingress points is missing.
pub fn get_lb_ips(srv: &Service) -> (r: Option<Vec<String>>)
    ensures
        r is Some <==> srv.lb_ips() is Some,
        r matches Some(ips) ==> srv.lb_ips() == Some(texts(ips@)),
{
    match &srv.status {
        Some(status) => match &status.load_balancer {
            Some(load_balancer) => match &load_balancer.ingress {
                Some(ingress) => Some(collect_ips(ingress)),
                None => None,
            },
            None => None,
        },
        None => None,
    }
}

/// The value of an annotation of the service.
fn get_annotation<'a>(srv: &'a Service, key: &str) -> (r: Option<&'a String>)
    ensures
        r is Some <==> srv.annotation(key@) is Some,
        r matches Some(value) ==> srv.annotation(key@) == Some(value@),
{
    match &srv.metadata.annotations {
        Some(annotations) => {
            assert(annotations@.skip(0) == annotations@);
            for i in 0..annotations.len()
                invariant
                    srv.metadata.annotations == Some(*annotations),
                    lookup(annotations@, key@) == lookup(annotations@.skip(i as int), key@),
            {
                if same_text(&annotations[i].0, key) {
                    return Some(&annotations[i].1);
                }
                assert(annotations@.skip(i as int).drop_first() == annotations@.skip(i + 1));
            }
            None
        },
        None => None,
    }
}

/// The domain names that should be registered for the service, out of its annotations.
pub fn get_hld_annotation(srv: &Service) -> (r: Option<AnnotationEntries>)
    ensures
        entries_view(r) == srv.entries(),
{
    match get_annotation(srv, HOMELAB_DNS_ANNOTATION) {
        Some(a_record) => {
            let anames = match get_annotation(srv, HOMELAB_DNS_ANAME_ANNOTATION) {
                Some(list) => split(list.as_str(), ','),
                None => Vec::new(),
            };
            let entries = AnnotationEntries { a_record: a_record.clone(), anames };
            assert(entries@ == srv.entries()->0);
            Some(entries)
        },
        None => None,
    }
}

/// A service is a load balancer exactly if its specification gives a type and that type is
/// `LoadBalancer`.
pub proof fn law_load_balancers_say_so(service: &Service)
    ensures
        service.is_load_balancer() <==> {
            &&& service.spec is Some
            &&& service.spec->0.type_ is Some
            &&& service.spec->0.type_->0@ == "LoadBalancer"@
        },
{
}

/// Without the annotation a service has no names. With it, the domain name is its value, and the
/// further names are the parts, separated by commas, of the other annotation's value, or none where
/// that is missing.
pub proof fn law_names_come_from_annotations(service: &Service)
    ensures
        service.metadata.annotations is None ==> service.entries() is None,
        service.metadata.annotations is Some ==> {
            let all = service.metadata.annotations->0@;
            &&& (forall|i: int|
                0 <= i < all.len() ==> (#[trigger] all[i]).0@ != HOMELAB_DNS_ANNOTATION@)
                ==> service.entries() is None
            &&& forall|i: int|
                #![trigger all[i]]
                is_first_entry(all, i) && all[i].0@ == HOMELAB_DNS_ANNOTATION@
                    ==> service.entries() is Some && service.entries()->0.a_record == all[i].1@
            &&& service.entries() is Some && (forall|i: int|
                0 <= i < all.len() ==> (#[trigger] all[i]).0@ != HOMELAB_DNS_ANAME_ANNOTATION@)
                ==> service.entries()->0.anames.len() == 0
            &&& forall|i: int|
                #![trigger all[i]]
                is_first_entry(all, i) && all[i].0@ == HOMELAB_DNS_ANAME_ANNOTATION@
                    && service.entries() is Some ==> {
                    let anames = service.entries()->0.anames;
                    &&& anames.len() == 1 + occurrences(all[i].1@, ',')
                    &&& join_with(anames, ',') == all[i].1@
                    &&& forall|k: int| 0 <= k < anames.len() ==> !(#[trigger] anames[k]).contains(',')
                }
        },
{
    if service.metadata.annotations is Some {
        let all = service.metadata.annotations->0@;
        if forall|i: int| 0 <= i < all.len() ==> (#[trigger] all[i]).0@ != HOMELAB_DNS_ANNOTATION@ {
            law_lookup_misses_key(all, HOMELAB_DNS_ANNOTATION@);
        }
        if forall|i: int|
            0 <= i < all.len() ==> (#[trigger] all[i]).0@ != HOMELAB_DNS_ANAME_ANNOTATION@ {
            law_lookup_misses_key(all, HOMELAB_DNS_ANAME_ANNOTATION@);
        }
        assert forall|i: int|
            #![trigger all[i]]
            is_first_entry(all, i) implies lookup(all, all[i].0@) == Some(all[i].1@) by {
            law_lookup_finds_entry(all, i);
        }
        assert forall|i: int|
            #![trigger all[i]]
            is_first_entry(all, i) && all[i].0@ == HOMELAB_DNS_ANAME_ANNOTATION@
                && service.entries() is Some implies {
            let anames = service.entries()->0.anames;
            &&& anames.len() == 1 + occurrences(all[i].1@, ',')
            &&& join_with(anames, ',') == all[i].1@
            &&& forall|k: int| 0 <= k < anames.len() ==> !(#[trigger] anames[k]).contains(',')
        } by {
            law_lookup_finds_entry(all, i);
            law_split_joins(all[i].1@, ',');
        }
    }
}

/// Every ingress point that has an address gives it, and no address comes from anything else.
pub proof fn law_no_ingress_address_is_lost(ingress: Seq<LoadBalancerIngress>)
    ensures
        forall|i: int|
            0 <= i < ingress.len() && (#[trigger] ingress[i]).ip is Some ==> ingress_ips(
                ingress,
            ).contains(ingress[i].ip->0@),
        forall|ip: Seq<char>| #[trigger]
            ingress_ips(ingress).contains(ip) ==> exists|i: int|
                0 <= i < ingress.len() && (#[trigger] ingress[i]).ip is Some && ingress[i].ip->0@
                    == ip,
    decreases ingress.len(),
{
    let all = ingress_ips(ingress);
    if ingress.len() > 0 {
        let front = ingress.drop_last();
        let before = ingress_ips(front);
        law_no_ingress_address_is_lost(front);
        assert forall|i: int|
            0 <= i < ingress.len() && (#[trigger] ingress[i]).ip is Some implies all.contains(
            ingress[i].ip->0@,
        ) by {
            let ip = ingress[i].ip->0@;
            if i < front.len() {
                assert(front[i] == ingress[i]);
                let k = choose|k: int| 0 <= k < before.len() && before[k] == ip;
                assert(all[k] == ip);
            } else {
                assert(all[before.len() as int] == ip);
            }
        }
        assert forall|ip: Seq<char>| #[trigger] all.contains(ip) implies exists|i: int|
            0 <= i < ingress.len() && (#[trigger] ingress[i]).ip is Some && ingress[i].ip->0@
                == ip by {
            let k = choose|k: int| 0 <= k < all.len() && all[k] == ip;
            if k < before.len() {
                assert(before[k] == ip);
                assert(before.contains(ip));
                let i = choose|i: int|
                    0 <= i < front.len() && (#[trigger] front[i]).ip is Some && front[i].ip->0@
                        == ip;
                assert(ingress[i] == front[i]);
            } else {
                assert(ingress[ingress.len() - 1].ip->0@ == ip);
            }
        }
    }
}

/// The addresses of ingress points one after the other are those of the first points and then those
/// of the others; a single point gives its address alone, or nothing.
pub proof fn law_ingress_addresses_keep_their_order(
    ingress: Seq<LoadBalancerIngress>,
    others: Seq<LoadBalancerIngress>,
)
    ensures
        ingress_ips(ingress + others) == ingress_ips(ingress) + ingress_ips(others),
        ingress.len() == 1 && ingress[0].ip is None ==> ingress_ips(ingress).len() == 0,
        ingress.len() == 1 && ingress[0].ip is Some ==> ingress_ips(ingress) == seq![
            ingress[0].ip->0@,
        ],
    decreases others.len(),
{
    if ingress.len() == 1 {
        assert(ingress.drop_last().len() == 0);
        assert(ingress_ips(ingress.drop_last()).len() == 0);
        assert(ingress.last() == ingress[0]);
        if ingress[0].ip is Some {
            assert(ingress_ips(ingress) =~= seq![ingress[0].ip->0@]);
        }
    }
    if others.len() == 0 {
        assert(ingress + others == ingress);
        assert(ingress_ips(ingress) + ingress_ips(others) =~= ingress_ips(ingress));
    } else {
        law_ingress_addresses_keep_their_order(ingress, others.drop_last());
        assert((ingress + others).drop_last() == ingress + others.drop_last());
        assert((ingress + others).last() == others.last());
        assert(ingress_ips(ingress + others) =~= ingress_ips(ingress) + ingress_ips(others));
    }
}

/// A service has load balancer addresses exactly if its status lists ingress points, and they are
/// then those of the points.
pub proof fn law_addresses_come_from_the_status(service: &Service)
    ensures
        service.lb_ips() is Some <==> {
            &&& service.status is Some
            &&& service.status->0.load_balancer is Some
            &&& service.status->0.load_balancer->0.ingress is Some
        },
        service.lb_ips() is Some ==> service.lb_ips()->0 == ingress_ips(
            service.status->0.load_balancer->0.ingress->0@,
        ),
{
}

/// The view of entries holds the text of the domain name and those of the further names, in order.
pub proof fn law_entries_view_is_faithful(entries: AnnotationEntries)
    ensures
        entries@.a_record == entries.a_record@,
        entries@.anames.len() == entries.anames@.len(),
        forall|i: int|
            0 <= i < entries.anames@.len() ==> #[trigger] entries@.anames[i] == entries.anames@[i]@,
        entries_view(Some(entries)) == Some(entries@),
        entries_view(None) is None,
{
}

} // verus!
