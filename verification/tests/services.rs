//! What is read out of a service, and what is remembered of it.
use homelab_dns::service::{
    get_hld_annotation, get_lb_ips, is_load_balancer, AnnotationEntries, LoadBalancerIngress,
    LoadBalancerStatus, ObjectMeta, Service, ServiceSpec, ServiceStatus,
};
use homelab_dns::state::ReconcilerState;

fn strings(texts: &[&str]) -> Vec<String> {
    texts.iter().map(|t| t.to_string()).collect()
}

fn service(type_: Option<&str>, annotations: &[(&str, &str)]) -> Service {
    Service {
        metadata: ObjectMeta {
            name: Some("web".to_string()),
            namespace: Some("default".to_string()),
            annotations: Some(
                annotations.iter().map(|(k, v)| (k.to_string(), v.to_string())).collect(),
            ),
            finalizers: None,
        },
        spec: Some(ServiceSpec { type_: type_.map(|t| t.to_string()) }),
        status: None,
    }
}

fn with_ingress(ips: &[Option<&str>]) -> Service {
    let mut srv = service(None, &[]);
    srv.status = Some(ServiceStatus {
        load_balancer: Some(LoadBalancerStatus {
            ingress: Some(
                ips.iter().map(|ip| LoadBalancerIngress { ip: ip.map(|i| i.to_string()) }).collect(),
            ),
        }),
    });
    srv
}

#[test]
fn only_load_balancers_are_load_balancers() {
    assert!(is_load_balancer(&service(Some("LoadBalancer"), &[])));
    assert!(!is_load_balancer(&service(Some("ClusterIP"), &[])));
    assert!(!is_load_balancer(&service(Some("loadbalancer"), &[])));
    assert!(!is_load_balancer(&service(None, &[])));
    let mut srv = service(None, &[]);
    srv.spec = None;
    assert!(!is_load_balancer(&srv));
}

#[test]
fn lb_ips_skip_ingress_points_without_ip() {
    let srv = with_ingress(&[Some("10.0.0.1"), None, Some("not checked")]);
    assert_eq!(get_lb_ips(&srv), Some(strings(&["10.0.0.1", "not checked"])));
    assert_eq!(get_lb_ips(&with_ingress(&[])), Some(vec![]));
    assert_eq!(get_lb_ips(&with_ingress(&[None])), Some(vec![]));
}

#[test]
fn lb_ips_need_the_whole_status() {
    let mut srv = service(None, &[]);
    assert_eq!(get_lb_ips(&srv), None);
    srv.status = Some(ServiceStatus { load_balancer: None });
    assert_eq!(get_lb_ips(&srv), None);
    srv.status =
        Some(ServiceStatus { load_balancer: Some(LoadBalancerStatus { ingress: None }) });
    assert_eq!(get_lb_ips(&srv), None);
}

#[test]
fn annotation_gives_the_domain_name() {
    let entries =
        get_hld_annotation(&service(None, &[("other", "x"), ("k8s.r0ssd.co/dns-entry", "web.lab")]))
            .unwrap();
    assert_eq!(entries.a_record, "web.lab");
    assert!(entries.anames.is_empty());
}

#[test]
fn annotation_lists_further_names() {
    let entries = get_hld_annotation(&service(
        None,
        &[("k8s.r0ssd.co/cname-entry", "a.lab,b.lab"), ("k8s.r0ssd.co/dns-entry", "web.lab")],
    ))
    .unwrap();
    assert_eq!(entries.a_record, "web.lab");
    assert_eq!(entries.anames, strings(&["a.lab", "b.lab"]));
    let entries = get_hld_annotation(&service(
        None,
        &[("k8s.r0ssd.co/cname-entry", ""), ("k8s.r0ssd.co/dns-entry", "web.lab")],
    ))
    .unwrap();
    assert_eq!(entries.anames, strings(&[""]));
}

#[test]
fn further_names_need_a_domain_name() {
    assert!(get_hld_annotation(&service(None, &[("k8s.r0ssd.co/cname-entry", "a.lab")])).is_none());
    let mut srv = service(None, &[]);
    assert!(get_hld_annotation(&srv).is_none());
    srv.metadata.annotations = None;
    assert!(get_hld_annotation(&srv).is_none());
}

#[test]
fn first_annotation_of_a_key_counts() {
    let entries = get_hld_annotation(&service(
        None,
        &[("k8s.r0ssd.co/dns-entry", "one.lab"), ("k8s.r0ssd.co/dns-entry", "two.lab")],
    ))
    .unwrap();
    assert_eq!(entries.a_record, "one.lab");
}

#[test]
fn state_remembers_the_last_names() {
    let mut state = ReconcilerState::new(300);
    assert_eq!(state.ttl(), 300);
    assert!(state.domain_for_service("web").is_none());
    let first = AnnotationEntries { a_record: "web.lab".to_string(), anames: strings(&["a.lab"]) };
    let second = AnnotationEntries { a_record: "www.lab".to_string(), anames: strings(&[]) };
    state.set_domain_for_service("web", &first);
    state.set_domain_for_service("db", &second);
    let found = state.domain_for_service("web").unwrap();
    assert_eq!(found.a_record, "web.lab");
    assert_eq!(found.anames, strings(&["a.lab"]));
    state.set_domain_for_service("web", &second);
    assert_eq!(state.domain_for_service("web").unwrap().a_record, "www.lab");
}

#[test]
fn state_forgets_one_service_at_a_time() {
    let mut state = ReconcilerState::new(60);
    let entries = AnnotationEntries { a_record: "web.lab".to_string(), anames: strings(&[]) };
    state.set_domain_for_service("web", &entries);
    state.set_domain_for_service("db", &entries);
    state.remove_domain_for_service("web");
    state.remove_domain_for_service("unknown");
    assert!(state.domain_for_service("web").is_none());
    assert_eq!(state.domain_for_service("db").unwrap().a_record, "web.lab");
    assert_eq!(state.ttl(), 60);
}
