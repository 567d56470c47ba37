# homelab-dns

Simple authoritative DNS server for mapping a custom "external" domain to a kubernetes
LoadBalancer. Designed to be used with metallb and ubiquiti devices, though the code relies mostly on
k8s built in objects.

A service of type `LoadBalancer` gets address records under the name in its
`k8s.r0ssd.co/dns-entry` annotation, and ANAME records under the names that
`k8s.r0ssd.co/cname-entry` lists, separated by commas. The records go away with the service or with
the annotation.

## Layout

- `src/` is the library, verified with Verus: reading a service, deciding what becomes of it, planning
  the changes to the zone and removing records. What other crates compute stands behind small
  functions whose contracts are believed, each with a comment that says what is claimed.
  `src/laws.rs` states what holds of updates and cleanups taken together.
- `app/` is the program around it: arguments, the DNS server, the watcher and the conversions between
  the types of kube-rs, hickory and the library.
- `tests/` runs the library, some of it on a real zone.

## Usage

```
homelab-dns [OPTIONS] --origin <ORIGIN>

-b, --bind <BIND>                  Address and port to bind our DNS server on [default: 127.0.0.1:53]
-o, --origin <ORIGIN>              The root domain we are serving DNS for
-t, --ttl <TTL>                    Set the TTL of the LoadBalancer DNS records [default: 300]
    --tcp-timeout <TCP_TIMEOUT>    Timeout for DNS over TCP connections [default: 1s]
```

## Edgerouter configuration

1. Open Config Tree
2. Navigate to `service > dns > forwarding`
3. Setup DNS forwarding (if not already)
4. Under options click Add
5. Enter `server=/<your-selected-origin>/<external-ip-for-homelab-dns>`
