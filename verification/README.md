# kube-ingress-dns-manager

A service that watches the nodes of a Kubernetes cluster, optionally
health-checks their external IP addresses, and keeps a DNS provider's A and
AAAA records for one hostname in line with the addresses that may receive
ingress traffic (Cloudflare DNS, AWS Route 53, or a simulated provider that
only logs).

The decisions of the service are a formally verified library:

- `src/health.rs`: the health hysteresis of one address (`checks_to_up`
  consecutive successes to become healthy, `checks_to_down` consecutive
  failures to become unhealthy), with its laws.
- `src/nodes.rs`: what a node contributes (its external addresses) and the
  table of known nodes.
- `src/address_health.rs`: the health of each watched address, aligned with
  the nodes on each tick.
- `src/controller.rs`: the state machine between the node watcher, the timer,
  the health checks and the DNS provider: suspension until the watcher's
  listing is complete, warm-up, and when an update is due; with its laws.
- `src/dns/`: the provider-independent update plan, and the record plans for
  Cloudflare (deletes and posts of one batch) and Route 53 (upserts, and
  deletes of a family whose addresses have all failed).
- `src/conf.rs`: the configuration types and their defaults.

`app/` is the program around the library: configuration loading, the
Kubernetes watcher, the HTTP health checks, the provider API calls and the
event loop that feeds the controller.
