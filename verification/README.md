# redis-operator

A Kubernetes operator for Redis: primaries with replicas, Sentinel failover, and
Redis Cluster, with metrics of every pod it manages.

Everything the operator decides is a library (`src/`) verified with Verus. The
process around it (`app/`) talks to the API server, to pods and to Prometheus,
and carries out what the library decides.

## Layout

- `src/crd/` – the `Redis` and `RedisCluster` resources, their defaults, and how
  many of their pods may be down at once.
- `src/controller/` – resources, persistence and eviction flags, disruption
  budgets, topology spread.
  - `redis/` – the objects of a `Redis`, the order in which they are written,
    which pod is the primary, and what is reported.
  - `redis_cluster/` – the node table, the search for a seed, forming, growing,
    healing, repairing, balancing and draining a cluster, and what is reported.
- `src/metrics/` – INFO replies, the RESP reader, which pods are scraped, and the
  metric families that come of it.
- `src/objects.rs` – the Kubernetes objects as plain data.
- `src/quantity.rs`, `float_text.rs`, `binary64.rs`, `big.rs` – memory quantities,
  exact to the last bit of a double-precision product, in integer arithmetic.
- `src/text.rs`, `number.rs`, `order.rs`, `str_map.rs` – text, integers, order and
  maps over texts.

A controller's run is a sequence of steps: `next_step` and `next_stage` say what
comes next, the plan and command functions say what is done, and `app/` performs
it and hands back what it found.

## What is taken on trust

Three outside functions are called from the library, each behind a small wrapper
whose doc comment says what is claimed of it: the quoting of a text by `{:?}`, the
lossy reading of UTF-8, and the setting of a member of a JSON object.
