//! The shell scripts that pods start with, in pieces: names and flags stand
//! between them.

use vstd::prelude::*;

verus! {

/// Where a data pod that goes by Sentinel begins: up to the name of its service.
pub const SENTINEL_AWARE_START: &'static str = r#"set -eu
CONF=/data/redis.conf
HOST=$(hostname)."#;

/// On the first boot, whether the Sentinel service resolves.
pub const ASK_SENTINEL: &'static str = r#".svc.cluster.local
ORD=${HOSTNAME##*-}
if [ ! -f "$CONF" ]; then
  REPLICAOF=""
  if getent hosts ""#;

/// Which Sentinel service to ask for the primary.
pub const QUERY_SENTINEL: &'static str = r#"" >/dev/null 2>&1; then
    MASTER_INFO=$(timeout 2 redis-cli -h ""#;

/// The question, up to the name of the primary.
pub const MASTER_BY_NAME: &'static str = r#"" -p 26379 sentinel get-master-addr-by-name "#;

/// The answer, and the first pod where there is none.
pub const FOLLOW_MASTER: &'static str = r#" 2>/dev/null || true)
    MASTER_HOST=$(echo "$MASTER_INFO" | head -n 1 | tr -d '"')
    if [ -n "$MASTER_HOST" ] && [ "$MASTER_HOST" != "$HOST" ]; then
      REPLICAOF="replicaof $MASTER_HOST 6379"
    fi
  fi
  if [ -z "$REPLICAOF" ] && [ "$ORD" != "0" ]; then
    REPLICAOF="replicaof "#;

/// The file that Sentinel rewrites holds no more than which pod to follow: what
/// else it may have picked up is taken out, and then the server starts.
pub const SERVE_WITH_CONF: &'static str = r#" 6379"
  fi
  printf '%s\n' "$REPLICAOF" > "$CONF"
fi
# CONFIG REWRITE (invoked by Sentinel on failover) serializes the full
# effective config back into this file. Two directives have to be stripped
# before the next start, leaving the conf carrying only the `replicaof` line
# it exists for:
#
#   loadmodule  - one line per loaded module. The redis:8 entrypoint already
#                 passes --loadmodule for bundled modules, so a persisted
#                 duplicate aborts the server on next start.
#   persistence - a command-line `--save` does not replace `save` lines from
#                 the config file, it appends to them. Left in place, the CR
#                 could never lower a save point again and the list would grow
#                 on every failover-and-restart cycle. The others override
#                 correctly, but are stripped too so the CR stays the single
#                 source of truth rather than relying on that asymmetry.
sed -i -E '/^[[:space:]]*(loadmodule|save|appendonly|appendfsync|dir|dbfilename|appendfilename|appenddirname)[[:space:]]/d' "$CONF"
exec docker-entrypoint.sh redis-server "$CONF""#;

/// Announcing the host name rather than an address.
pub const ANNOUNCE_AS: &'static str = r#" --replica-announce-ip "$HOST" --replica-announce-port 6379
"#;

/// Where a data pod without Sentinel begins: up to the name of its service.
pub const ORDINAL_START: &'static str = r#"ORD=${HOSTNAME##*-}
HOST=$(hostname)."#;

/// The first pod is the primary.
pub const SERVE_AS_FIRST: &'static str = r#".svc.cluster.local
ANNOUNCE="--replica-announce-ip $HOST --replica-announce-port 6379"
if [ "$ORD" = "0" ]; then
  exec docker-entrypoint.sh redis-server"#;

/// Every other pod replicates.
pub const SERVE_AS_OTHER: &'static str = r#" $ANNOUNCE
else
  exec docker-entrypoint.sh redis-server"#;

/// Up to the host that is replicated.
pub const REPLICA_OF: &'static str = r#" $ANNOUNCE --replicaof "#;

/// The end of the script of a data pod without Sentinel.
pub const ORDINAL_END: &'static str = r#" 6379
fi
"#;

/// Where a Sentinel pod begins: up to the name of its service.
pub const SENTINEL_START: &'static str = r#"set -eu
CONF=/data/sentinel.conf
HOST=$(hostname)."#;

/// The configuration of the first boot, up to the name of the primary.
pub const MONITOR: &'static str = r#".svc.cluster.local
if [ ! -f "$CONF" ]; then
  cat > "$CONF" <<EOF
port 26379
sentinel announce-ip $HOST
sentinel announce-port 26379
sentinel resolve-hostnames yes
sentinel announce-hostnames yes
sentinel monitor "#;

/// Between name and host.
pub const SPACE: &'static str = r#" "#;

/// Between host and quorum.
pub const QUORUM_OF_PORT: &'static str = r#" 6379 "#;

/// How long the primary may be silent.
pub const DOWN_AFTER: &'static str = r#"
sentinel down-after-milliseconds "#;

/// How long a failover may take.
pub const FAILOVER_TIMEOUT: &'static str = r#" 5000
sentinel failover-timeout "#;

/// How many replicas follow a new primary at once.
pub const PARALLEL_SYNCS: &'static str = r#" 10000
sentinel parallel-syncs "#;

/// The end of the configuration. Lines that Sentinel wrote twice are taken out,
/// for it does not start with them, and then it starts.
pub const SENTINEL_END: &'static str = r#" 1
EOF
fi
# Heal duplicate known-replica/known-sentinel lines that upstream Sentinel
# occasionally persists (e.g. when a peer is observed under both hostname
# and IP forms). A duplicate (master, host, port) triple makes Sentinel
# refuse to parse its own rewritten config on next boot.
awk '
  /^sentinel known-replica / { k=$3" "$4" "$5; if (seen[k]++) next }
  /^sentinel known-sentinel / { k=$3" "$4" "$5; if (seen[k]++) next }
  { print }
' "$CONF" > "$CONF.tmp" && mv "$CONF.tmp" "$CONF"
exec redis-sentinel "$CONF"
"#;

} // verus!
