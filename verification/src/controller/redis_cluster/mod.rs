//! The `RedisCluster` controller.

pub mod balance;
pub mod builders;
pub mod census;
pub mod command;
pub mod drain;
pub mod grow;
pub mod heal;
pub mod reconcile;
pub mod seed;
pub mod status;
pub mod table;

pub use balance::balance_replicas;
pub use builders::{build_service, build_statefulset, labels};
pub use command::{pod_hostname, pod_of};
pub use drain::drain_for_scale_down;
pub use grow::bootstrap;
pub use seed::find_seed;
pub use status::compute_status;
pub use table::{
    parse_cluster_info, parse_cluster_nodes, parse_replication_target, parse_slots,
};
