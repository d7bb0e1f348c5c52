//! The `Redis` controller.

pub mod builders;
pub mod observe;
pub mod reconcile;

pub use builders::{
    build_headless_service, build_primary_service, build_redis_args, build_redis_statefulset,
    build_replicas_service, build_resource_requirements, build_sentinel_args,
    build_sentinel_headless_service, build_sentinel_statefulset, default_redis_pdb,
    default_sentinel_pdb, default_sentinel_resources, labels, primary_hostname,
    primary_service_name, replicas_service_name, sentinel_labels, sentinel_sts_name,
};
pub use observe::{master_pod_from_host, parse_connected_slaves, parse_sentinel_master_addr};
pub use reconcile::{
    determine_master_pod, plan_redis, preserve_existing_master, query_connected_replicas,
    query_sentinel_master, redis_status,
};
