//! Verified core of a Kubernetes operator for Redis and Redis Cluster.

pub mod big;
pub mod binary64;
pub mod controller;
pub mod crd;
pub mod error;
pub mod float_text;
pub mod metrics;
pub mod number;
pub mod objects;
pub mod order;
pub mod quantity;
pub mod str_map;
pub mod text;
