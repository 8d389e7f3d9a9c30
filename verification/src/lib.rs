//! Replica-set topology for a database client: host addresses, per-server role
//! classification, the aggregated topology with its single-primary rule, the
//! discovery bootstrap, and the legacy direct connection's decisions.
//!
//! Every function here is verified against its contract. Network traffic is
//! left to the caller, who hands probe responses in and carries requests out.

pub mod error;
pub mod host;
pub mod server;
pub mod response;
pub mod conn_replica;
pub mod topology;
