//! Verified core of the edge load balancer: datapath records and selectors,
//! flow-state replication, configuration rules and request helpers.

pub mod datapath;
pub mod scheduler;
pub mod flow;
pub mod pb;
pub mod xsync;
pub mod text;
pub mod route;
pub mod logging;
pub mod sysctl;
pub mod config;
pub mod health;
pub mod events;
pub mod signer;
pub mod ipnet;
pub mod discovery;
pub mod router;
pub mod automation;
pub mod ha;
pub mod ha_write;
pub mod native_store;
pub mod auth;
pub mod automation_sync;
pub mod notify;
pub mod flow_table;
pub mod native_ha;
pub mod flow_sync;
pub mod api_common;
pub mod native_dnat;
pub mod control;
pub mod netlink;
pub mod route_msg;
pub mod policy_routing;
pub mod registry;
pub mod overlay;
pub mod native_model;
pub mod listener_config;
pub mod probe_schedule;
pub mod snapshot;
pub mod overlay_conflicts;
pub mod native_state;
pub mod pairing;
pub mod nft;
pub mod return_path;
pub mod store_laws;
pub mod notify_store;
pub mod group_views;
pub mod gateway_nodes;
pub mod dispatch;
pub mod gateway_watch;
pub mod pair_service;
pub mod file_config;
pub mod peer_merge;
pub mod ipv6;
pub mod state_change;
pub mod overlay_laws;
pub mod snapshot_file;
