//! Core library of the knowledge vault: canonical JSON, content hashing,
//! chunking, lineage governance, policy decisions, sync planning and the
//! framing rules of the object store.
pub mod text;
pub mod json;
pub mod canon_law;
pub mod sorting;
pub mod app_error;
pub mod hashing;
pub mod types;
pub mod chunking;
pub mod sync_merge;
pub mod sync_transport;
pub mod lineage;
pub mod lineage_graph;
pub mod lineage_governance;
pub mod lineage_policy;
pub mod trust_policy;
pub mod recovery_escrow;
pub mod recovery_escrow_aws;
pub mod recovery_escrow_hsm;
pub mod object_store;
pub mod vault;
pub mod db;
pub mod deferred;
pub mod events;
pub mod index_traits;
pub mod locator;
pub mod canonical;
pub mod snippet;
pub mod sync;
pub mod sync_s3;
pub mod ingest;
pub mod rpc_service;
pub mod export;
