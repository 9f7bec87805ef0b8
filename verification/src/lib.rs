//! Core of a container-image registry: content digests, a deduplicated blob
//! store, upload sessions and the decisions behind each registry request.

pub mod auth;
pub mod basic;
pub mod digest;
pub mod digest_order;
pub mod podman;
pub mod registry;
pub mod store;
pub mod upload;
