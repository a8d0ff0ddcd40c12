//! Verified core of a Kubernetes desktop client: project and cluster
//! bookkeeping, resource classification, log colouring and message shaping.

pub mod ansi;
pub mod cache;
pub mod clusters;
pub mod columns;
pub mod controls;
pub mod editing;
pub mod favorite;
pub mod keyed;
pub mod laws;
pub mod messages;
pub mod namespaces;
pub mod objects;
pub mod order;
pub mod pods;
pub mod project;
pub mod quantity;
pub mod resource;
pub mod sorted;
pub mod stable;
pub mod status;
pub mod store;
pub mod text;
