//! Conduit: the decision logic of a network-sharing and port-forwarding tool,
//! with its contracts proved by Verus.

pub mod app;
pub mod forward;
pub mod i18n;
pub mod laws;
pub mod network;
pub mod text;
pub mod types;
