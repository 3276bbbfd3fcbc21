//! Verified core of the webhook quiet-hours receiver: configuration
//! resolution, payload sealing, webhook admission, fingerprinting, quiet
//! windows, digests and the in-memory demo workspaces.

pub mod config;
pub mod text;
pub mod error;
pub mod crypto;
pub mod json;
pub mod order;
pub mod fingerprint;
pub mod ingress;
pub mod endpoints;
pub mod time;
pub mod settings;
pub mod digest;
pub mod dashboard;
pub mod demo;
pub mod web;
pub mod sessions;
