//! Sandbox policy profiles and the application state that edits them and
//! drives a sandboxing daemon: the policy model, field validation, the
//! daemon-facing translation of a policy, profile storage names, and the
//! state machine that keeps at most one daemon call in flight.

pub mod capability;
pub mod controller;
pub mod policy;
pub mod storage;
pub mod text;
pub mod validation;
pub mod wire;
