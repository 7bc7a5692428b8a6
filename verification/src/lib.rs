//! Gateway logic for a managed pub/sub notification provider: validation and
//! parsing of inbound webhook notifications, the topic/subscription lifecycle
//! decisions (including the idempotency scan over a paginated listing), and a
//! unified error taxonomy mapping provider failures to responses.
//!
//! Network I/O against the provider lives outside this library; every function
//! here computes from plain values and is verified.

pub mod errors;
pub mod json;
pub mod manager;
pub mod notification;
pub mod text;
