//! A spaced-repetition scheduling library.
//!
//! The crate provides two interchangeable scheduling strategies — a classical
//! interval/ease model and a memory-state model — together with the per-entity
//! scheduling state they rewrite, an interactive review session state machine,
//! and an in-memory store that the session drivers are verified against.

pub mod conductor;
pub mod memstore;
pub mod session;
pub mod sm2;
pub mod store;
