//! Two-way reconciliation of a local directory tree with a remote one.
//!
//! The crate holds the decisions of a sync pass: which side of an item wins,
//! which paths are excluded, what the stored baselines become, and when queued
//! removals are applied. Reading directories, talking to the remote and
//! persisting records are left to the caller, which performs the steps this
//! crate hands out and reports back what it observed.

pub mod board;
pub mod catalog;
pub mod engine;
pub mod ignore;
pub mod item;
pub mod laws;
pub mod pairing;
pub mod paths;
pub mod plan;
pub mod queue;
pub mod resolver;
pub mod sequences;
pub mod text;
pub mod walk;
