//! Core logic of a small quiz backend: validating question-creation
//! payloads, tabulating submitted answers against a question's declared
//! shape (single-choice index, multi-choice bitmask, or free text), and
//! planning random-sample retrievals with an approximate response cache.
//!
//! Persistence and HTTP routing are external collaborators; this crate
//! holds the decision and validation logic that sits between them.

pub mod error;
pub mod oid;
pub mod question;
pub mod answer;
pub mod sample;
