//! Validation and consistency core of a blog of versioned posts and comments.
//!
//! The content-addressed store and the authors' chains are reached by the
//! host; this library receives what was read from them as plain values and
//! decides what is accepted, which index edges to write or retract, and which
//! version of an entity is current.

pub mod types;
pub mod validation;
pub mod coordinator;
pub mod revisions;
