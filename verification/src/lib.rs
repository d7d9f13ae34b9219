//! License-key codec and validation layer.
//!
//! A license is persisted as an opaque textual token wrapping a versioned
//! byte encoding of its payload (owner identity, license kind, covered
//! products) together with a signature stored as text.  This crate holds the
//! verified core of that layer: the persisted data model and its validation
//! rules, the codec between records and textual tokens, and the bridge
//! between the untrusted persisted record and the trusted in-memory license
//! object.

pub mod bridge;
pub mod codec;
pub mod data;
pub mod domain;
pub mod legacy;
pub mod msgpack;
pub mod transport;
pub mod validate;
