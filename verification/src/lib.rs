//! A library that resolves a video page reference into directly playable
//! stream URLs.  Provider metadata is decoded into a map from quality tier
//! to stream descriptor, and stream URLs protected by a scrambled signature
//! are repaired by mining the provider's player script for the descrambling
//! routine and replaying its effect as a sequence of primitive transforms.
//!
//! All text is handled as bytes (`Vec<u8>`); callers convert to and from
//! `String` at the edge.  Network access is injected through the
//! `Connector` trait and never performed by the library itself.

pub mod api;
pub mod client;
pub mod crypt;
pub mod descramble;
pub mod error;
pub mod scan;
pub mod streammap;
pub mod urlenc;
pub mod video;
