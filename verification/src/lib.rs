//! A half-duplex RS-485 multi-drop bus protocol core: one coordinator ("Dom")
//! and up to 31 subordinates ("Subs") share a single twisted pair.
//!
//! The crate provides a fixed-capacity byte-chunk slab with reference-counted
//! views, a port-multiplexed dispatch layer with bounded queues, a byte-exact
//! wire codec, and the discovery and token-grant protocol state machines.

pub mod dispatch;
pub mod dom;
pub mod dom_discover;
pub mod dom_token;
pub mod framing;
pub mod icd;
pub mod managed;
pub mod payload;
pub mod slab;
pub mod sub;
pub mod sub_discover;
pub mod sub_token;
pub mod timing;
pub mod wire;
