//! Building blocks for strongly-consistent replicated services: a Raft
//! consensus engine, a byte-envelope RPC router with an in-process shortcut
//! path, a connection-pool policy, and a dispatch substrate that turns
//! replicated log bytes into typed state-machine invocations.
//!
//! Network transport and process plumbing stay outside this crate; every
//! function here computes from plain values to plain values, with its
//! behaviour stated in its contract.

pub mod assoc;
pub mod codec;
pub mod proto;
pub mod raft;
pub mod rpc;
pub mod safety;
pub mod store;
