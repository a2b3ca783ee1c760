//! The decisions of the Wayland protocol engine.
//!
//! The protocol library owns the display, the sockets and the protocol objects.
//! What it reports is turned into plain values, and the modules here decide what
//! follows: which events the shell gets, which surfaces are tracked, what is
//! drawn where and what is sent to a client.

pub mod commit;
pub mod composite;
pub mod event;
pub mod input;
pub mod layers;
pub mod outputs;
pub mod setup;
pub mod socket;
pub mod state;
