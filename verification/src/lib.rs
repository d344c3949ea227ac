//! Listening on several multiaddresses at once through one transport.
//!
//! A [`listeners::ListenersStream`] owns a transport, hands out listener ids and keeps the list
//! of addresses that the transport reported as being listened on.

pub mod address;
pub mod addr_list;
pub mod listeners;
pub mod model;
pub mod transport;
