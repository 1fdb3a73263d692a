//! A verified notification broker: an ordered, keyed store of notification
//! records addressable by stable key and by list position, and a protocol
//! server that implements the desktop-notification request kinds on top of
//! that store.

pub mod notification;
pub mod server;
pub mod store;
