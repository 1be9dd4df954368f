//! Core of a KDE Connect compatible peer-to-peer daemon: packet codec,
//! device registry, discovery decisions, event debouncing and the
//! connection-engine decision logic, all verified. The surrounding
//! process (sockets, TLS, timers) drives these functions and performs
//! the I/O they decide on.

pub mod codec;
pub mod device;
pub mod engine;
pub mod event;
pub mod identity;
pub mod packet;
pub mod plugin;
pub mod ports;
