//! Host-side engine for managing dynamically loaded plugin code: the live
//! instance registry, install/remove/list orchestration over a persisted
//! descriptor store, the two-phase hot-reload protocol, and the event-bridge
//! bookkeeping that relays plugin events to the host.
//!
//! Everything that decides or computes lives here and is verified; opening
//! native libraries, file handling and channel plumbing stay with the
//! embedding application, which feeds their outcomes to these functions as
//! plain values.

pub mod descriptors;
pub mod extension_error;
pub mod extension_interface;
pub mod extension_manager;
pub mod extension_store;
pub mod listen_bridge;
pub mod record;
pub mod say_hello;
