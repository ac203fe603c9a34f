//! Core of a small always-on file server for a memory-constrained wireless
//! device: the supervisor that keeps the uplink alive, the controller that
//! bounds how many file operations run at once, and the request server that
//! routes every request through it.
//!
//! Nothing here performs I/O. Each component is a state machine: the caller
//! performs the outside work an action asks for and reports what happened as
//! an event. The `*_laws` modules state what holds over whole runs of events.

pub mod admission;
pub mod admission_laws;
pub mod dav_handler;
pub mod esp_wifi;
mod id_list;
pub mod sd_card;
pub mod server_laws;
pub mod wifi_laws;
