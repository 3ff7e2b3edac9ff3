//! A ground station for a rocket: it points an antenna at the rocket and keeps a log and a
//! configuration on a flash chip.
//!
//! The library decides; reading sensors, driving pins and talking to the chip is left to the
//! firmware around it.
pub mod beacon;
pub mod binary32;
pub mod gs;
pub mod handler;
pub mod handler_laws;
pub mod saved_config;
pub mod task;
pub mod writer;
