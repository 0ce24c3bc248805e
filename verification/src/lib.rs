//! In-memory model of a network traffic topology.
//!
//! A declarative document of nested regions, services and connections is
//! built into a forest of named graphs (one per region), kept in a registry,
//! and translated on demand into the wire schema that the traffic-dashboard
//! front end consumes.

pub mod api;
pub mod config;
pub mod model;
pub mod order;
pub mod storage;
pub mod vizceral;
