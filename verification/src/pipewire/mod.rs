//! The Linux side: the filter graph that PipeWire hosts, the service that keeps it,
//! and the controller that drives the service.

pub mod autostart;
pub mod conn;
pub mod controller;
pub mod ipc;
pub mod paths;
pub mod portal;
pub mod registry;
pub mod render;
pub mod service;
