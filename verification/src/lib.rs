//! Routing of input-device events into virtual game ports: configuration
//! model, event transforms, plugs, automatic plugging and the daemon's
//! decision logic, with their contracts.

pub mod autoplug;
pub mod config;
pub mod daemon;
pub mod device;
pub mod eventloop;
pub mod framing;
pub mod input;
pub mod plug;
pub mod port;
pub mod protocol;
pub mod raw;
pub mod text;
pub mod uevent;

