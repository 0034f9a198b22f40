//! Monitoring engine of a small network-reachability service: per-target
//! probe history, the debounced UP/DOWN state machine, live reconfiguration
//! that keeps history, persistence bookkeeping and alert payload rendering.

pub mod alert;
pub mod assets;
pub mod config;
pub mod model;
pub mod monitor;
pub mod probe;
pub mod table;
