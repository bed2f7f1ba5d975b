//! Health rules for SMART data and kernel I/O messages of Linux disks.

pub mod alert;
pub mod config;
pub mod devices;
pub mod json;
pub mod kernel;
pub mod laws;
pub mod laws_alert;
pub mod laws_devices;
pub mod laws_kernel;
pub mod laws_monitor;
pub mod laws_reading;
pub mod laws_report;
pub mod laws_smart;
pub mod laws_state;
pub mod laws_text;
pub mod monitor;
pub mod notifier;
pub mod report;
pub mod smart;
pub mod state;
pub mod strmap;
pub mod text;
