//! The simulator: calibrated costs, workloads, scenarios and reports.

pub mod calibration;
pub mod cluster;
pub mod config;
pub mod empirical;
pub mod harness;
pub mod histogram;
pub mod messages;
pub mod profile;
pub mod report;
pub mod report_text;
pub mod scenarios;
pub mod shapes;
pub mod sorting;
pub mod workload;
