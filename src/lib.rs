//! A launcher's search core: providers answer a query with scored
//! candidates, a usage store boosts what was chosen before, and the results
//! of all providers are merged into one ranked list.
pub mod text;
pub mod utils;
pub mod ranking;
pub mod types;
pub mod providers;
pub mod usage;
pub mod desktop;
pub mod applications;
pub mod dynamic;
pub mod ai;
pub mod directories;
pub mod usage_file;
pub mod services;
pub mod usage_tracker;
pub mod config;
pub mod interfaces;
pub mod execution;
pub mod usage_report;
pub mod live;
