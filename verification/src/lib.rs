pub mod calendar;
pub mod config;
pub mod config_loader;
pub mod diff;
pub mod platform;
pub mod report;
pub mod scan;
pub mod scanner;
pub mod text;

pub use crate::scan::ScanOptions;
