//! Verified core of an Excel archiving assistant: recognising spreadsheets
//! by their header row, extracting the date they report on, naming and
//! placing archived copies, and keeping the application's configuration,
//! logs and history folders in order.

pub mod text;
pub mod config;
pub mod rule_engine;
pub mod commands;
pub mod date_utils;
pub mod date_extractor;
pub mod archiver;
pub mod process;
pub mod logger;
pub mod script_runner;
pub mod history_cleaner;
pub mod reader;
pub mod file_scanner;
pub mod paths;
