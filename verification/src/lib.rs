pub mod text;
pub mod ordering;
pub mod snapshot;
pub mod time;
pub mod analyzer;
pub mod tags;
pub mod config;
pub mod color;
pub mod command;
pub mod display;
pub mod export_template;
pub mod subcmd;
