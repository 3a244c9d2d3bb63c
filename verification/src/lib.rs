pub mod cli;
pub mod config;
pub mod ssh;
pub mod text;
pub mod ui;
