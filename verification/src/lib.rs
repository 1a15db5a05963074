//! Batch video encoding.
pub mod app;
pub mod collections;
pub mod config;
pub mod decimal;
pub mod encoder;
pub mod explorer;
pub mod format;
pub mod gui;
pub mod input;
pub mod job;
pub mod natural;
pub mod number;
pub mod order;
pub mod panel;
pub mod path;
pub mod probe;
pub mod progress;
pub mod proto;
pub mod screen;
pub mod server;
pub mod session;
pub mod shim;
pub mod slot;
pub mod start;
pub mod text;
pub mod tray;
pub mod ui;
pub mod walk;
