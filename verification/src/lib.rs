//! A launcher for wlroots-based Wayland compositors: the verified core.
//!
//! This crate holds the decisions the launcher makes: where its files live,
//! which configuration and style it ends up with, how the command line and the
//! `PATH` variable are read, and which entries a query shows. The window, the
//! file system and process spawning stay with the program around it.

pub mod cache;
pub mod cli;
pub mod config;
pub mod drun;
pub mod entry;
pub mod input;
pub mod paths;
pub mod run;
pub mod text;
