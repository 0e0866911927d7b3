//! The tray recorder: profiles, the capture loop's decisions, the CLI beside it
//! and self-update.



pub mod config;



pub mod capture;
pub mod state;
pub mod menu;
pub mod update;
pub mod cli;
pub mod laws;
