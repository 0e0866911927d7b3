//! The verified core of a zenoh network monitor.

pub mod app;
pub mod diff;
pub mod diff_laws;
pub mod fold_laws;
pub mod hangul;
pub mod history;
pub mod history_laws;
pub mod json;
pub mod json_laws;
pub mod key_laws;
pub mod keyed;
pub mod message;
pub mod plot;
pub mod plot_laws;
pub mod row_laws;
pub mod text;
pub mod text_laws;
pub mod tray;
pub mod tree;
pub mod tree_laws;
pub mod tree_paths;
pub mod view;
