//! What is shown: the texts, their styles and where they stand. Nothing here draws;
//! what is decided here is painted elsewhere.
use vstd::prelude::*;

pub mod fmt;
pub mod style;
pub mod laws;
pub mod layout;
pub mod popups;
pub mod popup_laws;
pub mod shown_laws;
pub mod chrome;
pub mod network;
pub mod traffic;
pub mod detail;
pub mod frame;
