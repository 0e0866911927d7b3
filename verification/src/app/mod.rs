//! The state of the dashboard and what changes it.
use vstd::prelude::*;

pub mod feed;
pub mod feed_laws;
pub mod keys;
pub mod laws;
pub mod mouse;
pub mod ingest;
pub mod network_laws;
pub mod overlay_laws;
pub mod network_pane;
pub mod publish;
pub mod publish_laws;
pub mod query;
pub mod dialog_laws;
pub mod doctor;
pub mod palette;
pub mod runtime;
pub mod scout_port;
pub mod press_laws;
pub mod profiles;
pub mod rate;
pub mod state;
pub mod stream;
pub mod stream_laws;
pub mod sweep;
pub mod pane_laws;
pub mod tree_pane;
pub mod types;
