//! The index of the assets of a project.
pub mod fallback;
pub mod graph;
pub mod graph_laws;
pub mod index;
pub mod progress;
pub mod record;
pub mod record_laws;
pub mod scan;
pub mod scan_laws;
pub mod state;
