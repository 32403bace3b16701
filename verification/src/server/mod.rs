//! What the server does with requests, apart from reading and sending them.
pub mod asset;
pub mod cache;
pub mod engine;
pub mod engine_laws;
pub mod livefind;
pub mod livetext;
pub mod livetext_laws;
pub mod path;
pub mod profile;
pub mod profile_laws;
pub mod project;
pub mod project_laws;
pub mod rank;
pub mod rank_laws;
pub mod registry;
pub mod report;
pub mod report_laws;
pub mod request;
