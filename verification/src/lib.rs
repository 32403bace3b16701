//! Semantic index of an Unreal Engine code base.
pub mod query;
pub mod runtime_index;
pub mod sema;
pub mod server;
pub mod sort;
pub mod text;
pub mod text_laws;
pub mod textmap;
pub mod textset;
