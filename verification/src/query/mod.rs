pub mod bucket;
pub mod find_laws;
pub mod hot_index;
pub mod hot_laws;
pub mod intern;
pub mod item;
pub mod item_laws;
pub mod macro_index;
pub mod member_index;
pub mod member_laws;
pub mod pattern;
pub mod search;
