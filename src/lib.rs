pub mod booth;
pub mod pretty_size;
pub mod sqlite;
