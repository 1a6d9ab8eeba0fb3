pub mod blob_traits;
pub mod error;
pub mod file_handler;
pub mod hashmap_handler;
pub mod ident;
pub mod json;
pub mod laws;
pub mod types;
