pub mod find;
pub mod laws;
