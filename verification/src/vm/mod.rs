pub mod contexts;
pub mod errors;
pub mod types;
