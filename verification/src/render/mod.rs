pub mod filters;
pub mod types;
pub mod resolve;
pub mod laws;
