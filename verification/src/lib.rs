pub mod integer;
pub mod filters;
pub mod text;
pub mod types;
pub mod unicode;
pub mod render;
