pub mod cache;
pub mod carlo;
pub mod config;
pub mod jenkins;
pub mod text;
