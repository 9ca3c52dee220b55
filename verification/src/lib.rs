pub mod cache;
pub mod config;
pub mod controls;
pub mod laws;
pub mod models;
pub mod status;
pub mod table;
pub mod text;
pub mod view;
pub mod workers;
