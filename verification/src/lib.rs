pub mod config;
pub mod lifecycle;
pub mod mac;
