pub mod access;
pub mod auth;
pub mod config;
pub mod crypto;
pub mod error;
pub mod json;
pub mod models;
pub mod proxy;
pub mod rankings;
pub mod store;
pub mod submit;
pub mod text;
