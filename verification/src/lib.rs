pub mod api;
pub mod audit;
pub mod auth;
pub mod config;
pub mod db;
pub mod library;
pub mod rbac;
pub mod resolve;
pub mod session;
pub mod text;
