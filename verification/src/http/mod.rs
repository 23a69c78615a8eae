pub mod auth;

pub mod api;
