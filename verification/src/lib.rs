pub mod adapter;
pub mod app;
pub mod auth;
pub mod collections;
pub mod config;
pub mod json;
pub mod protocol;
pub mod text;
pub mod websocket;
pub mod http;
pub mod sorted;
pub mod webhook;
pub mod rate_limit;
pub mod metrics;
pub mod cache;
pub mod util;
pub mod stats;
