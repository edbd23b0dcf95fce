//! An OpenAI-compatible proxy for ChatGPT accounts.

pub mod accounts;
pub mod callback;
pub mod chat_stream;
pub mod config;
pub mod convert;
pub mod dashboard;
pub mod errors;
pub mod headers;
pub mod json;
pub mod keep_alive;
pub mod login;
pub mod merge;
pub mod model;
pub mod order;
pub mod outside;
pub mod paths;
pub mod proxy;
pub mod request_log;
pub mod responses;
pub mod sse;
pub mod startup;
pub mod text;
pub mod tokens;
pub mod urls;
pub mod usage;
