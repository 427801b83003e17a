//! Verified core of a chat gateway adapter for Feishu / Lark.

pub mod adapter;
pub mod api;
pub mod chunk;
pub mod clock;
pub mod config;
pub mod crypto;
pub mod dedupe;
pub mod event;
pub mod format;
pub mod json;
pub mod names;
pub mod rate_limit;
pub mod reply;
pub mod schema;
mod table;
pub mod text;
pub mod token;
pub mod webhook;
pub mod ws;
