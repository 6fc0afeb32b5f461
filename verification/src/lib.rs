use vstd::prelude::*;

pub mod aggregate;
pub mod backend;
pub mod bridge;
pub mod callback;
pub mod change;
pub mod claude;
pub mod config;
pub mod endpoints;
pub mod fields;
pub mod ids;
pub mod import;
pub mod json;
pub mod json_read;
pub mod login;
pub mod oauth;
pub mod jsonrpc;
pub mod reconcile;
pub mod register;
pub mod render;
pub mod routing;
pub mod slug;
pub mod sse;
pub mod text;
pub mod tokens;
