//! The session core of an interactive API-testing tool: the collection
//! tree with its path addressing, environment variable resolution, the
//! open-tab registry with dirty tracking and save/rename consistency,
//! auth and script inheritance along folder chains, the cookie jar, the
//! history log, and the workspace facade that composes them. Rendering,
//! HTTP transport, script execution and on-disk formats stay outside;
//! they meet this crate through plain values.

pub mod auth;
pub mod central;
pub mod collections;
pub mod cookies;
pub mod environment;
pub mod history;
pub mod http;
pub mod kv;
pub mod panels;
pub mod path;
pub mod persist;
pub mod script;
pub mod utils;
pub mod views;
pub mod workspace;
