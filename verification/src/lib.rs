//! Verified core of the `fetch` / `gclient` checkout tools.
pub mod text;
pub mod string_map;
pub mod fetch_util;
pub mod fetch_configs;
pub mod fetch;
pub mod gclient_path;
pub mod gclient_utils;
pub mod gclient;
pub mod gclient_eval;
