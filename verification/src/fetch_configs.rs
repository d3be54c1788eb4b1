//! The configs that `fetch` knows by name.
pub mod chromium;
