//! Enablement engine for a catalog of configuration assets: resolves the
//! effective on/off state of every asset from explicit overrides and
//! collection inheritance, toggles assets with a minimal override footprint,
//! previews collection toggles and cleans up stale overrides.
pub mod catalog;
pub mod components;
pub mod laws;
pub mod model;
pub mod overrides;
pub mod search;
pub mod state;
pub mod sync;
pub mod text;
pub mod toggle;
