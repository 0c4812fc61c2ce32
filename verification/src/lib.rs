//! Appearance-state manager core: scheme catalog lookup, scheme state
//! persistence, template rendering and propagation planning, wallpaper
//! color analysis, and the compositor control-socket protocol.

pub mod analyze;
pub mod args;
pub mod catalog;
pub mod codec;
pub mod colormap;
pub mod errors;
pub mod hypr;
pub mod langs;
pub mod model;
pub mod paths;
pub mod propagate;
pub mod schemeops;
pub mod template;
pub mod terminal;
pub mod text;
pub mod wallpaper;
