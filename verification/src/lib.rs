//! Verified core of the Lumina visual-novel runtime: the typewriter state
//! shared between Lua and the renderer, the executor driver, the in-game
//! screen stack and the UI property helpers.

pub mod typewriter_bridge;
pub mod text;
pub mod driver;
pub mod ui;
pub mod screens;
pub mod lua_api;
pub mod scene;
