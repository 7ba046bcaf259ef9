# lumina (verified core)

The decision logic of the Lumina visual-novel runtime, written in Verus.

- `src/typewriter_bridge.rs` — the typewriter state exchanged between Lua and the renderer.
- `src/driver.rs` — the executor handle: owns the one typewriter bridge, routes user inputs
  (save/load interception, what follows a load) and queues, in order, the work the script
  executor performs.
- `src/screens.rs` — the in-game screen: registry of script-defined screens, the active
  screen stack and its blocking state, button actions, screen events, clicks.
- `src/ui.rs` — the screen-definition tree and its property helpers (lookup, alignment,
  `#rrggbb[aa]` colors, dynamic values).
- `src/scene.rs` — background names and sprite lookup in the master layer for scene events.
- `src/text.rs` — character-level helpers (trim, prefixes, `usize` parsing, decimal text).
- `src/lua_api.rs` — the commands behind `lumina.ui.*`.
- `app/` — unverified glue: Lua registration (mlua), the executor loop, the `f32` layout
  pass and the per-frame screen loop.
