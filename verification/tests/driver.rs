use lumina::driver::{save_path_of, DriverOp, ExecutorHandle, InputEvent};

#[test]
fn new_handle_loads_globals_then_starts_at_init() {
    let mut h = ExecutorHandle::new();
    assert_eq!(
        h.take_ops(),
        vec![DriverOp::LoadGlobalData, DriverOp::Start("init".to_string())]
    );
    assert_eq!(h.take_ops(), vec![]);
}

#[test]
fn save_request_saves_then_continues() {
    let mut h = ExecutorHandle::new();
    h.take_ops();
    h.feed(InputEvent::SaveRequest { slot: 3 });
    assert_eq!(
        h.take_ops(),
        vec![
            DriverOp::SyncVarsToCtx,
            DriverOp::Save("save3.bin".to_string()),
            DriverOp::Feed(InputEvent::Continue),
        ]
    );
}

#[test]
fn load_request_only_loads() {
    let mut h = ExecutorHandle::new();
    h.take_ops();
    h.feed(InputEvent::LoadRequest { slot: 12 });
    assert_eq!(h.take_ops(), vec![DriverOp::Load("save12.bin".to_string())]);
}

#[test]
fn other_inputs_are_forwarded() {
    let mut h = ExecutorHandle::new();
    h.take_ops();
    h.feed(InputEvent::Continue);
    h.feed(InputEvent::Jump("chapter2".to_string()));
    h.feed(InputEvent::ChoiceMade { index: 1 });
    assert_eq!(
        h.take_ops(),
        vec![
            DriverOp::Feed(InputEvent::Continue),
            DriverOp::Feed(InputEvent::Jump("chapter2".to_string())),
            DriverOp::Feed(InputEvent::ChoiceMade { index: 1 }),
        ]
    );
}

#[test]
fn drain_and_step_are_queued_in_order() {
    let mut h = ExecutorHandle::new();
    h.take_ops();
    h.drain_commands();
    h.step();
    h.step();
    assert_eq!(
        h.take_ops(),
        vec![DriverOp::DrainCommands, DriverOp::Step, DriverOp::Step]
    );
}

#[test]
fn save_paths_of_slots() {
    assert_eq!(save_path_of(0), "save0.bin");
    assert_eq!(save_path_of(7), "save7.bin");
    assert_eq!(save_path_of(10), "save10.bin");
    assert_eq!(save_path_of(u32::MAX), "save4294967295.bin");
}

#[test]
fn handle_bridge_starts_empty() {
    let mut h = ExecutorHandle::new();
    let b = h.typewriter_bridge();
    assert_eq!(b.lua_get_display(), "");
    assert!(!b.lua_is_done());
}

#[test]
fn handle_bridge_is_one_shared_state() {
    let mut h = ExecutorHandle::new();
    // Lua side writes through one access, the renderer reads through another.
    h.typewriter_bridge().lua_set("hello".to_string());
    h.typewriter_bridge().update_display("he".to_string(), false);
    assert_eq!(h.typewriter_bridge().take_pending_set(), Some("hello".to_string()));
    assert_eq!(h.typewriter_bridge().take_pending_set(), None);
    assert_eq!(h.typewriter_bridge().lua_get_display(), "he");
    h.typewriter_bridge().update_display("hello".to_string(), true);
    assert!(h.typewriter_bridge().lua_is_done());
    assert_eq!(h.take_ops(), vec![DriverOp::LoadGlobalData, DriverOp::Start("init".to_string())]);
}

#[test]
fn successful_load_installs_the_saved_game() {
    let mut h = ExecutorHandle::new();
    h.take_ops();
    h.feed(InputEvent::LoadRequest { slot: 1 });
    assert_eq!(h.take_ops(), vec![DriverOp::Load("save1.bin".to_string())]);
    h.load_finished(true);
    assert_eq!(
        h.take_ops(),
        vec![
            DriverOp::InstallLoaded,
            DriverOp::PopDialogueHistory,
            DriverOp::SyncVarsFromCtx,
            DriverOp::LoadGlobalData,
        ]
    );
}

#[test]
fn failed_load_changes_nothing() {
    let mut h = ExecutorHandle::new();
    h.take_ops();
    h.feed(InputEvent::LoadRequest { slot: 1 });
    h.take_ops();
    h.load_finished(false);
    assert_eq!(h.take_ops(), vec![]);
}
