use lumina::driver::{DriverOp, ExecutorHandle, InputEvent};
use lumina::screens::{keep_stepping, ClickResponse, GameScreen, ScreenEvent, ScreenTransition};
use lumina::ui::{UiProp, UiStmt, WidgetKind};

fn screen() -> GameScreen {
    let mut h = ExecutorHandle::new();
    h.take_ops();
    GameScreen::new(h)
}

fn show(g: &mut GameScreen, id: &str, overlay: bool) -> bool {
    g.handle_screen_event(ScreenEvent::ShowScreen { id: id.to_string(), overlay })
}

fn ids(g: &GameScreen) -> Vec<(String, bool)> {
    g.active_screen_ids()
}

fn button(action: &str) -> Vec<UiStmt> {
    vec![UiStmt::Widget {
        kind: WidgetKind::Button,
        value: Some("OK".to_string()),
        props: vec![UiProp { key: "action".to_string(), val: action.to_string() }],
    }]
}

fn act(g: &mut GameScreen, a: &str) -> ScreenTransition {
    g.push_action(a.to_string());
    g.update_actions()
}

#[test]
fn new_screen_is_idle() {
    let mut g = screen();
    assert!(!g.is_blocked());
    assert!(ids(&g).is_empty());
    assert_eq!(g.begin_update(), 100);
    assert_eq!(g.driver.take_ops(), vec![DriverOp::DrainCommands]);
}

#[test]
fn blocking_screen_stops_steps_overlay_does_not() {
    let mut g = screen();
    assert!(!show(&mut g, "hud", true));
    assert!(!g.is_blocked());
    assert_eq!(g.begin_update(), 100);
    show(&mut g, "menu", false);
    assert!(g.is_blocked());
    assert_eq!(g.begin_update(), 0);
    assert_eq!(ids(&g), vec![("hud".to_string(), true), ("menu".to_string(), false)]);
}

#[test]
fn showing_twice_adds_once() {
    let mut g = screen();
    show(&mut g, "menu", true);
    show(&mut g, "menu", false);
    assert_eq!(ids(&g), vec![("menu".to_string(), true)]);
    assert!(!g.is_blocked());
}

#[test]
fn hide_removes_and_recomputes_blocking() {
    let mut g = screen();
    show(&mut g, "a", false);
    show(&mut g, "b", true);
    assert!(g.is_blocked());
    g.handle_screen_event(ScreenEvent::HideScreen { id: "a".to_string() });
    assert_eq!(ids(&g), vec![("b".to_string(), true)]);
    assert!(!g.is_blocked());
    g.handle_screen_event(ScreenEvent::HideScreen { id: "missing".to_string() });
    assert_eq!(ids(&g), vec![("b".to_string(), true)]);
}

#[test]
fn end_exits_unless_blocked() {
    let mut g = screen();
    assert!(g.handle_screen_event(ScreenEvent::End));
    show(&mut g, "menu", false);
    assert!(!g.handle_screen_event(ScreenEvent::End));
    // the script has ended: no more steps even once the screen is hidden
    g.handle_screen_event(ScreenEvent::HideScreen { id: "menu".to_string() });
    assert_eq!(g.begin_update(), 0);
}

#[test]
fn continue_action_closes_blocking_screens_and_continues() {
    let mut g = screen();
    show(&mut g, "a", false);
    show(&mut g, "hud", true);
    show(&mut g, "b", false);
    assert_eq!(act(&mut g, "  continue "), ScreenTransition::Stay);
    assert_eq!(ids(&g), vec![("hud".to_string(), true)]);
    assert!(!g.is_blocked());
    assert_eq!(g.driver.take_ops(), vec![DriverOp::Feed(InputEvent::Continue)]);
}

#[test]
fn quit_action_quits_at_next_update() {
    let mut g = screen();
    assert_eq!(act(&mut g, "quit"), ScreenTransition::Stay);
    assert_eq!(g.update_actions(), ScreenTransition::Quit);
    assert_eq!(g.update_actions(), ScreenTransition::Stay);
}

#[test]
fn jump_action_resets_end_and_jumps() {
    let mut g = screen();
    show(&mut g, "menu", false);
    g.handle_screen_event(ScreenEvent::End);
    assert_eq!(g.begin_update(), 0);
    g.driver.take_ops();
    act(&mut g, "jump   chapter2  ");
    assert!(!g.is_blocked());
    assert_eq!(g.driver.take_ops(), vec![DriverOp::Feed(InputEvent::Jump("chapter2".to_string()))]);
    assert_eq!(g.begin_update(), 100);
}

#[test]
fn show_action_adds_blocking_screen_once() {
    let mut g = screen();
    act(&mut g, "show  settings ");
    assert_eq!(ids(&g), vec![("settings".to_string(), false)]);
    assert!(g.is_blocked());
    act(&mut g, "show settings");
    assert_eq!(ids(&g), vec![("settings".to_string(), false)]);
}

#[test]
fn hide_screen_action_closes_topmost_blocking() {
    let mut g = screen();
    show(&mut g, "a", false);
    show(&mut g, "b", false);
    show(&mut g, "hud", true);
    act(&mut g, "hide screen");
    assert_eq!(ids(&g), vec![("a".to_string(), false), ("hud".to_string(), true)]);
    assert!(g.is_blocked());
    act(&mut g, "hide screen");
    assert_eq!(ids(&g), vec![("hud".to_string(), true)]);
    assert!(!g.is_blocked());
    act(&mut g, "hide screen");
    assert_eq!(ids(&g), vec![("hud".to_string(), true)]);
}

#[test]
fn choice_action_needs_a_number() {
    let mut g = screen();
    show(&mut g, "choices", false);
    act(&mut g, "choice x");
    assert!(g.is_blocked());
    assert_eq!(g.driver.take_ops(), vec![]);
    act(&mut g, "choice  2 ");
    assert!(!g.is_blocked());
    assert_eq!(g.driver.take_ops(), vec![DriverOp::Feed(InputEvent::ChoiceMade { index: 2 })]);
}

#[test]
fn unknown_action_does_nothing() {
    let mut g = screen();
    show(&mut g, "m", false);
    act(&mut g, "my_lua_function");
    act(&mut g, "jump");
    act(&mut g, "show");
    assert_eq!(ids(&g), vec![("m".to_string(), false)]);
    assert!(g.is_blocked());
    assert_eq!(g.driver.take_ops(), vec![]);
}

#[test]
fn actions_run_in_order_within_one_update() {
    let mut g = screen();
    g.push_action("show a".to_string());
    g.push_action("continue".to_string());
    g.push_action("show b".to_string());
    assert_eq!(g.update_actions(), ScreenTransition::Stay);
    assert_eq!(ids(&g), vec![("b".to_string(), false)]);
    assert_eq!(g.driver.take_ops(), vec![DriverOp::Feed(InputEvent::Continue)]);
}

#[test]
fn registered_screens_are_drawn_in_stack_order() {
    let mut g = screen();
    g.handle_screen_event(ScreenEvent::RegisterScreen { id: "a".to_string(), def: button("continue") });
    g.handle_screen_event(ScreenEvent::RegisterScreen { id: "b".to_string(), def: vec![] });
    show(&mut g, "b", true);
    show(&mut g, "unknown", true);
    show(&mut g, "a", true);
    let defs = g.screens_to_draw();
    assert_eq!(defs.len(), 2);
    assert_eq!(defs[0].len(), 0);
    assert_eq!(defs[1].len(), 1);
}

#[test]
fn registering_again_replaces_the_definition() {
    let mut g = screen();
    g.handle_screen_event(ScreenEvent::RegisterScreen { id: "a".to_string(), def: vec![] });
    g.handle_screen_event(ScreenEvent::RegisterScreen { id: "a".to_string(), def: button("quit") });
    show(&mut g, "a", true);
    let defs = g.screens_to_draw();
    assert_eq!(defs.len(), 1);
    assert_eq!(defs[0].len(), 1);
}

#[test]
fn click_priorities() {
    let mut g = screen();
    assert_eq!(g.handle_click(true, true), ClickResponse::FinishAnimations);
    assert_eq!(g.handle_click(false, true), ClickResponse::SkipTypewriter);
    assert_eq!(g.driver.take_ops(), vec![]);
    assert_eq!(g.handle_click(false, false), ClickResponse::Continued);
    assert_eq!(g.driver.take_ops(), vec![DriverOp::Feed(InputEvent::Continue)]);
    show(&mut g, "m", false);
    assert_eq!(g.handle_click(false, false), ClickResponse::Ignored);
    assert_eq!(g.driver.take_ops(), vec![]);
}

#[test]
fn step_loop_stops_after_first_waiting_step() {
    // the executor reports "must wait" on its third step
    let reports = [false, false, true, false];
    let (mut taken, mut waiting) = (0usize, false);
    while keep_stepping(100, taken, waiting) {
        waiting = reports[taken];
        taken += 1;
    }
    assert_eq!(taken, 3);
}

#[test]
fn step_loop_uses_whole_budget_when_never_waiting() {
    let (mut taken, mut waiting) = (0usize, false);
    while keep_stepping(100, taken, waiting) {
        waiting = false;
        taken += 1;
    }
    assert_eq!(taken, 100);
    assert!(!keep_stepping(0, 0, false));
}

#[test]
fn bridge_through_screen_driver_is_shared() {
    let mut g = screen();
    g.driver.typewriter_bridge().lua_set("line".to_string());
    assert_eq!(g.driver.typewriter_bridge().take_pending_set(), Some("line".to_string()));
}
