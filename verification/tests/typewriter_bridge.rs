use lumina::typewriter_bridge::TypewriterBridge;

#[test]
fn new_bridge_is_empty_and_not_done() {
    let mut b = TypewriterBridge::new();
    assert_eq!(b.lua_get_display(), "");
    assert!(!b.lua_is_done());
    assert_eq!(b.take_pending_set(), None);
    assert!(!b.take_skip());
}

#[test]
fn set_text_is_taken_once() {
    let mut b = TypewriterBridge::new();
    b.lua_set("你好世界".to_string());
    assert_eq!(b.take_pending_set(), Some("你好世界".to_string()));
    assert_eq!(b.take_pending_set(), None);
}

#[test]
fn later_set_replaces_earlier_one() {
    let mut b = TypewriterBridge::new();
    b.lua_set("first".to_string());
    b.lua_set("second".to_string());
    assert_eq!(b.take_pending_set(), Some("second".to_string()));
}

#[test]
fn skip_is_taken_once() {
    let mut b = TypewriterBridge::new();
    b.lua_skip();
    assert!(b.take_skip());
    assert!(!b.take_skip());
}

#[test]
fn set_cancels_pending_skip() {
    let mut b = TypewriterBridge::new();
    b.lua_skip();
    b.lua_set("text".to_string());
    assert!(!b.take_skip());
    assert_eq!(b.take_pending_set(), Some("text".to_string()));
}

#[test]
fn skip_after_set_keeps_the_text() {
    let mut b = TypewriterBridge::new();
    b.lua_set("text".to_string());
    b.lua_skip();
    assert!(b.take_skip());
    assert_eq!(b.take_pending_set(), Some("text".to_string()));
}

#[test]
fn display_reads_back() {
    let mut b = TypewriterBridge::new();
    b.update_display("你好".to_string(), false);
    assert_eq!(b.lua_get_display(), "你好");
    assert!(!b.lua_is_done());
    b.update_display("你好世界".to_string(), true);
    assert_eq!(b.lua_get_display(), "你好世界");
    assert!(b.lua_is_done());
}

#[test]
fn requests_do_not_touch_display() {
    let mut b = TypewriterBridge::new();
    b.update_display("shown".to_string(), true);
    b.lua_set("next".to_string());
    b.lua_skip();
    assert_eq!(b.lua_get_display(), "shown");
    assert!(b.lua_is_done());
    assert!(b.take_skip());
    assert_eq!(b.take_pending_set(), Some("next".to_string()));
    assert_eq!(b.lua_get_display(), "shown");
}

#[test]
fn default_is_new() {
    let mut b = TypewriterBridge::default();
    assert_eq!(b.lua_get_display(), "");
    assert!(!b.lua_is_done());
    assert_eq!(b.take_pending_set(), None);
}
