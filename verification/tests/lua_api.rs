use lumina::lua_api::{hide_screen_command, show_screen_command, LuaCommand};

#[test]
fn show_screen_defaults_to_blocking() {
    assert_eq!(
        show_screen_command("menu".to_string(), None),
        LuaCommand::ShowScreen { id: "menu".to_string(), overlay: false }
    );
    assert_eq!(
        show_screen_command("hud".to_string(), Some(true)),
        LuaCommand::ShowScreen { id: "hud".to_string(), overlay: true }
    );
    assert_eq!(
        show_screen_command("m".to_string(), Some(false)),
        LuaCommand::ShowScreen { id: "m".to_string(), overlay: false }
    );
}

#[test]
fn hide_screen_command_names_the_screen() {
    assert_eq!(hide_screen_command("menu".to_string()), LuaCommand::HideScreen("menu".to_string()));
}
