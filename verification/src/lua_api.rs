use vstd::prelude::*;

verus! {

/// A request that Lua code queues for the engine.
#[derive(Debug, PartialEq, Eq)]
pub enum LuaCommand {
    /// `lumina.ui.show_screen(id, overlay?)`.
    ShowScreen { id: String, overlay: bool },
    /// `lumina.ui.hide_screen(id)`.
    HideScreen(String),
}

/// The command for `lumina.ui.show_screen(id, overlay?)`: a missing `overlay` means a
/// blocking screen.
pub fn show_screen_command(id: String, overlay: Option<bool>) -> (r: LuaCommand)
    ensures
        r matches LuaCommand::ShowScreen { id: rid, overlay: ro } && rid@ == id@ && ro == match overlay {
            Some(o) => o,
            None => false,
        },
{
    let overlay = match overlay {
        Some(o) => o,
        None => false,
    };
    LuaCommand::ShowScreen { id, overlay }
}

/// The command for `lumina.ui.hide_screen(id)`.
pub fn hide_screen_command(id: String) -> (r: LuaCommand)
    ensures
        r matches LuaCommand::HideScreen(rid) && rid@ == id@,
{
    LuaCommand::HideScreen(id)
}

} // verus!
