use vstd::prelude::*;

verus! {

/// What the typewriter bridge holds, as mathematical values.
pub struct TypewriterState {
    /// Text that Lua asked to show and the renderer has not taken yet.
    pub pending_set: Option<Seq<char>>,
    /// Whether Lua asked to skip the animation and the renderer has not taken the request yet.
    pub skip: bool,
    /// Text the renderer currently shows.
    pub display: Seq<char>,
    /// Whether the renderer has finished the animation.
    pub done: bool,
}

/// Maps an optional string to its view.
pub open spec fn opt_string_view(s: Option<String>) -> Option<Seq<char>> {
    match s {
        Some(t) => Some(t@),
        None => None,
    }
}

/// The typewriter state exchanged between Lua and the renderer.
///
/// Lua writes requests (`lua_set`, `lua_skip`) and reads the animation
/// state (`lua_get_display`, `lua_is_done`); the renderer consumes the
/// requests (`take_pending_set`, `take_skip`) and publishes the state it
/// shows every frame (`update_display`). There is one bridge per executor: the executor
/// handle owns it, and Lua and the renderer both reach that one value through
/// `ExecutorHandle::typewriter_bridge`, so every write is seen by every reader. The bridge
/// offers no copy, since a copy would not see later writes.
pub struct TypewriterBridge {
    pending_set: Option<String>,
    skip: bool,
    display: String,
    done: bool,
}

impl View for TypewriterBridge {
    type V = TypewriterState;

    closed spec fn view(&self) -> TypewriterState {
        TypewriterState {
            pending_set: opt_string_view(self.pending_set),
            skip: self.skip,
            display: self.display@,
            done: self.done,
        }
    }
}

/// The state of a freshly created bridge: nothing pending, nothing shown.
pub open spec fn initial_typewriter_state() -> TypewriterState {
    TypewriterState { pending_set: None, skip: false, display: Seq::empty(), done: false }
}

/// The state after Lua asks to animate `text`: the text is pending, an earlier skip request is dropped.
pub open spec fn set_requested(st: TypewriterState, text: Seq<char>) -> TypewriterState {
    TypewriterState { pending_set: Some(text), skip: false, ..st }
}

/// The state after Lua asks to skip the animation.
pub open spec fn skip_requested(st: TypewriterState) -> TypewriterState {
    TypewriterState { skip: true, ..st }
}

/// The state after the renderer took the pending text.
pub open spec fn pending_taken(st: TypewriterState) -> TypewriterState {
    TypewriterState { pending_set: None, ..st }
}

/// The state after the renderer took the skip request.
pub open spec fn skip_taken(st: TypewriterState) -> TypewriterState {
    TypewriterState { skip: false, ..st }
}

/// The state after the renderer published the text it shows and whether it is done.
pub open spec fn display_updated(st: TypewriterState, text: Seq<char>, done: bool) -> TypewriterState {
    TypewriterState { display: text, done, ..st }
}

impl TypewriterBridge {
    /// Creates a bridge with no pending request, empty display text, and `done` unset.
    pub fn new() -> (r: Self)
        ensures
            r@ == initial_typewriter_state(),
    {
        TypewriterBridge { pending_set: None, skip: false, display: String::new(), done: false }
    }

    // ── Lua side ──────────────────────────────────────────────

    /// Requests that the typewriter animates `text`; cancels a pending skip request.
    pub fn lua_set(&mut self, text: String)
        ensures
            final(self)@ == set_requested(old(self)@, text@),
    {
        self.pending_set = Some(text);
        self.skip = false;
    }

    /// Requests that the typewriter shows its full text at once.
    pub fn lua_skip(&mut self)
        ensures
            final(self)@ == skip_requested(old(self)@),
    {
        self.skip = true;
    }

    /// The text the renderer currently shows.
    pub fn lua_get_display(&self) -> (r: String)
        ensures
            r@ == self@.display,
    {
        self.display.clone()
    }

    /// Whether the renderer reported the animation as finished.
    pub fn lua_is_done(&self) -> (r: bool)
        ensures
            r == self@.done,
    {
        self.done
    }

    // ── Renderer side ─────────────────────────────────────────

    /// Takes the text Lua asked to show, if any, and clears the request.
    pub fn take_pending_set(&mut self) -> (r: Option<String>)
        ensures
            opt_string_view(r) == old(self)@.pending_set,
            final(self)@ == pending_taken(old(self)@),
    {
        self.pending_set.take()
    }

    /// Takes the skip request and clears it.
    pub fn take_skip(&mut self) -> (r: bool)
        ensures
            r == old(self)@.skip,
            final(self)@ == skip_taken(old(self)@),
    {
        let r = self.skip;
        self.skip = false;
        r
    }

    /// Publishes the text the renderer shows this frame and whether the animation is finished.
    pub fn update_display(&mut self, text: String, done: bool)
        ensures
            final(self)@ == display_updated(old(self)@, text@, done),
    {
        self.display = text;
        self.done = done;
    }
}

impl Default for TypewriterBridge {
    /// The same as `TypewriterBridge::new`.
    fn default() -> (r: Self)
        ensures
            r@ == initial_typewriter_state(),
    {
        TypewriterBridge::new()
    }
}

// ── Laws ─────────────────────────────────────────────────────────

/// A text that Lua sets reaches the renderer exactly once: the renderer's next take
/// returns it, and a second take finds nothing.
pub proof fn law_set_text_is_taken_once(st: TypewriterState, text: Seq<char>)
    ensures
        set_requested(st, text).pending_set == Some(text),
        pending_taken(set_requested(st, text)).pending_set is None,
{
}

/// Setting a new text cancels a skip request that the renderer has not taken yet.
pub proof fn law_set_text_cancels_skip(st: TypewriterState, text: Seq<char>)
    ensures
        !set_requested(skip_requested(st), text).skip,
{
}

/// A skip request reaches the renderer exactly once.
pub proof fn law_skip_is_taken_once(st: TypewriterState)
    ensures
        skip_requested(st).skip,
        !skip_taken(skip_requested(st)).skip,
{
}

/// What the renderer publishes is what Lua reads back, until the renderer publishes again.
pub proof fn law_display_reads_back(st: TypewriterState, text: Seq<char>, done: bool)
    ensures
        display_updated(st, text, done).display == text,
        display_updated(st, text, done).done == done,
        set_requested(display_updated(st, text, done), text).display == text,
        skip_requested(display_updated(st, text, done)).done == done,
{
}

/// The two directions do not interfere: Lua's requests and the renderer's takes leave the
/// published display alone, and publishing leaves the pending requests alone.
pub proof fn law_directions_independent(st: TypewriterState, text: Seq<char>, done: bool)
    ensures
        set_requested(st, text).display == st.display && set_requested(st, text).done == st.done,
        skip_requested(st).display == st.display && skip_requested(st).done == st.done,
        pending_taken(st).display == st.display && pending_taken(st).done == st.done,
        skip_taken(st).display == st.display && skip_taken(st).done == st.done,
        display_updated(st, text, done).pending_set == st.pending_set,
        display_updated(st, text, done).skip == st.skip,
{
}

} // verus!
