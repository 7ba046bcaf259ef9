use vstd::prelude::*;
use crate::driver::{ExecutorHandle, HandleState, Input, InputEvent, Op, feed_ops};
use crate::text::{
    chars_equal, chars_of, is_prefix, parse_usize, parse_usize_chars, same_text, skip_chars,
    starts_with_chars, string_of, trim, trim_chars,
};
use crate::ui::UiStmt;

verus! {

// ── Active screens ───────────────────────────────────────────────

/// A screen on the active stack.
pub struct ActiveScreen {
    pub id: String,
    /// An overlay screen is drawn over the game without blocking the script.
    pub overlay: bool,
}

/// An active screen as mathematical values.
pub struct ScreenEntry {
    pub id: Seq<char>,
    pub overlay: bool,
}

impl View for ActiveScreen {
    type V = ScreenEntry;

    open spec fn view(&self) -> ScreenEntry {
        ScreenEntry { id: self.id@, overlay: self.overlay }
    }
}

/// The views of a stack of active screens.
pub open spec fn entries(s: Seq<ActiveScreen>) -> Seq<ScreenEntry> {
    s.map_values(|a: ActiveScreen| a@)
}

/// Whether a screen with this id is on the stack.
pub open spec fn has_id(s: Seq<ScreenEntry>, id: Seq<char>) -> bool {
    exists|i: int| 0 <= i < s.len() && #[trigger] s[i].id == id
}

/// Whether some screen on the stack blocks the script (is not an overlay).
pub open spec fn any_blocking(s: Seq<ScreenEntry>) -> bool {
    exists|i: int| 0 <= i < s.len() && !(#[trigger] s[i]).overlay
}

/// Whether no two screens on the stack share an id.
pub open spec fn unique_ids(s: Seq<ScreenEntry>) -> bool {
    forall|i: int, j: int| 0 <= i < j < s.len() ==> (#[trigger] s[i]).id != (#[trigger] s[j]).id
}

/// The overlay screens of the stack, in order.
pub open spec fn keep_overlays(s: Seq<ScreenEntry>) -> Seq<ScreenEntry>
    decreases s.len(),
{
    if s.len() == 0 {
        s
    } else if s.last().overlay {
        keep_overlays(s.drop_last()).push(s.last())
    } else {
        keep_overlays(s.drop_last())
    }
}

/// The stack without the screens with this id, in order.
pub open spec fn remove_id(s: Seq<ScreenEntry>, id: Seq<char>) -> Seq<ScreenEntry>
    decreases s.len(),
{
    if s.len() == 0 {
        s
    } else if s.last().id != id {
        remove_id(s.drop_last(), id).push(s.last())
    } else {
        remove_id(s.drop_last(), id)
    }
}

/// The position of the topmost blocking screen, if any.
pub open spec fn last_blocking(s: Seq<ScreenEntry>) -> Option<int>
    decreases s.len(),
{
    if s.len() == 0 {
        None
    } else if !s.last().overlay {
        Some(s.len() - 1)
    } else {
        last_blocking(s.drop_last())
    }
}

/// The stack without its topmost blocking screen.
pub open spec fn remove_last_blocking(s: Seq<ScreenEntry>) -> Seq<ScreenEntry> {
    match last_blocking(s) {
        Some(i) => s.remove(i),
        None => s,
    }
}

// ── Lemmas on the stack ──────────────────────────────────────────

/// Every entry of `keep_overlays(s)` is an overlay entry of `s`.
proof fn lemma_keep_overlays(s: Seq<ScreenEntry>)
    ensures
        keep_overlays(s).len() <= s.len(),
        forall|j: int|
            0 <= j < keep_overlays(s).len() ==> (#[trigger] keep_overlays(s)[j]).overlay
                && exists|i: int| 0 <= i < s.len() && s[i] == keep_overlays(s)[j],
        !any_blocking(keep_overlays(s)),
        unique_ids(s) ==> unique_ids(keep_overlays(s)),
    decreases s.len(),
{
    if s.len() > 0 {
        let p = s.drop_last();
        lemma_keep_overlays(p);
        let r = keep_overlays(p);
        assert forall|j: int| 0 <= j < r.len() implies exists|i: int|
            0 <= i < s.len() && s[i] == #[trigger] r[j] by {
            let i = choose|i: int| 0 <= i < p.len() && p[i] == r[j];
            assert(s[i] == p[i]);
        }
        if s.last().overlay {
            let q = r.push(s.last());
            assert forall|j: int| 0 <= j < q.len() implies (#[trigger] q[j]).overlay && exists|i: int|
                0 <= i < s.len() && s[i] == q[j] by {
                if j < r.len() {
                    assert(q[j] == r[j]);
                } else {
                    assert(s[s.len() - 1] == q[j]);
                }
            }
            if unique_ids(s) {
                assert(unique_ids(p));
                assert forall|a: int, b: int| 0 <= a < b < q.len() implies (#[trigger] q[a]).id != (
                #[trigger] q[b]).id by {
                    if b == r.len() {
                        let i = choose|i: int| 0 <= i < p.len() && p[i] == r[a];
                        assert(s[i] == q[a]);
                        assert(s[s.len() - 1] == q[b]);
                    } else {
                        assert(q[a] == r[a]);
                        assert(q[b] == r[b]);
                    }
                }
            }
        } else {
            if unique_ids(s) {
                assert(unique_ids(p));
            }
        }
    }
}

/// Every entry of `remove_id(s, id)` is an entry of `s` with another id.
proof fn lemma_remove_id(s: Seq<ScreenEntry>, id: Seq<char>)
    ensures
        forall|j: int|
            0 <= j < remove_id(s, id).len() ==> (#[trigger] remove_id(s, id)[j]).id != id
                && exists|i: int| 0 <= i < s.len() && s[i] == remove_id(s, id)[j],
        !has_id(remove_id(s, id), id),
        unique_ids(s) ==> unique_ids(remove_id(s, id)),
    decreases s.len(),
{
    if s.len() > 0 {
        let p = s.drop_last();
        lemma_remove_id(p, id);
        let r = remove_id(p, id);
        assert forall|j: int| 0 <= j < r.len() implies exists|i: int|
            0 <= i < s.len() && s[i] == #[trigger] r[j] by {
            let i = choose|i: int| 0 <= i < p.len() && p[i] == r[j];
            assert(s[i] == p[i]);
        }
        if s.last().id != id {
            let q = r.push(s.last());
            assert forall|j: int| 0 <= j < q.len() implies (#[trigger] q[j]).id != id && exists|i: int|
                0 <= i < s.len() && s[i] == q[j] by {
                if j < r.len() {
                    assert(q[j] == r[j]);
                } else {
                    assert(s[s.len() - 1] == q[j]);
                }
            }
            if unique_ids(s) {
                assert(unique_ids(p));
                assert forall|a: int, b: int| 0 <= a < b < q.len() implies (#[trigger] q[a]).id != (
                #[trigger] q[b]).id by {
                    if b == r.len() {
                        let i = choose|i: int| 0 <= i < p.len() && p[i] == r[a];
                        assert(s[i] == q[a]);
                        assert(s[s.len() - 1] == q[b]);
                    } else {
                        assert(q[a] == r[a]);
                        assert(q[b] == r[b]);
                    }
                }
            }
        } else {
            if unique_ids(s) {
                assert(unique_ids(p));
            }
        }
    }
}

/// `last_blocking` finds the topmost blocking screen, and only when there is one.
proof fn lemma_last_blocking(s: Seq<ScreenEntry>)
    ensures
        match last_blocking(s) {
            Some(i) => 0 <= i < s.len() && !s[i].overlay && forall|k: int|
                i < k < s.len() ==> (#[trigger] s[k]).overlay,
            None => !any_blocking(s),
        },
    decreases s.len(),
{
    if s.len() > 0 && s.last().overlay {
        let p = s.drop_last();
        lemma_last_blocking(p);
        match last_blocking(p) {
            Some(i) => {
                assert forall|k: int| i < k < s.len() implies (#[trigger] s[k]).overlay by {
                    if k < p.len() {
                        assert(s[k] == p[k]);
                    }
                }
            },
            None => {
                assert forall|k: int| 0 <= k < s.len() implies (#[trigger] s[k]).overlay by {
                    if k < p.len() {
                        assert(s[k] == p[k]);
                    }
                }
            },
        }
    }
}

// ── Executable stack operations ──────────────────────────────────

/// Whether a screen with this id is on the stack.
fn stack_has_id(s: &Vec<ActiveScreen>, id: &str) -> (r: bool)
    ensures
        r == has_id(entries(s@), id@),
{
    let n = s.len();
    let mut i: usize = 0;
    while i < n
        invariant
            n == s@.len(),
            i <= n,
            forall|k: int| 0 <= k < i ==> (#[trigger] entries(s@)[k]).id != id@,
        decreases n - i,
    {
        if same_text(s[i].id.as_str(), id) {
            assert(entries(s@)[i as int].id == id@);
            return true;
        }
        i = i + 1;
    }
    false
}

/// Whether some screen on the stack blocks the script.
fn stack_any_blocking(s: &Vec<ActiveScreen>) -> (r: bool)
    ensures
        r == any_blocking(entries(s@)),
{
    let n = s.len();
    let mut i: usize = 0;
    while i < n
        invariant
            n == s@.len(),
            i <= n,
            forall|k: int| 0 <= k < i ==> (#[trigger] entries(s@)[k]).overlay,
        decreases n - i,
    {
        if !s[i].overlay {
            assert(!entries(s@)[i as int].overlay);
            return true;
        }
        i = i + 1;
    }
    false
}

impl ActiveScreen {
    /// A copy of this entry.
    pub fn copy(&self) -> (r: Self)
        ensures
            r@ == self@,
    {
        ActiveScreen { id: self.id.clone(), overlay: self.overlay }
    }
}

/// The overlay screens of the stack, in order.
fn stack_keep_overlays(s: &Vec<ActiveScreen>) -> (r: Vec<ActiveScreen>)
    ensures
        entries(r@) == keep_overlays(entries(s@)),
{
    let mut r: Vec<ActiveScreen> = Vec::new();
    let ghost e = entries(s@);
    let n = s.len();
    let mut i: usize = 0;
    assert(e.take(0) =~= Seq::<ScreenEntry>::empty());
    while i < n
        invariant
            n == e.len(),
            e == entries(s@),
            i <= n,
            entries(r@) == keep_overlays(e.take(i as int)),
        decreases n - i,
    {
        assert(e.take(i + 1).drop_last() =~= e.take(i as int));
        let ghost before = r@;
        if s[i].overlay {
            r.push(s[i].copy());
            assert(entries(r@) =~= entries(before).push(e[i as int]));
        }
        i = i + 1;
    }
    assert(e.take(n as int) =~= e);
    r
}

/// The stack without the screens with this id, in order.
fn stack_remove_id(s: &Vec<ActiveScreen>, id: &str) -> (r: Vec<ActiveScreen>)
    ensures
        entries(r@) == remove_id(entries(s@), id@),
{
    let mut r: Vec<ActiveScreen> = Vec::new();
    let ghost e = entries(s@);
    let n = s.len();
    let mut i: usize = 0;
    assert(e.take(0) =~= Seq::<ScreenEntry>::empty());
    while i < n
        invariant
            n == e.len(),
            e == entries(s@),
            i <= n,
            entries(r@) == remove_id(e.take(i as int), id@),
        decreases n - i,
    {
        assert(e.take(i + 1).drop_last() =~= e.take(i as int));
        let ghost before = r@;
        if !same_text(s[i].id.as_str(), id) {
            r.push(s[i].copy());
            assert(entries(r@) =~= entries(before).push(e[i as int]));
        }
        i = i + 1;
    }
    assert(e.take(n as int) =~= e);
    r
}

/// The position of the topmost blocking screen, if any.
fn stack_last_blocking(s: &Vec<ActiveScreen>) -> (r: Option<usize>)
    ensures
        match r {
            Some(i) => last_blocking(entries(s@)) == Some(i as int),
            None => last_blocking(entries(s@)) is None,
        },
{
    let ghost e = entries(s@);
    let mut i: usize = s.len();
    assert(e.take(e.len() as int) =~= e);
    while i > 0
        invariant
            e == entries(s@),
            i <= e.len(),
            last_blocking(e) == last_blocking(e.take(i as int)),
        decreases i,
    {
        assert(e.take(i as int).last() == e[i - 1]);
        if !s[i - 1].overlay {
            return Some(i - 1);
        }
        assert(e.take(i as int).drop_last() =~= e.take(i - 1));
        i = i - 1;
    }
    None
}

// ── Screen registry ──────────────────────────────────────────────

/// A screen definition registered by the script.
pub struct RegisteredScreen {
    pub id: String,
    pub def: Vec<UiStmt>,
}

/// The registry as a map from screen id to definition (later entries win).
pub open spec fn registry_map(r: Seq<RegisteredScreen>) -> Map<Seq<char>, Seq<UiStmt>>
    decreases r.len(),
{
    if r.len() == 0 {
        Map::empty()
    } else {
        registry_map(r.drop_last()).insert(r.last().id@, r.last().def@)
    }
}

/// Whether no two registry entries share an id.
pub open spec fn unique_keys(r: Seq<RegisteredScreen>) -> bool {
    forall|i: int, j: int| 0 <= i < j < r.len() ==> (#[trigger] r[i]).id@ != (#[trigger] r[j]).id@
}

proof fn lemma_registry_lookup(r: Seq<RegisteredScreen>, i: int)
    requires
        unique_keys(r),
        0 <= i < r.len(),
    ensures
        registry_map(r).dom().contains(r[i].id@),
        registry_map(r)[r[i].id@] == r[i].def@,
    decreases r.len(),
{
    if i < r.len() - 1 {
        let p = r.drop_last();
        assert(p[i] == r[i]);
        assert(r[i].id@ != r[r.len() - 1].id@);
        lemma_registry_lookup(p, i);
    }
}

proof fn lemma_registry_absent(r: Seq<RegisteredScreen>, id: Seq<char>)
    requires
        forall|i: int| 0 <= i < r.len() ==> (#[trigger] r[i]).id@ != id,
    ensures
        !registry_map(r).dom().contains(id),
    decreases r.len(),
{
    if r.len() > 0 {
        let p = r.drop_last();
        assert forall|i: int| 0 <= i < p.len() implies (#[trigger] p[i]).id@ != id by {
            assert(p[i] == r[i]);
        }
        assert(r[r.len() - 1].id@ != id);
        lemma_registry_absent(p, id);
    }
}

proof fn lemma_registry_update(r: Seq<RegisteredScreen>, i: int, x: RegisteredScreen)
    requires
        unique_keys(r),
        0 <= i < r.len(),
        r[i].id@ == x.id@,
    ensures
        registry_map(r.update(i, x)) == registry_map(r).insert(x.id@, x.def@),
        unique_keys(r.update(i, x)),
    decreases r.len(),
{
    let u = r.update(i, x);
    assert forall|a: int, b: int| 0 <= a < b < u.len() implies (#[trigger] u[a]).id@ != (
    #[trigger] u[b]).id@ by {
        assert(u[a].id@ == r[a].id@);
        assert(u[b].id@ == r[b].id@);
    }
    let p = r.drop_last();
    if i == r.len() - 1 {
        assert(u.drop_last() =~= p);
        assert(registry_map(u) =~= registry_map(r).insert(x.id@, x.def@));
    } else {
        assert(u.drop_last() =~= p.update(i, x));
        assert(unique_keys(p));
        lemma_registry_update(p, i, x);
        assert(r[r.len() - 1].id@ != r[i].id@);
        assert(registry_map(u) =~= registry_map(r).insert(x.id@, x.def@));
    }
}

/// Registers (or replaces) the definition of a screen.
fn registry_insert(r: &mut Vec<RegisteredScreen>, id: String, def: Vec<UiStmt>)
    requires
        unique_keys(old(r)@),
    ensures
        unique_keys(final(r)@),
        registry_map(final(r)@) == registry_map(old(r)@).insert(id@, def@),
{
    let n = r.len();
    let mut i: usize = 0;
    while i < n
        invariant
            n == r@.len(),
            r@ == old(r)@,
            unique_keys(r@),
            i <= n,
            forall|k: int| 0 <= k < i ==> (#[trigger] r@[k]).id@ != id@,
        decreases n - i,
    {
        if same_text(r[i].id.as_str(), id.as_str()) {
            let ghost before = r@;
            let x = RegisteredScreen { id, def };
            proof {
                lemma_registry_update(before, i as int, x);
            }
            r.set(i, x);
            return;
        }
        i = i + 1;
    }
    let ghost before = r@;
    r.push(RegisteredScreen { id, def });
    assert(r@.drop_last() =~= before);
    assert forall|a: int, b: int| 0 <= a < b < r@.len() implies (#[trigger] r@[a]).id@ != (
    #[trigger] r@[b]).id@ by {
        if b < n {
            assert(r@[a] == before[a]);
            assert(r@[b] == before[b]);
        } else {
            assert(r@[a] == before[a]);
        }
    }
}

/// The definition registered for a screen id, if any.
fn registry_get<'a>(r: &'a Vec<RegisteredScreen>, id: &str) -> (d: Option<&'a Vec<UiStmt>>)
    requires
        unique_keys(r@),
    ensures
        match d {
            Some(v) => registry_map(r@).dom().contains(id@) && registry_map(r@)[id@] == v@,
            None => !registry_map(r@).dom().contains(id@),
        },
{
    let n = r.len();
    let mut i: usize = 0;
    while i < n
        invariant
            n == r@.len(),
            unique_keys(r@),
            i <= n,
            forall|k: int| 0 <= k < i ==> (#[trigger] r@[k]).id@ != id@,
        decreases n - i,
    {
        if same_text(r[i].id.as_str(), id) {
            proof {
                lemma_registry_lookup(r@, i as int);
            }
            return Some(&r[i].def);
        }
        i = i + 1;
    }
    proof {
        lemma_registry_absent(r@, id@);
    }
    None
}

// ── The in-game screen ───────────────────────────────────────────

/// What the frame update asks of the window.
#[derive(Debug, Clone, Copy, PartialEq, Eq, Structural)]
pub enum ScreenTransition {
    /// Keep running.
    Stay,
    /// Close the game.
    Quit,
}

/// A screen event emitted by the script.
pub enum ScreenEvent {
    /// Register (or replace) the definition of a screen.
    RegisterScreen { id: String, def: Vec<UiStmt> },
    /// Show a screen; a non-overlay screen blocks the script.
    ShowScreen { id: String, overlay: bool },
    /// Hide every active screen with this id.
    HideScreen { id: String },
    /// The script has ended.
    End,
}

/// A screen event as mathematical values.
pub enum ScreenEventView {
    RegisterScreen(Seq<char>, Seq<UiStmt>),
    ShowScreen(Seq<char>, bool),
    HideScreen(Seq<char>),
    End,
}

impl View for ScreenEvent {
    type V = ScreenEventView;

    open spec fn view(&self) -> ScreenEventView {
        match self {
            ScreenEvent::RegisterScreen { id, def } => ScreenEventView::RegisterScreen(id@, def@),
            ScreenEvent::ShowScreen { id, overlay } => ScreenEventView::ShowScreen(id@, *overlay),
            ScreenEvent::HideScreen { id } => ScreenEventView::HideScreen(id@),
            ScreenEvent::End => ScreenEventView::End,
        }
    }
}

/// The in-game screen as mathematical values.
pub struct ScreenState {
    /// The screen definitions the script registered, by id.
    pub registry: Map<Seq<char>, Seq<UiStmt>>,
    /// The active screens, in the order they are drawn.
    pub active: Seq<ScreenEntry>,
    /// Whether an active screen blocks the script.
    pub blocked: bool,
    /// Whether the script ended while a screen blocked it.
    pub ended: bool,
    /// The button actions waiting for the next update.
    pub pending: Seq<Seq<char>>,
    /// The executor handle.
    pub driver: HandleState,
}

/// The views of a list of strings.
pub open spec fn strings(s: Seq<String>) -> Seq<Seq<char>> {
    s.map_values(|t: String| t@)
}

/// The screen's invariant: the script is blocked exactly when a non-overlay screen is
/// active, and no screen is active twice.
pub open spec fn stack_inv(st: ScreenState) -> bool {
    &&& st.blocked == any_blocking(st.active)
    &&& unique_ids(st.active)
}

/// Closes every blocking screen, keeping the overlays in order.
pub open spec fn close_blocking(st: ScreenState) -> ScreenState {
    ScreenState { active: keep_overlays(st.active), blocked: false, ..st }
}

/// Hands an input to the executor.
pub open spec fn feed_input(st: ScreenState, ev: Input) -> ScreenState {
    ScreenState { driver: HandleState { ops: st.driver.ops + feed_ops(ev), ..st.driver }, ..st }
}

/// The effect of one button action. The action is trimmed, then:
/// `continue` closes the blocking screens and continues the script;
/// `quit` asks the next update to quit; `jump <label>` closes the blocking screens,
/// clears the ended mark and jumps; `show <id>` shows a blocking screen unless it is
/// already active; `hide screen` closes the topmost blocking screen; `choice <n>` closes
/// the blocking screens and picks choice `n` when `n` is a number; anything else does nothing.
pub open spec fn apply_action(st: ScreenState, action: Seq<char>) -> ScreenState {
    let t = trim(action);
    if t == "continue"@ {
        feed_input(close_blocking(st), Input::Continue)
    } else if t == "quit"@ {
        ScreenState { pending: st.pending.push("__quit__"@), ..st }
    } else if is_prefix("jump "@, t) {
        let label = trim(t.skip("jump "@.len() as int));
        feed_input(ScreenState { ended: false, ..close_blocking(st) }, Input::Jump(label))
    } else if is_prefix("show "@, t) {
        let id = trim(t.skip("show "@.len() as int));
        if has_id(st.active, id) {
            st
        } else {
            ScreenState { active: st.active.push(ScreenEntry { id, overlay: false }), blocked: true, ..st }
        }
    } else if t == "hide screen"@ {
        let a = remove_last_blocking(st.active);
        ScreenState { active: a, blocked: any_blocking(a), ..st }
    } else if is_prefix("choice "@, t) {
        match parse_usize(trim(t.skip("choice "@.len() as int))) {
            Some(index) => feed_input(close_blocking(st), Input::ChoiceMade(index)),
            None => st,
        }
    } else {
        st
    }
}

/// The effect of a list of button actions, first to last.
pub open spec fn apply_actions(st: ScreenState, actions: Seq<Seq<char>>) -> ScreenState
    decreases actions.len(),
{
    if actions.len() == 0 {
        st
    } else {
        apply_actions(apply_action(st, actions[0]), actions.drop_first())
    }
}

/// The effect of a screen event; the flag says whether the window must close.
pub open spec fn apply_event(st: ScreenState, ev: ScreenEventView) -> (ScreenState, bool) {
    match ev {
        ScreenEventView::RegisterScreen(id, def) => (
            ScreenState { registry: st.registry.insert(id, def), ..st },
            false,
        ),
        ScreenEventView::ShowScreen(id, overlay) => if has_id(st.active, id) {
            (st, false)
        } else {
            (
                ScreenState {
                    active: st.active.push(ScreenEntry { id, overlay }),
                    blocked: st.blocked || !overlay,
                    ..st
                },
                false,
            )
        },
        ScreenEventView::HideScreen(id) => {
            let a = remove_id(st.active, id);
            (ScreenState { active: a, blocked: any_blocking(a), ..st }, false)
        },
        ScreenEventView::End => if st.blocked {
            (ScreenState { ended: true, ..st }, false)
        } else {
            (st, true)
        },
    }
}

/// Whether the action list holds the quit mark left by a `quit` action.
pub open spec fn wants_quit(pending: Seq<Seq<char>>) -> bool {
    pending.contains("__quit__"@)
}

/// The number of script steps an update may run: a hundred, unless a screen blocks
/// the script or the script has ended.
pub open spec fn step_budget(st: ScreenState) -> usize {
    if !st.blocked && !st.ended {
        100
    } else {
        0
    }
}

/// Whether the frame's script loop runs another step, after `taken` steps of a budget of
/// `budget`, when the last step reported `waiting` (the executor must wait for input or an
/// animation; false before the first step).
pub open spec fn step_allowed(budget: nat, taken: nat, waiting: bool) -> bool {
    taken < budget && !waiting
}

/// How many steps the frame's loop runs from `taken` on, when step `j` (counted from zero)
/// reports `reports[j]`.
pub open spec fn steps_run(budget: nat, reports: Seq<bool>, taken: nat) -> nat
    decreases budget - taken,
{
    if step_allowed(budget, taken, taken > 0 && reports[taken - 1]) {
        steps_run(budget, reports, taken + 1)
    } else {
        taken
    }
}

/// Whether the frame's script loop runs another step (see `step_allowed`).
pub fn keep_stepping(budget: usize, taken: usize, waiting: bool) -> (r: bool)
    ensures
        r == step_allowed(budget as nat, taken as nat, waiting),
{
    taken < budget && !waiting
}

/// The definitions of the active screens that are registered, in drawing order.
pub open spec fn defs_to_draw(
    active: Seq<ScreenEntry>,
    registry: Map<Seq<char>, Seq<UiStmt>>,
) -> Seq<Seq<UiStmt>>
    decreases active.len(),
{
    if active.len() == 0 {
        Seq::empty()
    } else {
        let rest = defs_to_draw(active.drop_last(), registry);
        let id = active.last().id;
        if registry.dom().contains(id) {
            rest.push(registry[id])
        } else {
            rest
        }
    }
}

/// What a click on the game area does.
#[derive(Debug, Clone, Copy, PartialEq, Eq, Structural)]
pub enum ClickResponse {
    /// A blocking screen is active: the click is not for the game.
    Ignored,
    /// Finish the running scene animations.
    FinishAnimations,
    /// Show the typewriter's full text.
    SkipTypewriter,
    /// The script was continued.
    Continued,
}

/// The in-game screen: the screens the script registered and shows, whether they block
/// the script, the button actions waiting for the next update, and the executor handle.
pub struct GameScreen {
    /// The executor handle, with the typewriter bridge.
    pub driver: ExecutorHandle,
    screen_registry: Vec<RegisteredScreen>,
    active_screens: Vec<ActiveScreen>,
    blocked_by_screen: bool,
    pending_actions: Vec<String>,
    script_ended: bool,
}

impl View for GameScreen {
    type V = ScreenState;

    closed spec fn view(&self) -> ScreenState {
        ScreenState {
            registry: registry_map(self.screen_registry@),
            active: entries(self.active_screens@),
            blocked: self.blocked_by_screen,
            ended: self.script_ended,
            pending: strings(self.pending_actions@),
            driver: self.driver@,
        }
    }
}

impl GameScreen {
    /// The screen's well-formedness: its invariant holds and the registry has one entry per id.
    pub closed spec fn wf(&self) -> bool {
        &&& stack_inv(self@)
        &&& unique_keys(self.screen_registry@)
    }

    /// Creates the in-game screen around an executor handle: nothing registered or active,
    /// not blocked, no pending action.
    pub fn new(driver: ExecutorHandle) -> (r: Self)
        ensures
            r.wf(),
            r@.registry == Map::<Seq<char>, Seq<UiStmt>>::empty(),
            r@.active == Seq::<ScreenEntry>::empty(),
            !r@.blocked,
            !r@.ended,
            r@.pending == Seq::<Seq<char>>::empty(),
            r@.driver == driver@,
    {
        let r = GameScreen {
            driver,
            screen_registry: Vec::new(),
            active_screens: Vec::new(),
            blocked_by_screen: false,
            pending_actions: Vec::new(),
            script_ended: false,
        };
        assert(r@.active =~= Seq::<ScreenEntry>::empty());
        assert(r@.pending =~= Seq::<Seq<char>>::empty());
        r
    }

    /// Well-formedness implies the invariant on the view.
    pub proof fn lemma_wf(&self)
        requires
            self.wf(),
        ensures
            stack_inv(self@),
    {
    }

    /// The ids of the active screens and whether each is an overlay, in drawing order.
    pub fn active_screen_ids(&self) -> (r: Vec<(String, bool)>)
        ensures
            r@.len() == self@.active.len(),
            forall|i: int|
                0 <= i < r@.len() ==> (#[trigger] r@[i]).0@ == self@.active[i].id && r@[i].1
                    == self@.active[i].overlay,
    {
        let mut r: Vec<(String, bool)> = Vec::new();
        let n = self.active_screens.len();
        let mut i: usize = 0;
        while i < n
            invariant
                n == self.active_screens@.len(),
                i <= n,
                r@.len() == i,
                forall|k: int|
                    0 <= k < i ==> (#[trigger] r@[k]).0@ == entries(self.active_screens@)[k].id
                        && r@[k].1 == entries(self.active_screens@)[k].overlay,
            decreases n - i,
        {
            r.push((self.active_screens[i].id.clone(), self.active_screens[i].overlay));
            i = i + 1;
        }
        r
    }

    /// Whether an active screen blocks the script.
    pub fn is_blocked(&self) -> (r: bool)
        ensures
            r == self@.blocked,
    {
        self.blocked_by_screen
    }

    /// Recomputes whether the script is blocked: it is when a non-overlay screen is active.
    fn refresh_block_state(&mut self)
        ensures
            final(self)@ == (ScreenState { blocked: any_blocking(old(self)@.active), ..old(self)@ }),
            final(self).screen_registry == old(self).screen_registry,
    {
        self.blocked_by_screen = stack_any_blocking(&self.active_screens);
    }

    /// Closes every blocking screen, keeping the overlays in order.
    fn close_blocking_screens(&mut self)
        requires
            old(self).wf(),
        ensures
            final(self).wf(),
            final(self)@ == close_blocking(old(self)@),
            final(self).screen_registry == old(self).screen_registry,
    {
        proof {
            lemma_keep_overlays(entries(self.active_screens@));
        }
        self.active_screens = stack_keep_overlays(&self.active_screens);
        self.refresh_block_state();
    }

    /// Handles a screen event from the script. Returns whether the window must close:
    /// it must when the script ends while no screen blocks it; when one does, the end is
    /// only noted, so that the screen stays up.
    pub fn handle_screen_event(&mut self, ev: ScreenEvent) -> (exit: bool)
        requires
            old(self).wf(),
        ensures
            final(self).wf(),
            (final(self)@, exit) == apply_event(old(self)@, ev@),
    {
        let ghost e = ev@;
        match ev {
            ScreenEvent::RegisterScreen { id, def } => {
                registry_insert(&mut self.screen_registry, id, def);
                false
            },
            ScreenEvent::ShowScreen { id, overlay } => {
                if !stack_has_id(&self.active_screens, id.as_str()) {
                    let ghost before = self.active_screens@;
                    let ghost entry = ScreenEntry { id: id@, overlay };
                    if !overlay {
                        self.blocked_by_screen = true;
                    }
                    self.active_screens.push(ActiveScreen { id, overlay });
                    proof {
                        lemma_push_entry(entries(before), entry);
                        assert(entries(self.active_screens@) =~= entries(before).push(entry));
                    }
                }
                false
            },
            ScreenEvent::HideScreen { id } => {
                proof {
                    lemma_remove_id(entries(self.active_screens@), id@);
                }
                self.active_screens = stack_remove_id(&self.active_screens, id.as_str());
                self.refresh_block_state();
                false
            },
            ScreenEvent::End => {
                if self.blocked_by_screen {
                    self.script_ended = true;
                    false
                } else {
                    true
                }
            },
        }
    }

    /// Carries out one button action (see `apply_action`).
    fn apply_one_action(&mut self, action: &String)
        requires
            old(self).wf(),
        ensures
            final(self).wf(),
            final(self)@ == apply_action(old(self)@, action@),
    {
        let a = chars_of(action.as_str());
        let t = trim_chars(a.as_slice());
        let t = t.as_slice();
        let cont = chars_of("continue");
        let quit = chars_of("quit");
        let jump = chars_of("jump ");
        let show = chars_of("show ");
        let hide = chars_of("hide screen");
        let choice = chars_of("choice ");
        if chars_equal(t, cont.as_slice()) {
            self.close_blocking_screens();
            self.driver.feed(InputEvent::Continue);
        } else if chars_equal(t, quit.as_slice()) {
            let ghost before = self.pending_actions@;
            self.pending_actions.push(string_of(chars_of("__quit__").as_slice()));
            assert(strings(self.pending_actions@) =~= strings(before).push("__quit__"@));
        } else if starts_with_chars(t, jump.as_slice()) {
            let rest = skip_chars(t, jump.len());
            let label = trim_chars(rest.as_slice());
            self.close_blocking_screens();
            self.script_ended = false;
            self.driver.feed(InputEvent::Jump(string_of(label.as_slice())));
        } else if starts_with_chars(t, show.as_slice()) {
            let rest = skip_chars(t, show.len());
            let id = string_of(trim_chars(rest.as_slice()).as_slice());
            if !stack_has_id(&self.active_screens, id.as_str()) {
                let ghost before = self.active_screens@;
                let ghost entry = ScreenEntry { id: id@, overlay: false };
                self.active_screens.push(ActiveScreen { id, overlay: false });
                self.blocked_by_screen = true;
                proof {
                    lemma_push_entry(entries(before), entry);
                    assert(entries(self.active_screens@) =~= entries(before).push(entry));
                }
            }
        } else if chars_equal(t, hide.as_slice()) {
            let ghost before = entries(self.active_screens@);
            proof {
                lemma_last_blocking(before);
            }
            match stack_last_blocking(&self.active_screens) {
                Some(pos) => {
                    self.active_screens.remove(pos);
                    proof {
                        lemma_remove_at(before, pos as int);
                        assert(entries(self.active_screens@) =~= before.remove(pos as int));
                    }
                },
                None => {},
            }
            self.refresh_block_state();
        } else if starts_with_chars(t, choice.as_slice()) {
            let rest = skip_chars(t, choice.len());
            let num = trim_chars(rest.as_slice());
            match parse_usize_chars(num.as_slice()) {
                Some(index) => {
                    self.close_blocking_screens();
                    self.driver.feed(InputEvent::ChoiceMade { index });
                },
                None => {},
            }
        }
    }

    /// Carries out the button actions collected since the last update, oldest first
    /// (see `apply_action`); the list is emptied first, so a `quit` action leaves only
    /// its quit mark for the next update.
    pub fn process_pending_actions(&mut self)
        requires
            old(self).wf(),
        ensures
            final(self).wf(),
            final(self)@ == apply_actions(
                ScreenState { pending: Seq::empty(), ..old(self)@ },
                old(self)@.pending,
            ),
    {
        let mut actions: Vec<String> = Vec::new();
        std::mem::swap(&mut actions, &mut self.pending_actions);
        let ghost acts = strings(actions@);
        let ghost start = self@;
        assert(self@ == (ScreenState { pending: Seq::empty(), ..old(self)@ })) by {
            assert(strings(self.pending_actions@) =~= Seq::<Seq<char>>::empty());
        }
        assert(acts.skip(0) =~= acts);
        let n = actions.len();
        let mut i: usize = 0;
        while i < n
            invariant
                n == actions@.len(),
                acts == strings(actions@),
                i <= n,
                self.wf(),
                apply_actions(start, acts) == apply_actions(self@, acts.skip(i as int)),
            decreases n - i,
        {
            assert(acts.skip(i as int)[0] == actions@[i as int]@);
            assert(acts.skip(i as int).drop_first() =~= acts.skip(i + 1));
            self.apply_one_action(&actions[i]);
            i = i + 1;
        }
    }

    /// Settles the button actions of this frame: returns `Quit` when a `quit` action of an
    /// earlier frame left its quit mark, after carrying out the pending actions.
    pub fn update_actions(&mut self) -> (t: ScreenTransition)
        requires
            old(self).wf(),
        ensures
            final(self).wf(),
            final(self)@ == apply_actions(
                ScreenState { pending: Seq::empty(), ..old(self)@ },
                old(self)@.pending,
            ),
            (t is Quit) == wants_quit(old(self)@.pending),
    {
        let quit_mark = string_of(chars_of("__quit__").as_slice());
        let mut wants = false;
        let n = self.pending_actions.len();
        let mut i: usize = 0;
        while i < n
            invariant
                n == self.pending_actions@.len(),
                i <= n,
                wants == (exists|k: int| 0 <= k < i && strings(self.pending_actions@)[k] == quit_mark@),
            decreases n - i,
        {
            let ghost p = strings(self.pending_actions@);
            assert(p[i as int] == self.pending_actions@[i as int]@);
            if same_text(self.pending_actions[i].as_str(), quit_mark.as_str()) {
                wants = true;
            }
            assert(wants == (exists|k: int| 0 <= k < i + 1 && p[k] == quit_mark@)) by {
                if !wants {
                    assert forall|k: int| 0 <= k < i + 1 implies p[k] != quit_mark@ by {
                        if k < i {
                            assert(!(0 <= k < i && p[k] == quit_mark@));
                        }
                    }
                }
            }
            i = i + 1;
        }
        proof {
            let p = strings(self.pending_actions@);
            if wants {
                let k = choose|k: int| 0 <= k < n && p[k] == quit_mark@;
                assert(p.contains("__quit__"@));
            }
            if p.contains("__quit__"@) {
                let k = choose|k: int| 0 <= k < p.len() && p[k] == "__quit__"@;
                assert(0 <= k < n && p[k] == quit_mark@);
            }
        }
        self.process_pending_actions();
        if wants {
            ScreenTransition::Quit
        } else {
            ScreenTransition::Stay
        }
    }

    /// Starts a frame: the Lua command buffer is always drained (animations driven by Lua
    /// go on while a screen blocks the script). Returns how many script steps the frame
    /// may run; the steps stop early when the executor reports that it must wait.
    pub fn begin_update(&mut self) -> (budget: usize)
        requires
            old(self).wf(),
        ensures
            final(self).wf(),
            final(self)@ == (ScreenState {
                driver: HandleState { ops: old(self)@.driver.ops.push(Op::DrainCommands), ..old(self)@.driver },
                ..old(self)@
            }),
            budget == step_budget(old(self)@),
    {
        self.driver.drain_commands();
        if !self.blocked_by_screen && !self.script_ended {
            100
        } else {
            0
        }
    }

    /// Records the action of a button clicked while drawing a screen; it is carried out
    /// at the next update.
    pub fn push_action(&mut self, action: String)
        requires
            old(self).wf(),
        ensures
            final(self).wf(),
            final(self)@ == (ScreenState { pending: old(self)@.pending.push(action@), ..old(self)@ }),
    {
        let ghost before = self.pending_actions@;
        self.pending_actions.push(action);
        assert(strings(self.pending_actions@) =~= strings(before).push(action@));
    }

    /// The definitions of the active screens to draw, in stack order; an active screen
    /// whose id was never registered is skipped.
    pub fn screens_to_draw(&self) -> (r: Vec<&Vec<UiStmt>>)
        requires
            self.wf(),
        ensures
            r@.map_values(|d: &Vec<UiStmt>| d@) == defs_to_draw(self@.active, self@.registry),
            r@.map_values(|d: &Vec<UiStmt>| d@) == self@.active.filter(
                |e: ScreenEntry| self@.registry.dom().contains(e.id),
            ).map_values(|e: ScreenEntry| self@.registry[e.id]),
    {
        proof {
            law_draw_list(self@.active, self@.registry);
        }
        let mut r: Vec<&Vec<UiStmt>> = Vec::new();
        let ghost e = entries(self.active_screens@);
        let n = self.active_screens.len();
        let mut i: usize = 0;
        assert(e.take(0) =~= Seq::<ScreenEntry>::empty());
        while i < n
            invariant
                n == e.len(),
                e == entries(self.active_screens@),
                unique_keys(self.screen_registry@),
                i <= n,
                r@.map_values(|d: &Vec<UiStmt>| d@) == defs_to_draw(
                    e.take(i as int),
                    registry_map(self.screen_registry@),
                ),
            decreases n - i,
        {
            assert(e.take(i + 1).drop_last() =~= e.take(i as int));
            assert(e.take(i + 1).last() == e[i as int]);
            let ghost before = r@;
            match registry_get(&self.screen_registry, self.active_screens[i].id.as_str()) {
                Some(def) => {
                    r.push(def);
                    assert(r@.map_values(|d: &Vec<UiStmt>| d@) =~= before.map_values(
                        |d: &Vec<UiStmt>| d@,
                    ).push(def@));
                },
                None => {},
            }
            i = i + 1;
        }
        assert(e.take(n as int) =~= e);
        r
    }

    /// A click on the game area: ignored while a screen blocks the script; otherwise it
    /// finishes the running animations, else shows the typewriter's full text, else
    /// continues the script.
    pub fn handle_click(&mut self, animator_busy: bool, typewriter_active: bool) -> (r: ClickResponse)
        requires
            old(self).wf(),
        ensures
            final(self).wf(),
            old(self)@.blocked ==> r is Ignored && final(self)@ == old(self)@,
            !old(self)@.blocked && animator_busy ==> r is FinishAnimations && final(self)@ == old(self)@,
            !old(self)@.blocked && !animator_busy && typewriter_active ==> r is SkipTypewriter
                && final(self)@ == old(self)@,
            !old(self)@.blocked && !animator_busy && !typewriter_active ==> r is Continued
                && final(self)@ == feed_input(old(self)@, Input::Continue),
    {
        if self.blocked_by_screen {
            ClickResponse::Ignored
        } else if animator_busy {
            ClickResponse::FinishAnimations
        } else if typewriter_active {
            ClickResponse::SkipTypewriter
        } else {
            self.driver.feed(InputEvent::Continue);
            ClickResponse::Continued
        }
    }
}

/// Removing an entry keeps the ids unique.
proof fn lemma_remove_at(s: Seq<ScreenEntry>, i: int)
    requires
        0 <= i < s.len(),
    ensures
        unique_ids(s) ==> unique_ids(s.remove(i)),
{
    let q = s.remove(i);
    if unique_ids(s) {
        assert forall|a: int, b: int| 0 <= a < b < q.len() implies (#[trigger] q[a]).id != (
        #[trigger] q[b]).id by {
            let a2 = if a < i { a } else { a + 1 };
            let b2 = if b < i { b } else { b + 1 };
            assert(q[a] == s[a2]);
            assert(q[b] == s[b2]);
        }
    }
}

/// Pushing an entry whose id is not on the stack keeps the ids unique; the stack then
/// blocks when it did or when the entry is not an overlay.
proof fn lemma_push_entry(s: Seq<ScreenEntry>, e: ScreenEntry)
    requires
        !has_id(s, e.id),
    ensures
        unique_ids(s) ==> unique_ids(s.push(e)),
        any_blocking(s.push(e)) == (any_blocking(s) || !e.overlay),
{
    let q = s.push(e);
    if unique_ids(s) {
        assert forall|a: int, b: int| 0 <= a < b < q.len() implies (#[trigger] q[a]).id != (
        #[trigger] q[b]).id by {
            assert(q[a] == s[a]);
            if b < s.len() {
                assert(q[b] == s[b]);
            }
        }
    }
    if any_blocking(s) {
        let i = choose|i: int| 0 <= i < s.len() && !(#[trigger] s[i]).overlay;
        assert(!q[i].overlay);
    }
    if !e.overlay {
        assert(!q[s.len() as int].overlay);
    }
    if any_blocking(q) {
        let i = choose|i: int| 0 <= i < q.len() && !(#[trigger] q[i]).overlay;
        if i < s.len() {
            assert(q[i] == s[i]);
        }
    }
}

// ── Laws ─────────────────────────────────────────────────────────

proof fn lemma_close_blocking(st: ScreenState)
    requires
        stack_inv(st),
    ensures
        stack_inv(close_blocking(st)),
        !close_blocking(st).blocked,
{
    lemma_keep_overlays(st.active);
}

proof fn lemma_action_keeps_inv(st: ScreenState, action: Seq<char>)
    requires
        stack_inv(st),
    ensures
        stack_inv(apply_action(st, action)),
        apply_action(st, action).registry == st.registry,
{
    let t = trim(action);
    lemma_close_blocking(st);
    if t == "continue"@ {
    } else if t == "quit"@ {
    } else if is_prefix("jump "@, t) {
    } else if is_prefix("show "@, t) {
        let id = trim(t.skip("show "@.len() as int));
        if !has_id(st.active, id) {
            lemma_push_entry(st.active, ScreenEntry { id, overlay: false });
        }
    } else if t == "hide screen"@ {
        lemma_last_blocking(st.active);
        match last_blocking(st.active) {
            Some(i) => lemma_remove_at(st.active, i),
            None => {},
        }
    } else {
    }
}

/// Every sequence of button actions keeps the screen's invariant (the script is blocked
/// exactly when a non-overlay screen is active; no screen is active twice) and leaves the
/// registry unchanged.
pub proof fn law_actions_keep_invariant(st: ScreenState, actions: Seq<Seq<char>>)
    requires
        stack_inv(st),
    ensures
        stack_inv(apply_actions(st, actions)),
        apply_actions(st, actions).registry == st.registry,
    decreases actions.len(),
{
    if actions.len() > 0 {
        lemma_action_keeps_inv(st, actions[0]);
        law_actions_keep_invariant(apply_action(st, actions[0]), actions.drop_first());
    }
}

/// Every screen event keeps the screen's invariant.
pub proof fn law_events_keep_invariant(st: ScreenState, ev: ScreenEventView)
    requires
        stack_inv(st),
    ensures
        stack_inv(apply_event(st, ev).0),
{
    match ev {
        ScreenEventView::ShowScreen(id, overlay) => {
            if !has_id(st.active, id) {
                lemma_push_entry(st.active, ScreenEntry { id, overlay });
            }
        },
        ScreenEventView::HideScreen(id) => {
            lemma_remove_id(st.active, id);
        },
        _ => {},
    }
}

/// Showing a screen that is already active changes nothing.
pub proof fn law_show_is_idempotent(st: ScreenState, id: Seq<char>, overlay: bool)
    requires
        has_id(st.active, id),
    ensures
        apply_event(st, ScreenEventView::ShowScreen(id, overlay)) == (st, false),
{
}

/// Showing a screen that is not active puts it on top of the stack; it blocks the script
/// unless it is an overlay, and an overlay leaves the blocking state as it was.
pub proof fn law_show_pushes(st: ScreenState, id: Seq<char>, overlay: bool)
    requires
        stack_inv(st),
        !has_id(st.active, id),
    ensures
        apply_event(st, ScreenEventView::ShowScreen(id, overlay)).0.active == st.active.push(
            ScreenEntry { id, overlay },
        ),
        apply_event(st, ScreenEventView::ShowScreen(id, overlay)).0.blocked == (st.blocked || !overlay),
        has_id(apply_event(st, ScreenEventView::ShowScreen(id, overlay)).0.active, id),
{
    let a = st.active.push(ScreenEntry { id, overlay });
    assert(a[st.active.len() as int].id == id);
}

/// Hiding a screen removes every active screen with that id, and the script stays blocked
/// only if a non-overlay screen remains.
pub proof fn law_hide_removes(st: ScreenState, id: Seq<char>)
    ensures
        !has_id(apply_event(st, ScreenEventView::HideScreen(id)).0.active, id),
        apply_event(st, ScreenEventView::HideScreen(id)).0.blocked == any_blocking(
            apply_event(st, ScreenEventView::HideScreen(id)).0.active,
        ),
        apply_event(st, ScreenEventView::HideScreen(id)).0.active == st.active.filter(
            |e: ScreenEntry| e.id != id,
        ),
{
    lemma_remove_id(st.active, id);
    law_remove_id_is_filter(st.active, id);
}

/// The end of the script closes the window unless a screen blocks it; then the end is
/// noted and no further script step runs.
pub proof fn law_end_waits_for_blocking_screen(st: ScreenState)
    ensures
        apply_event(st, ScreenEventView::End).1 == !st.blocked,
        st.blocked ==> apply_event(st, ScreenEventView::End).0.ended,
        st.blocked ==> step_budget(apply_event(st, ScreenEventView::End).0) == 0,
{
}

/// While a screen blocks the script, or after the script ended, no script step runs.
pub proof fn law_no_steps_while_blocked_or_ended(st: ScreenState)
    ensures
        (st.blocked || st.ended) ==> step_budget(st) == 0,
        (!st.blocked && !st.ended) ==> step_budget(st) == 100,
{
}

proof fn lemma_first_char_distinct(t: Seq<char>)
    ensures
        is_prefix("jump "@, t) ==> t != "continue"@ && t != "quit"@,
        is_prefix("show "@, t) ==> t != "continue"@ && t != "quit"@ && !is_prefix("jump "@, t),
        is_prefix("choice "@, t) ==> t != "continue"@ && t != "quit"@ && !is_prefix("jump "@, t)
            && !is_prefix("show "@, t) && t != "hide screen"@,
{
    reveal_strlit("jump ");
    reveal_strlit("show ");
    reveal_strlit("choice ");
    reveal_strlit("continue");
    reveal_strlit("quit");
    reveal_strlit("hide screen");
    if t.len() > 0 {
        assert(is_prefix("jump "@, t) ==> t[0] == 'j') by {
            if is_prefix("jump "@, t) {
                assert(t.take(5)[0] == t[0]);
            }
        }
        assert(is_prefix("show "@, t) ==> t[0] == 's') by {
            if is_prefix("show "@, t) {
                assert(t.take(5)[0] == t[0]);
            }
        }
        assert(is_prefix("choice "@, t) ==> t[0] == 'c' && t[1] == 'h') by {
            if is_prefix("choice "@, t) {
                assert(t.take(7)[0] == t[0]);
                assert(t.take(7)[1] == t[1]);
            }
        }
    }
}

/// `continue` closes every blocking screen (the overlays stay, in order) and continues
/// the script.
pub proof fn law_continue_resumes(st: ScreenState, action: Seq<char>)
    requires
        stack_inv(st),
        trim(action) == "continue"@,
    ensures
        apply_action(st, action).active == keep_overlays(st.active),
        apply_action(st, action).active == st.active.filter(|e: ScreenEntry| e.overlay),
        !apply_action(st, action).blocked,
        apply_action(st, action).driver.ops == st.driver.ops.push(Op::Feed(Input::Continue)),
{
    lemma_keep_overlays(st.active);
    law_keep_overlays_is_filter(st.active);
}

/// `jump <label>` closes every blocking screen, clears the ended mark (so the script runs
/// again) and jumps to the trimmed label.
pub proof fn law_jump_resumes(st: ScreenState, action: Seq<char>)
    requires
        stack_inv(st),
        is_prefix("jump "@, trim(action)),
    ensures
        apply_action(st, action).active == keep_overlays(st.active),
        apply_action(st, action).active == st.active.filter(|e: ScreenEntry| e.overlay),
        !apply_action(st, action).blocked,
        !apply_action(st, action).ended,
        step_budget(apply_action(st, action)) == 100,
        apply_action(st, action).driver.ops == st.driver.ops.push(
            Op::Feed(Input::Jump(trim(trim(action).skip(5)))),
        ),
{
    lemma_first_char_distinct(trim(action));
    lemma_keep_overlays(st.active);
    law_keep_overlays_is_filter(st.active);
    reveal_strlit("jump ");
}

/// `choice <n>` with a number closes every blocking screen and picks that choice; with
/// anything else after `choice ` it does nothing.
pub proof fn law_choice_picks(st: ScreenState, action: Seq<char>)
    requires
        stack_inv(st),
        is_prefix("choice "@, trim(action)),
    ensures
        match parse_usize(trim(trim(action).skip(7))) {
            Some(n) => {
                &&& apply_action(st, action).active == keep_overlays(st.active)
                &&& apply_action(st, action).active == st.active.filter(|e: ScreenEntry| e.overlay)
                &&& !apply_action(st, action).blocked
                &&& apply_action(st, action).driver.ops == st.driver.ops.push(
                    Op::Feed(Input::ChoiceMade(n)),
                )
            },
            None => apply_action(st, action) == st,
        },
{
    lemma_first_char_distinct(trim(action));
    lemma_keep_overlays(st.active);
    law_keep_overlays_is_filter(st.active);
    reveal_strlit("choice ");
}

/// `quit` does not quit at once: it leaves a quit mark, and the next update, seeing the
/// mark, returns `Quit`. Nothing else changes.
pub proof fn law_quit_is_deferred(st: ScreenState, action: Seq<char>)
    requires
        trim(action) == "quit"@,
    ensures
        wants_quit(apply_action(st, action).pending),
        apply_action(st, action) == (ScreenState { pending: st.pending.push("__quit__"@), ..st }),
{
    reveal_strlit("quit");
    reveal_strlit("continue");
    let p = st.pending.push("__quit__"@);
    assert(p[st.pending.len() as int] == "__quit__"@);
}

proof fn lemma_only_quit_marks(st: ScreenState, actions: Seq<Seq<char>>)
    requires
        forall|k: int| 0 <= k < st.pending.len() ==> #[trigger] st.pending[k] == "__quit__"@,
    ensures
        forall|k: int|
            0 <= k < apply_actions(st, actions).pending.len() ==> #[trigger] apply_actions(
                st,
                actions,
            ).pending[k] == "__quit__"@,
    decreases actions.len(),
{
    if actions.len() > 0 {
        let next = apply_action(st, actions[0]);
        assert forall|k: int| 0 <= k < next.pending.len() implies #[trigger] next.pending[k]
            == "__quit__"@ by {
            if next.pending.len() != st.pending.len() {
                assert(next.pending == st.pending.push("__quit__"@));
            } else {
                assert(next.pending == st.pending);
            }
        }
        lemma_only_quit_marks(next, actions.drop_first());
    }
}

/// Every pending action is carried out once: after the actions of a frame are processed,
/// the only pending entries are the quit marks that `quit` actions left for the next update.
pub proof fn law_actions_are_consumed(st: ScreenState, actions: Seq<Seq<char>>)
    ensures
        forall|k: int|
            0 <= k < apply_actions(ScreenState { pending: Seq::empty(), ..st }, actions).pending.len()
                ==> #[trigger] apply_actions(
                ScreenState { pending: Seq::empty(), ..st },
                actions,
            ).pending[k] == "__quit__"@,
{
    lemma_only_quit_marks(ScreenState { pending: Seq::empty(), ..st }, actions);
}

proof fn lemma_steps_run(budget: nat, reports: Seq<bool>, taken: nat)
    requires
        taken <= budget,
        reports.len() >= budget,
        forall|j: int| 0 <= j && j + 1 < taken ==> !#[trigger] reports[j],
    ensures
        taken <= steps_run(budget, reports, taken) <= budget,
        forall|j: int| 0 <= j && j + 1 < steps_run(budget, reports, taken) ==> !#[trigger] reports[j],
        steps_run(budget, reports, taken) < budget ==> steps_run(budget, reports, taken) > 0
            && reports[steps_run(budget, reports, taken) - 1],
        taken == 0 && budget > 0 ==> steps_run(budget, reports, taken) >= 1,
    decreases budget - taken,
{
    if step_allowed(budget, taken, taken > 0 && reports[taken - 1]) {
        lemma_steps_run(budget, reports, taken + 1);
    }
}

/// The frame's script loop runs no step when its budget is zero (a screen blocks the script
/// or it has ended); otherwise it runs at least one and at most `budget` steps, and stops
/// right after the first step that reports that the executor must wait.
pub proof fn law_step_loop(budget: nat, reports: Seq<bool>)
    requires
        reports.len() >= budget,
    ensures
        budget == 0 ==> steps_run(budget, reports, 0) == 0,
        budget > 0 ==> 1 <= steps_run(budget, reports, 0) <= budget,
        forall|j: int| 0 <= j && j + 1 < steps_run(budget, reports, 0) ==> !#[trigger] reports[j],
        steps_run(budget, reports, 0) < budget ==> reports[steps_run(budget, reports, 0) - 1],
{
    lemma_steps_run(budget, reports, 0);
}

// ── What the stack operations do ─────────────────────────────────

/// Closing the blocking screens keeps exactly the overlay screens of the stack, in order:
/// the new stack is the old one filtered by "is an overlay". In particular every overlay of
/// the old stack is still there, and nothing else is.
pub proof fn law_keep_overlays_is_filter(s: Seq<ScreenEntry>)
    ensures
        keep_overlays(s) == s.filter(|e: ScreenEntry| e.overlay),
        forall|i: int| 0 <= i < s.len() && s[i].overlay ==> #[trigger] keep_overlays(s).contains(s[i]),
        forall|j: int| 0 <= j < keep_overlays(s).len() ==> (#[trigger] keep_overlays(s)[j]).overlay,
    decreases s.len(),
{
    let pred = |e: ScreenEntry| e.overlay;
    reveal(Seq::filter);
    if s.len() > 0 {
        law_keep_overlays_is_filter(s.drop_last());
    }
    assert(keep_overlays(s) =~= s.filter(pred));
    assert forall|i: int| 0 <= i < s.len() && s[i].overlay implies #[trigger] keep_overlays(s).contains(
        s[i],
    ) by {
        s.lemma_filter_contains(pred, i);
    }
    assert forall|j: int| 0 <= j < keep_overlays(s).len() implies (#[trigger] keep_overlays(s)[j]).overlay by {
        s.lemma_filter_pred(pred, j);
    }
}

/// Hiding a screen id removes exactly the entries with that id: the new stack is the old one
/// filtered by "has another id", so every other entry stays, in order.
pub proof fn law_remove_id_is_filter(s: Seq<ScreenEntry>, id: Seq<char>)
    ensures
        remove_id(s, id) == s.filter(|e: ScreenEntry| e.id != id),
        forall|i: int| 0 <= i < s.len() && s[i].id != id ==> #[trigger] remove_id(s, id).contains(s[i]),
    decreases s.len(),
{
    let pred = |e: ScreenEntry| e.id != id;
    reveal(Seq::filter);
    if s.len() > 0 {
        law_remove_id_is_filter(s.drop_last(), id);
    }
    assert(remove_id(s, id) =~= s.filter(pred));
    assert forall|i: int| 0 <= i < s.len() && s[i].id != id implies #[trigger] remove_id(s, id).contains(
        s[i],
    ) by {
        s.lemma_filter_contains(pred, i);
    }
}

/// `hide screen` removes the topmost blocking screen and nothing else; with no blocking
/// screen the stack is unchanged.
pub proof fn law_remove_last_blocking(s: Seq<ScreenEntry>)
    ensures
        any_blocking(s) ==> exists|i: int|
            0 <= i < s.len() && !s[i].overlay && (forall|k: int| i < k < s.len() ==> (#[trigger] s[k]).overlay)
                && remove_last_blocking(s) == s.remove(i),
        !any_blocking(s) ==> remove_last_blocking(s) == s,
        any_blocking(s) ==> remove_last_blocking(s).len() + 1 == s.len(),
{
    lemma_last_blocking(s);
    match last_blocking(s) {
        Some(i) => {
            assert(!s[i].overlay);
            assert(0 <= i < s.len() && !s[i].overlay && (forall|k: int| i < k < s.len() ==> (#[trigger] s[k]).overlay)
                && remove_last_blocking(s) == s.remove(i));
        },
        None => {},
    }
}

/// The screens drawn are the registered definitions of the active screens whose id is
/// registered, in stack order, blocking or overlay alike: the active stack filtered by
/// "is registered", each entry replaced by its definition.
pub proof fn law_draw_list(active: Seq<ScreenEntry>, registry: Map<Seq<char>, Seq<UiStmt>>)
    ensures
        defs_to_draw(active, registry) == active.filter(
            |e: ScreenEntry| registry.dom().contains(e.id),
        ).map_values(|e: ScreenEntry| registry[e.id]),
    decreases active.len(),
{
    let pred = |e: ScreenEntry| registry.dom().contains(e.id);
    let f = |e: ScreenEntry| registry[e.id];
    reveal(Seq::filter);
    if active.len() > 0 {
        law_draw_list(active.drop_last(), registry);
        let r = active.drop_last().filter(pred);
        if pred(active.last()) {
            assert(r.push(active.last()).map_values(f) =~= r.map_values(f).push(f(active.last())));
        }
    }
    assert(defs_to_draw(active, registry) =~= active.filter(pred).map_values(f));
}

/// Every active screen whose id is registered is drawn, whatever its overlay flag.
pub proof fn law_every_registered_active_screen_is_drawn(
    active: Seq<ScreenEntry>,
    registry: Map<Seq<char>, Seq<UiStmt>>,
    i: int,
)
    requires
        0 <= i < active.len(),
        registry.dom().contains(active[i].id),
    ensures
        defs_to_draw(active, registry).contains(registry[active[i].id]),
{
    law_draw_list(active, registry);
    let pred = |e: ScreenEntry| registry.dom().contains(e.id);
    let f = |e: ScreenEntry| registry[e.id];
    active.lemma_filter_contains(pred, i);
    let fl = active.filter(pred);
    let k = choose|k: int| 0 <= k < fl.len() && fl[k] == active[i];
    assert(fl.map_values(f)[k] == registry[active[i].id]);
}

/// Registering a screen makes its id draw the new definition (replacing an earlier one) and
/// leaves every other registered id as it was; the active stack does not change.
pub proof fn law_register_replaces(st: ScreenState, id: Seq<char>, def: Seq<UiStmt>, other: Seq<char>)
    requires
        other != id,
    ensures
        apply_event(st, ScreenEventView::RegisterScreen(id, def)).0.registry.dom().contains(id),
        apply_event(st, ScreenEventView::RegisterScreen(id, def)).0.registry[id] == def,
        apply_event(st, ScreenEventView::RegisterScreen(id, def)).0.registry.dom().contains(other)
            == st.registry.dom().contains(other),
        st.registry.dom().contains(other) ==> apply_event(
            st,
            ScreenEventView::RegisterScreen(id, def),
        ).0.registry[other] == st.registry[other],
        apply_event(st, ScreenEventView::RegisterScreen(id, def)).0.active == st.active,
{
}

/// `show <id>` adds the trimmed id as a blocking screen on top of the stack, unless a screen
/// with that id is already active, in which case nothing changes.
pub proof fn law_show_action(st: ScreenState, action: Seq<char>)
    requires
        is_prefix("show "@, trim(action)),
    ensures
        ({
            let id = trim(trim(action).skip(5));
            &&& has_id(st.active, id) ==> apply_action(st, action) == st
            &&& !has_id(st.active, id) ==> apply_action(st, action).active == st.active.push(
                ScreenEntry { id, overlay: false },
            ) && apply_action(st, action).blocked
        }),
{
    lemma_first_char_distinct(trim(action));
    reveal_strlit("show ");
}

/// The registry maps each registered id to the definition registered under it, and holds
/// no other id.
pub proof fn law_registry_map(r: Seq<RegisteredScreen>, id: Seq<char>)
    requires
        unique_keys(r),
    ensures
        forall|i: int|
            0 <= i < r.len() && (#[trigger] r[i]).id@ == id ==> registry_map(r).dom().contains(id)
                && registry_map(r)[id] == r[i].def@,
        (forall|i: int| 0 <= i < r.len() ==> (#[trigger] r[i]).id@ != id) ==> !registry_map(
            r,
        ).dom().contains(id),
{
    assert forall|i: int| 0 <= i < r.len() && (#[trigger] r[i]).id@ == id implies registry_map(
        r,
    ).dom().contains(id) && registry_map(r)[id] == r[i].def@ by {
        lemma_registry_lookup(r, i);
    }
    if forall|i: int| 0 <= i < r.len() ==> (#[trigger] r[i]).id@ != id {
        lemma_registry_absent(r, id);
    }
}

} // verus!
