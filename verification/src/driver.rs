use vstd::prelude::*;
use crate::text::{chars_of, decimal, digit_char, push_decimal, string_of};
use crate::typewriter_bridge::TypewriterBridge;

verus! {

/// A user input that drives the script.
#[derive(Debug, PartialEq, Eq)]
pub enum InputEvent {
    /// Advance the script.
    Continue,
    /// Jump to the script label.
    Jump(String),
    /// The player picked the choice with this index.
    ChoiceMade { index: usize },
    /// Save the game in this slot.
    SaveRequest { slot: u32 },
    /// Load the game saved in this slot.
    LoadRequest { slot: u32 },
}

/// An input event as a mathematical value.
pub enum Input {
    Continue,
    Jump(Seq<char>),
    ChoiceMade(usize),
    SaveRequest(u32),
    LoadRequest(u32),
}

impl View for InputEvent {
    type V = Input;

    open spec fn view(&self) -> Input {
        match self {
            InputEvent::Continue => Input::Continue,
            InputEvent::Jump(label) => Input::Jump(label@),
            InputEvent::ChoiceMade { index } => Input::ChoiceMade(*index),
            InputEvent::SaveRequest { slot } => Input::SaveRequest(*slot),
            InputEvent::LoadRequest { slot } => Input::LoadRequest(*slot),
        }
    }
}

/// One piece of work that the executor behind the handle must perform, in order.
#[derive(Debug, PartialEq, Eq)]
pub enum DriverOp {
    /// Load the global (cross-save) script data.
    LoadGlobalData,
    /// Start the script at this label.
    Start(String),
    /// Drain the Lua command buffer without advancing the script.
    DrainCommands,
    /// Advance the script by one step.
    Step,
    /// Copy the script variables into the context.
    SyncVarsToCtx,
    /// Save the context and the executor to this file; a failure is only reported.
    Save(String),
    /// Read the context and executor saved in this file, without installing them; the
    /// outcome goes back to `ExecutorHandle::load_finished`, and a failure is only reported.
    Load(String),
    /// Make the context and executor just read by `Load` the current ones.
    InstallLoaded,
    /// Drop the last entry of the context's dialogue history (none when it is empty).
    PopDialogueHistory,
    /// Copy the context's variables into the script.
    SyncVarsFromCtx,
    /// Hand this input to the executor.
    Feed(InputEvent),
}

/// A driver operation as a mathematical value.
pub enum Op {
    LoadGlobalData,
    Start(Seq<char>),
    DrainCommands,
    Step,
    SyncVarsToCtx,
    Save(Seq<char>),
    Load(Seq<char>),
    InstallLoaded,
    PopDialogueHistory,
    SyncVarsFromCtx,
    Feed(Input),
}

impl View for DriverOp {
    type V = Op;

    open spec fn view(&self) -> Op {
        match self {
            DriverOp::LoadGlobalData => Op::LoadGlobalData,
            DriverOp::Start(label) => Op::Start(label@),
            DriverOp::DrainCommands => Op::DrainCommands,
            DriverOp::Step => Op::Step,
            DriverOp::SyncVarsToCtx => Op::SyncVarsToCtx,
            DriverOp::Save(path) => Op::Save(path@),
            DriverOp::Load(path) => Op::Load(path@),
            DriverOp::InstallLoaded => Op::InstallLoaded,
            DriverOp::PopDialogueHistory => Op::PopDialogueHistory,
            DriverOp::SyncVarsFromCtx => Op::SyncVarsFromCtx,
            DriverOp::Feed(ev) => Op::Feed(ev@),
        }
    }
}

/// The views of a sequence of operations.
pub open spec fn ops_view(ops: Seq<DriverOp>) -> Seq<Op> {
    ops.map_values(|o: DriverOp| o@)
}

/// The save file of a slot: `save<slot>.bin`.
pub open spec fn save_path(slot: u32) -> Seq<char> {
    "save"@ + decimal(slot as nat) + ".bin"@
}

/// What the executor must do for an input: a save request copies the variables,
/// saves to the slot's file and then continues the script; a load request loads the
/// slot's file; any other input goes to the executor unchanged.
pub open spec fn feed_ops(ev: Input) -> Seq<Op> {
    match ev {
        Input::SaveRequest(slot) => seq![
            Op::SyncVarsToCtx,
            Op::Save(save_path(slot)),
            Op::Feed(Input::Continue),
        ],
        Input::LoadRequest(slot) => seq![Op::Load(save_path(slot))],
        _ => seq![Op::Feed(ev)],
    }
}

/// What follows a load: when the saved game was read, it becomes the current one, the last
/// dialogue-history entry is dropped, the variables are copied from the loaded context and
/// the global data is loaded again; when it could not be read, nothing happens (the current
/// game goes on). No input is handed to the executor either way.
pub open spec fn load_ops(ok: bool) -> Seq<Op> {
    if ok {
        seq![Op::InstallLoaded, Op::PopDialogueHistory, Op::SyncVarsFromCtx, Op::LoadGlobalData]
    } else {
        Seq::empty()
    }
}

/// The operations a new handle starts with: load the global data, then start at `init`.
pub open spec fn startup_ops() -> Seq<Op> {
    seq![Op::LoadGlobalData, Op::Start("init"@)]
}

/// The save file name of a slot.
pub fn save_path_of(slot: u32) -> (r: String)
    ensures
        r@ == save_path(slot),
{
    let mut v = chars_of("save");
    push_decimal(&mut v, slot);
    let tail = chars_of(".bin");
    let mut i: usize = 0;
    let ghost head = v@;
    while i < tail.len()
        invariant
            i <= tail@.len(),
            v@ == head + tail@.take(i as int),
        decreases tail@.len() - i,
    {
        v.push(tail[i]);
        assert(head + tail@.take(i + 1) =~= (head + tail@.take(i as int)).push(tail@[i as int]));
        i = i + 1;
    }
    assert(tail@.take(tail@.len() as int) =~= tail@);
    string_of(v.as_slice())
}

/// The driver's handle on the script executor: it keeps the typewriter bridge that the
/// executor's Lua side shares with the renderer, and queues, in order, the work the
/// executor has to perform.
pub struct ExecutorHandle {
    bridge: TypewriterBridge,
    ops: Vec<DriverOp>,
}

/// The handle as mathematical values.
pub struct HandleState {
    pub bridge: crate::typewriter_bridge::TypewriterState,
    pub ops: Seq<Op>,
}

impl View for ExecutorHandle {
    type V = HandleState;

    closed spec fn view(&self) -> HandleState {
        HandleState { bridge: self.bridge@, ops: ops_view(self.ops@) }
    }
}

impl ExecutorHandle {
    /// Creates the handle: the executor loads its global data and starts the script at `init`.
    pub fn new() -> (r: Self)
        ensures
            r@.ops == startup_ops(),
            r@.bridge == crate::typewriter_bridge::initial_typewriter_state(),
    {
        let mut ops: Vec<DriverOp> = Vec::new();
        ops.push(DriverOp::LoadGlobalData);
        ops.push(DriverOp::Start(string_of(chars_of("init").as_slice())));
        let r = ExecutorHandle { bridge: TypewriterBridge::new(), ops };
        assert(r@.ops =~= startup_ops());
        r
    }

    fn queue(&mut self, op: DriverOp)
        ensures
            final(self)@ == (HandleState { ops: old(self)@.ops.push(op@), ..old(self)@ }),
    {
        let ghost before = self.ops@;
        self.ops.push(op);
        assert(ops_view(self.ops@) =~= ops_view(before).push(op@));
    }

    /// The executor's typewriter bridge, the one state that Lua (`lumina.typewriter.*`) and
    /// the renderer share: what is written through the returned reference is what the handle
    /// holds afterwards; the queued work is unchanged.
    pub fn typewriter_bridge(&mut self) -> (r: &mut TypewriterBridge)
        ensures
            r@ == old(self)@.bridge,
            final(self)@ == (HandleState { bridge: final(r)@, ops: old(self)@.ops }),
    {
        &mut self.bridge
    }

    /// Drains the Lua command buffer without advancing the script (needed also while a
    /// screen blocks the script).
    pub fn drain_commands(&mut self)
        ensures
            final(self)@ == (HandleState {
                ops: old(self)@.ops.push(Op::DrainCommands),
                ..old(self)@
            }),
    {
        self.queue(DriverOp::DrainCommands);
    }

    /// Advances the script by one step. Whether the executor must then wait comes back
    /// from performing the queued work.
    pub fn step(&mut self)
        ensures
            final(self)@ == (HandleState { ops: old(self)@.ops.push(Op::Step), ..old(self)@ }),
    {
        self.queue(DriverOp::Step);
    }

    /// Handles a user input: save and load requests are intercepted (a save also
    /// continues the script), every other input goes to the executor.
    pub fn feed(&mut self, ev: InputEvent)
        ensures
            final(self)@ == (HandleState {
                ops: old(self)@.ops + feed_ops(ev@),
                ..old(self)@
            }),
    {
        let ghost e = ev@;
        match ev {
            InputEvent::SaveRequest { slot } => {
                self.queue(DriverOp::SyncVarsToCtx);
                self.queue(DriverOp::Save(save_path_of(slot)));
                self.queue(DriverOp::Feed(InputEvent::Continue));
            },
            InputEvent::LoadRequest { slot } => {
                self.queue(DriverOp::Load(save_path_of(slot)));
            },
            other => {
                self.queue(DriverOp::Feed(other));
            },
        }
        assert(self@.ops =~= old(self)@.ops + feed_ops(e));
    }

    /// Reports the outcome of a queued `Load`: whether the saved game could be read.
    pub fn load_finished(&mut self, ok: bool)
        ensures
            final(self)@ == (HandleState { ops: old(self)@.ops + load_ops(ok), ..old(self)@ }),
    {
        if ok {
            self.queue(DriverOp::InstallLoaded);
            self.queue(DriverOp::PopDialogueHistory);
            self.queue(DriverOp::SyncVarsFromCtx);
            self.queue(DriverOp::LoadGlobalData);
        }
        assert(self@.ops =~= old(self)@.ops + load_ops(ok));
    }

    /// Takes the queued operations, oldest first, and clears the queue.
    pub fn take_ops(&mut self) -> (r: Vec<DriverOp>)
        ensures
            ops_view(r@) == old(self)@.ops,
            final(self)@ == (HandleState { ops: Seq::empty(), ..old(self)@ }),
    {
        let mut out: Vec<DriverOp> = Vec::new();
        std::mem::swap(&mut out, &mut self.ops);
        assert(ops_view(self.ops@) =~= Seq::empty());
        out
    }
}

// ── Laws ─────────────────────────────────────────────────────────

/// A save request copies the variables into the context, saves to the slot's file, and
/// then continues the script.
pub proof fn law_save_then_continue(slot: u32)
    ensures
        feed_ops(Input::SaveRequest(slot)) == seq![
            Op::SyncVarsToCtx,
            Op::Save(save_path(slot)),
            Op::Feed(Input::Continue),
        ],
{
}

/// A load request only loads the slot's file: the script is not continued.
pub proof fn law_load_does_not_continue(slot: u32)
    ensures
        feed_ops(Input::LoadRequest(slot)) == seq![Op::Load(save_path(slot))],
        forall|k: int|
            0 <= k < feed_ops(Input::LoadRequest(slot)).len() ==> !(#[trigger] feed_ops(
                Input::LoadRequest(slot),
            )[k] is Feed),
{
}

/// A load that succeeded installs the saved game, drops the last dialogue entry, copies
/// the variables from the loaded context and reloads the global data, in that order; a load
/// that failed changes nothing. Neither continues the script.
pub proof fn law_load_outcome(ok: bool)
    ensures
        ok ==> load_ops(ok) == seq![
            Op::InstallLoaded,
            Op::PopDialogueHistory,
            Op::SyncVarsFromCtx,
            Op::LoadGlobalData,
        ],
        !ok ==> load_ops(ok) == Seq::<Op>::empty(),
        forall|k: int| 0 <= k < load_ops(ok).len() ==> !(#[trigger] load_ops(ok)[k] is Feed),
{
}

/// Every input other than a save or load request goes to the executor unchanged.
pub proof fn law_other_inputs_forwarded(ev: Input)
    requires
        !(ev is SaveRequest),
        !(ev is LoadRequest),
    ensures
        feed_ops(ev) == seq![Op::Feed(ev)],
{
}

proof fn lemma_decimal_shape(n: nat)
    ensures
        decimal(n).len() >= 1,
        n < 10 ==> decimal(n).len() == 1,
        n >= 10 ==> decimal(n).len() >= 2,
        decimal(n).last() == digit_char(n % 10),
        n >= 10 ==> decimal(n).drop_last() == decimal(n / 10),
    decreases n,
{
    if n >= 10 {
        lemma_decimal_shape(n / 10);
    }
}

proof fn lemma_digit_char_injective(a: nat, b: nat)
    requires
        a < 10,
        b < 10,
        digit_char(a) == digit_char(b),
    ensures
        a == b,
{
    assert(digit_char(a) as u32 == a + 48);
    assert(digit_char(b) as u32 == b + 48);
}

/// Different numbers have different decimal texts.
pub proof fn lemma_decimal_injective(a: nat, b: nat)
    requires
        decimal(a) == decimal(b),
    ensures
        a == b,
    decreases a,
{
    lemma_decimal_shape(a);
    lemma_decimal_shape(b);
    lemma_digit_char_injective(a % 10, b % 10);
    if a >= 10 && b >= 10 {
        lemma_decimal_injective(a / 10, b / 10);
    }
}

/// Saving and loading a slot use the same file, and different slots use different files.
pub proof fn law_one_file_per_slot(a: u32, b: u32)
    ensures
        feed_ops(Input::SaveRequest(a))[1] == Op::Save(save_path(a)),
        feed_ops(Input::LoadRequest(a))[0] == Op::Load(save_path(a)),
        a != b ==> save_path(a) != save_path(b),
{
    if save_path(a) == save_path(b) {
        reveal_strlit("save");
        reveal_strlit(".bin");
        let pa = save_path(a);
        let da = decimal(a as nat);
        let db = decimal(b as nat);
        assert(pa.len() == 8 + da.len());
        assert(da =~= pa.subrange(4, pa.len() - 4));
        assert(db =~= save_path(b).subrange(4, save_path(b).len() - 4));
        lemma_decimal_injective(a as nat, b as nat);
    }
}

} // verus!
