//! One step of live input, from its bytes to its end.
//!
//! A step asks its way: whether the fast path took the bytes, whether the client
//! may write, which surface of the client is open, which mode the pane is in, and
//! at last, item by item, what the scan of the input wants to know. Each answer
//! leads to the next question, with effects on the way, or to the end of the step.
use crate::bracketed_paste;
use crate::bracketed_paste::BracketedPasteDecode;
use crate::bytes;
use crate::keys;
use crate::keys::{AttachedKeyDecode, KeyCode, WindowsConsoleKeyEvent};
use crate::live_input;
use crate::live_input::{
    AttachedLiveInputStep, BoundCommand, ClockNext, RetainedClockInput,
};
use crate::live_scan;
use crate::live_scan::{
    KeyForward, LiveAnswer, LiveContext, LiveCursor, LiveEffect, LiveNext, MouseDecode, PrefixKeys,
    RetainedInput,
};
use vstd::prelude::*;

verus! {

/// What a console adds to a step's bytes.
#[derive(Debug, Clone, Copy, PartialEq, Eq, Structural)]
pub struct StepConsole {
    /// The event that the bytes came from.
    pub key: Option<WindowsConsoleKeyEvent>,
    /// The key that end-of-input is bound as.
    pub control_d: Option<KeyCode>,
}

/// A surface of the client that takes input before the pane does.
#[derive(Debug, Clone, Copy, PartialEq, Eq, Structural)]
pub enum LiveSurface {
    Prompt,
    ModeTree,
    Overlay,
    DisplayPanes,
}

/// The modes of the pane that the scan depends on.
#[derive(Debug, Clone, Copy, PartialEq, Eq, Structural)]
pub struct ScanModes {
    pub copy_mode: bool,
    pub focus_events: bool,
}

/// What a step needs next.
#[derive(Debug, Clone, Copy, PartialEq, Eq, Structural)]
pub enum StepNext {
    /// Whether the fast path took the bytes, and sent some.
    FastPath,
    /// Whether the client is read-only.
    ReadOnly,
    /// Whether the surface is open.
    Open(LiveSurface),
    /// Hand the bytes to the surface, and say what it leaves over.
    Surface(LiveSurface),
    /// Whether the pane is in clock mode.
    ClockMode,
    /// Whether a mouse report begins the input.
    ClockMousePrefix,
    /// What the mouse decoder answers of the input.
    ClockMouse,
    /// What the key decoder answers of the input.
    ClockKey,
    /// How many bytes the prompt decoder takes of the input.
    ClockPromptInput,
    /// Leave clock mode.
    LeaveClock { size: usize },
    /// The modes of the pane.
    PaneModes,
    /// Handle the key, and say whether a binding took it.
    ConsoleKey { key: KeyCode, forward: KeyForward },
    /// What the key decoder answers of a console's bytes.
    ConsoleDecode { modes: ScanModes },
    /// Whether the client has a key table active.
    KeyTable { modes: ScanModes },
    /// What the key decoder answers of the bytes.
    DetachPrefix { modes: ScanModes },
    /// What the key decoder answers of the bytes after the first key.
    DetachCommand { modes: ScanModes, prefix_size: usize, prefix_key: KeyCode },
    /// The prefix keys, and what the prefix table binds the second key to.
    DetachBinding { modes: ScanModes, prefix_key: KeyCode, command_key: KeyCode },
    /// Detach the client.
    Detach,
    /// What the scan of the input asks for.
    Scan { context: LiveContext, cursor: LiveCursor, next: LiveNext },
}

/// What a step is told.
#[derive(Debug, PartialEq, Eq)]
pub enum StepAnswer {
    FastPath(Option<bool>),
    Is(bool),
    Left(Option<Vec<u8>>),
    Mouse(MouseDecode),
    Key(AttachedKeyDecode),
    Consumed(Option<usize>),
    Modes(ScanModes),
    Binding { prefix_keys: PrefixKeys, commands: Option<Vec<BoundCommand>> },
    /// What was to be done is done.
    Done,
    Scan(LiveAnswer),
}

/// Where a step goes.
#[derive(Debug, PartialEq, Eq)]
pub enum StepMove {
    /// On to another question.
    Next(StepNext),
    /// To its end, the input kept for clock mode within the limit of its kind.
    RetainClock(RetainedClockInput),
    /// To its end, the pending input kept within the limit of its kind.
    Retain { kind: RetainedInput, forwarded: bool },
    /// To its end.
    Ended(AttachedLiveInputStep),
}

/// A move as a value.
pub enum MoveModel {
    Next(StepNext),
    RetainClock(RetainedClockInput),
    Retain { kind: RetainedInput, forwarded: bool },
    Complete(bool),
    Reroute { bytes: Seq<u8>, forwarded: bool },
}

impl View for StepMove {
    type V = MoveModel;

    open spec fn view(&self) -> MoveModel {
        match *self {
            StepMove::Next(next) => MoveModel::Next(next),
            StepMove::RetainClock(kind) => MoveModel::RetainClock(kind),
            StepMove::Retain { kind, forwarded } => MoveModel::Retain { kind, forwarded },
            StepMove::Ended(AttachedLiveInputStep::Complete(forwarded)) => MoveModel::Complete(
                forwarded,
            ),
            StepMove::Ended(AttachedLiveInputStep::Reroute { bytes, forwarded }) =>
                MoveModel::Reroute { bytes: bytes@, forwarded },
        }
    }
}

/// One turn of a step.
#[derive(Debug, PartialEq, Eq)]
pub struct StepTurn {
    /// What to do before the move. Ranges are ranges of the pending input as it was
    /// before the turn.
    pub effects: Vec<LiveEffect>,
    pub outcome: StepMove,
}

/// A turn as a value: what is pending after it, the effects and the move.
pub type StepModel = (Seq<u8>, Seq<LiveEffect>, MoveModel);

/// A turn that leaves `pending` and has no effect.
pub open spec fn quiet_step(pending: Seq<u8>, next: MoveModel) -> StepModel {
    (pending, Seq::empty(), next)
}

/// The console event that counts: only where nothing is pending and there are
/// bytes.
pub open spec fn counted_key(
    pending: Seq<u8>,
    bytes: Seq<u8>,
    console: StepConsole,
) -> Option<WindowsConsoleKeyEvent> {
    if pending.len() == 0 && bytes.len() > 0 {
        console.key
    } else {
        None
    }
}

/// What a step asks first: bytes of a console event are too precise for the fast
/// path.
pub open spec fn first_question(
    pending: Seq<u8>,
    bytes: Seq<u8>,
    console: StepConsole,
) -> StepNext {
    if counted_key(pending, bytes, console) is None {
        StepNext::FastPath
    } else {
        StepNext::ReadOnly
    }
}

/// What is asked after `surface` is not open.
pub open spec fn after_surface(surface: LiveSurface) -> StepNext {
    match surface {
        LiveSurface::Prompt => StepNext::Open(LiveSurface::ModeTree),
        LiveSurface::ModeTree => StepNext::Open(LiveSurface::Overlay),
        LiveSurface::Overlay => StepNext::Open(LiveSurface::DisplayPanes),
        LiveSurface::DisplayPanes => StepNext::ClockMode,
    }
}

/// The end of a step that leaves `left` over.
pub open spec fn ends_with(left: Option<Vec<u8>>) -> MoveModel {
    match left {
        Some(bytes) => MoveModel::Reroute { bytes: bytes@, forwarded: false },
        None => MoveModel::Complete(false),
    }
}

/// The move of clock mode.
pub open spec fn clock_move(next: ClockNext) -> MoveModel {
    match next {
        ClockNext::LeaveAndReroute => MoveModel::Next(StepNext::LeaveClock { size: 0 }),
        ClockNext::Retain(kind) => MoveModel::RetainClock(kind),
        ClockNext::MousePrefix => MoveModel::Next(StepNext::ClockMousePrefix),
        ClockNext::Key => MoveModel::Next(StepNext::ClockKey),
        ClockNext::PromptInput => MoveModel::Next(StepNext::ClockPromptInput),
        ClockNext::Consume { size } => MoveModel::Next(StepNext::LeaveClock { size }),
    }
}

/// What clock mode does with all its input: a paste leaves it whole.
pub open spec fn clock_paste(input: Seq<u8>, new_input_at: int) -> ClockNext {
    match bracketed_paste::paste_decode(input, new_input_at) {
        BracketedPasteDecode::Matched { .. } => ClockNext::LeaveAndReroute,
        BracketedPasteDecode::Partial => ClockNext::Retain(RetainedClockInput::BracketedPaste),
        BracketedPasteDecode::NotPaste => ClockNext::MousePrefix,
    }
}

/// What clock mode does with a mouse report.
pub open spec fn clock_mouse(decoded: MouseDecode) -> ClockNext {
    match decoded {
        MouseDecode::Matched { size } | MouseDecode::Discard { size } => if size > 0 {
            ClockNext::Consume { size }
        } else {
            ClockNext::Key
        },
        MouseDecode::Partial | MouseDecode::Overlong => ClockNext::Retain(
            RetainedClockInput::Mouse,
        ),
        MouseDecode::Invalid => ClockNext::Key,
    }
}

/// What clock mode does with a key.
pub open spec fn clock_key(decoded: AttachedKeyDecode) -> ClockNext {
    match decoded {
        AttachedKeyDecode::Matched { size, .. } => ClockNext::Consume { size },
        AttachedKeyDecode::Partial => ClockNext::Retain(RetainedClockInput::Key),
        AttachedKeyDecode::Invalid => ClockNext::PromptInput,
    }
}

/// The question with which the scan begins.
pub open spec fn scan_question(
    pending: Seq<u8>,
    bytes: Seq<u8>,
    console: StepConsole,
    modes: ScanModes,
) -> StepNext {
    StepNext::Scan {
        context: LiveContext {
            copy_mode: modes.copy_mode,
            focus_events: modes.focus_events,
            new_input_at: pending.len() as usize,
            step_len: bytes.len() as usize,
            console_key: counted_key(pending, bytes, console),
            control_d: console.control_d,
        },
        cursor: LiveCursor { raw_start: 0, offset: 0, forwarded: false, prefix_keys: None },
        next: LiveNext::Item,
    }
}

/// The turn with which the scan begins: the bytes join what is pending.
pub open spec fn scan_begins(
    pending: Seq<u8>,
    bytes: Seq<u8>,
    console: StepConsole,
    modes: ScanModes,
) -> StepModel {
    quiet_step(
        pending + bytes,
        MoveModel::Next(scan_question(pending, bytes, console, modes)),
    )
}

/// The turn once the pane's modes are known: the end-of-input byte of a console
/// is a key of its own.
pub open spec fn modes_step(
    pending: Seq<u8>,
    bytes: Seq<u8>,
    console: StepConsole,
    modes: ScanModes,
) -> StepModel {
    if pending.len() == 0 && bytes == seq![0x04u8] && console.control_d is Some {
        quiet_step(
            pending,
            MoveModel::Next(
                StepNext::ConsoleKey {
                    key: console.control_d->0,
                    forward: KeyForward::ConsoleControlD,
                },
            ),
        )
    } else if counted_key(pending, bytes, console) is Some {
        quiet_step(pending, MoveModel::Next(StepNext::ConsoleDecode { modes }))
    } else {
        quiet_step(pending, MoveModel::Next(StepNext::KeyTable { modes }))
    }
}

/// The turn on the key of a console's bytes: Control with a printable character
/// is bound as such, where the bytes are that one key.
pub open spec fn console_step(
    pending: Seq<u8>,
    bytes: Seq<u8>,
    console: StepConsole,
    modes: ScanModes,
    decoded: AttachedKeyDecode,
) -> StepModel {
    let bound = match (counted_key(pending, bytes, console), decoded) {
        (Some(event), AttachedKeyDecode::Matched { size, key }) => if size == bytes.len() {
            keys::console_control_key(key, event)
        } else {
            None
        },
        _ => None,
    };
    match bound {
        Some(key) => quiet_step(
            pending,
            MoveModel::Next(
                StepNext::ConsoleKey {
                    key,
                    forward: KeyForward::Console(counted_key(pending, bytes, console)->0),
                },
            ),
        ),
        None => quiet_step(pending, MoveModel::Next(StepNext::KeyTable { modes })),
    }
}

/// The key that takes up all of `bytes` after the first `prefix_size`.
pub open spec fn trailing_key(
    bytes: Seq<u8>,
    prefix_size: usize,
    decoded: AttachedKeyDecode,
) -> Option<KeyCode> {
    match keys::live_key_decode(bytes.skip(prefix_size as int), decoded) {
        AttachedKeyDecode::Matched { size, key } => if prefix_size + size == bytes.len() {
            Some(key)
        } else {
            None
        },
        _ => None,
    }
}

/// What a step whose scan came to `next` leaves: `left` is pending, and the move
/// is its end.
pub open spec fn scan_outcome(
    input: Seq<u8>,
    context: LiveContext,
    cursor: LiveCursor,
    next: LiveNext,
) -> (Seq<u8>, MoveModel) {
    match next {
        LiveNext::Retain(kind) => (
            input.skip(cursor.offset as int),
            MoveModel::Retain { kind, forwarded: cursor.forwarded },
        ),
        LiveNext::Reroute { from } => (
            Seq::empty(),
            MoveModel::Reroute { bytes: input.skip(from as int), forwarded: cursor.forwarded },
        ),
        LiveNext::Complete => (Seq::empty(), MoveModel::Complete(cursor.forwarded)),
        _ => (input, MoveModel::Next(StepNext::Scan { context, cursor, next })),
    }
}

/// The turn of a scan.
pub open spec fn scan_step(
    input: Seq<u8>,
    context: LiveContext,
    cursor: LiveCursor,
    next: LiveNext,
    answer: LiveAnswer,
) -> StepModel {
    let turn = live_scan::scan_turn(input, context, cursor, next, answer);
    let outcome = scan_outcome(input, context, turn.0, turn.2);
    (outcome.0, turn.1, outcome.1)
}

/// The turn of a step that asked for `next` and is told `answer`.
pub open spec fn step_turn(
    pending: Seq<u8>,
    bytes: Seq<u8>,
    console: StepConsole,
    next: StepNext,
    answer: StepAnswer,
) -> StepModel {
    match (next, answer) {
        (StepNext::FastPath, StepAnswer::FastPath(Some(forwarded))) => quiet_step(
            pending,
            MoveModel::Complete(forwarded),
        ),
        (StepNext::FastPath, StepAnswer::FastPath(None)) => quiet_step(
            pending,
            MoveModel::Next(StepNext::ReadOnly),
        ),
        (StepNext::ReadOnly, StepAnswer::Is(true)) => quiet_step(
            Seq::empty(),
            MoveModel::Complete(false),
        ),
        (StepNext::ReadOnly, StepAnswer::Is(false)) => (
            pending,
            seq![LiveEffect::ClearFocusAlerts],
            MoveModel::Next(StepNext::Open(LiveSurface::Prompt)),
        ),
        (StepNext::Open(surface), StepAnswer::Is(true)) => quiet_step(
            pending,
            MoveModel::Next(StepNext::Surface(surface)),
        ),
        (StepNext::Open(surface), StepAnswer::Is(false)) => (
            pending,
            if surface == LiveSurface::DisplayPanes {
                seq![LiveEffect::TellActiveClient]
            } else {
                Seq::empty()
            },
            MoveModel::Next(after_surface(surface)),
        ),
        (StepNext::Surface(_), StepAnswer::Left(left)) => quiet_step(pending, ends_with(left)),
        (StepNext::ClockMode, StepAnswer::Is(true)) => quiet_step(
            pending + bytes,
            clock_move(clock_paste(pending + bytes, pending.len() as int)),
        ),
        (StepNext::ClockMode, StepAnswer::Is(false)) => quiet_step(
            pending,
            MoveModel::Next(StepNext::PaneModes),
        ),
        (StepNext::ClockMousePrefix, StepAnswer::Is(begins)) => quiet_step(
            pending,
            MoveModel::Next(
                if begins {
                    StepNext::ClockMouse
                } else {
                    StepNext::ClockKey
                },
            ),
        ),
        (StepNext::ClockMouse, StepAnswer::Mouse(decoded)) => quiet_step(
            pending,
            clock_move(clock_mouse(decoded)),
        ),
        (StepNext::ClockKey, StepAnswer::Key(decoded)) => quiet_step(
            pending,
            clock_move(clock_key(decoded)),
        ),
        (StepNext::ClockPromptInput, StepAnswer::Consumed(consumed)) => quiet_step(
            pending,
            match consumed {
                Some(size) => MoveModel::Next(StepNext::LeaveClock { size }),
                None => MoveModel::RetainClock(RetainedClockInput::Key),
            },
        ),
        (StepNext::LeaveClock { size }, StepAnswer::Done) => quiet_step(
            Seq::empty(),
            if size < pending.len() {
                MoveModel::Reroute { bytes: pending.skip(size as int), forwarded: false }
            } else {
                MoveModel::Complete(false)
            },
        ),
        (StepNext::PaneModes, StepAnswer::Modes(modes)) => modes_step(
            pending,
            bytes,
            console,
            modes,
        ),
        (StepNext::ConsoleKey { .. }, StepAnswer::Is(handled)) => quiet_step(
            pending,
            MoveModel::Complete(!handled),
        ),
        (StepNext::ConsoleDecode { modes }, StepAnswer::Key(decoded)) => console_step(
            pending,
            bytes,
            console,
            modes,
            decoded,
        ),
        (StepNext::KeyTable { modes }, StepAnswer::Is(active)) => if pending.len() == 0
            && !active {
            quiet_step(pending, MoveModel::Next(StepNext::DetachPrefix { modes }))
        } else {
            scan_begins(pending, bytes, console, modes)
        },
        (StepNext::DetachPrefix { modes }, StepAnswer::Key(decoded)) =>
            match live_input::leading_key(bytes, decoded) {
                Some((prefix_size, prefix_key)) => quiet_step(
                    pending,
                    MoveModel::Next(StepNext::DetachCommand { modes, prefix_size, prefix_key }),
                ),
                None => scan_begins(pending, bytes, console, modes),
            },
        (
            StepNext::DetachCommand { modes, prefix_size, prefix_key },
            StepAnswer::Key(decoded),
        ) => match trailing_key(bytes, prefix_size, decoded) {
            Some(command_key) => quiet_step(
                pending,
                MoveModel::Next(StepNext::DetachBinding { modes, prefix_key, command_key }),
            ),
            None => scan_begins(pending, bytes, console, modes),
        },
        (
            StepNext::DetachBinding { modes, prefix_key, command_key: _ },
            StepAnswer::Binding { prefix_keys, commands },
        ) => if keys::is_prefix_key(prefix_key, prefix_keys.prefix, prefix_keys.prefix2) && (
        commands matches Some(commands) && live_input::is_bare_detach(commands@)) {
            quiet_step(pending, MoveModel::Next(StepNext::Detach))
        } else {
            scan_begins(pending, bytes, console, modes)
        },
        (StepNext::Detach, StepAnswer::Done) => quiet_step(pending, MoveModel::Complete(false)),
        (StepNext::Scan { context, cursor, next }, StepAnswer::Scan(told)) => scan_step(
            pending,
            context,
            cursor,
            next,
            told,
        ),
        _ => quiet_step(pending, MoveModel::Next(next)),
    }
}

/// The step stands where it can ask for `next`.
pub open spec fn step_stands(pending: Seq<u8>, bytes: Seq<u8>, next: StepNext) -> bool {
    match next {
        StepNext::LeaveClock { size } => size <= pending.len(),
        StepNext::DetachCommand { prefix_size, .. } => prefix_size < bytes.len(),
        StepNext::Scan { cursor, next, .. } => live_scan::scan_stands(
            pending.len() as int,
            cursor,
            next,
        ) && !live_scan::scan_is_over(next),
        _ => true,
    }
}

/// `answer` is of the kind that was asked for, and what was decoded lies within
/// the input.
pub open spec fn step_answers(pending: Seq<u8>, next: StepNext, answer: StepAnswer) -> bool {
    match (next, answer) {
        (StepNext::FastPath, StepAnswer::FastPath(_)) => true,
        (StepNext::ReadOnly, StepAnswer::Is(_)) => true,
        (StepNext::Open(_), StepAnswer::Is(_)) => true,
        (StepNext::Surface(_), StepAnswer::Left(_)) => true,
        (StepNext::ClockMode, StepAnswer::Is(_)) => true,
        (StepNext::ClockMousePrefix, StepAnswer::Is(_)) => true,
        (StepNext::ClockMouse, StepAnswer::Mouse(MouseDecode::Matched { size })) => size
            <= pending.len(),
        (StepNext::ClockMouse, StepAnswer::Mouse(MouseDecode::Discard { size })) => size
            <= pending.len(),
        (StepNext::ClockMouse, StepAnswer::Mouse(_)) => true,
        (StepNext::ClockKey, StepAnswer::Key(AttachedKeyDecode::Matched { size, .. })) => size
            <= pending.len(),
        (StepNext::ClockKey, StepAnswer::Key(_)) => true,
        (StepNext::ClockPromptInput, StepAnswer::Consumed(Some(size))) => size <= pending.len(),
        (StepNext::ClockPromptInput, StepAnswer::Consumed(None)) => true,
        (StepNext::LeaveClock { .. }, StepAnswer::Done) => true,
        (StepNext::PaneModes, StepAnswer::Modes(_)) => true,
        (StepNext::ConsoleKey { .. }, StepAnswer::Is(_)) => true,
        (StepNext::ConsoleDecode { .. }, StepAnswer::Key(_)) => true,
        (StepNext::KeyTable { .. }, StepAnswer::Is(_)) => true,
        (StepNext::DetachPrefix { .. }, StepAnswer::Key(_)) => true,
        (StepNext::DetachCommand { .. }, StepAnswer::Key(_)) => true,
        (StepNext::DetachBinding { .. }, StepAnswer::Binding { .. }) => true,
        (StepNext::Detach, StepAnswer::Done) => true,
        (StepNext::Scan { cursor, next, .. }, StepAnswer::Scan(told)) => live_scan::answers(
            pending.len() as int,
            cursor,
            next,
            told,
        ),
        _ => false,
    }
}

/// What a step asks first.
pub fn begin_live_step(pending_input: &[u8], bytes: &[u8], console: StepConsole) -> (next: StepNext)
    ensures
        next == first_question(pending_input@, bytes@, console),
        step_stands(pending_input@, bytes@, next),
{
    match live_input::step_console_key(console.key, pending_input, bytes) {
        None => StepNext::FastPath,
        Some(_) => StepNext::ReadOnly,
    }
}

fn quiet(outcome: StepMove) -> (turn: StepTurn)
    ensures
        turn.effects@ == Seq::<LiveEffect>::empty(),
        turn.outcome == outcome,
{
    StepTurn { effects: Vec::new(), outcome }
}

fn ask(next: StepNext) -> (turn: StepTurn)
    ensures
        turn.effects@ == Seq::<LiveEffect>::empty(),
        turn.outcome@ == MoveModel::Next(next),
{
    quiet(StepMove::Next(next))
}

fn ask_after(effect: LiveEffect, next: StepNext) -> (turn: StepTurn)
    ensures
        turn.effects@ == seq![effect],
        turn.outcome@ == MoveModel::Next(next),
{
    let mut effects: Vec<LiveEffect> = Vec::new();
    effects.push(effect);
    StepTurn { effects, outcome: StepMove::Next(next) }
}

fn complete(forwarded: bool) -> (turn: StepTurn)
    ensures
        turn.effects@ == Seq::<LiveEffect>::empty(),
        turn.outcome@ == MoveModel::Complete(forwarded),
{
    quiet(StepMove::Ended(AttachedLiveInputStep::Complete(forwarded)))
}

fn in_clock_mode(next: ClockNext) -> (turn: StepTurn)
    ensures
        turn.effects@ == Seq::<LiveEffect>::empty(),
        turn.outcome@ == clock_move(next),
{
    match next {
        ClockNext::LeaveAndReroute => ask(StepNext::LeaveClock { size: 0 }),
        ClockNext::Retain(kind) => quiet(StepMove::RetainClock(kind)),
        ClockNext::MousePrefix => ask(StepNext::ClockMousePrefix),
        ClockNext::Key => ask(StepNext::ClockKey),
        ClockNext::PromptInput => ask(StepNext::ClockPromptInput),
        ClockNext::Consume { size } => ask(StepNext::LeaveClock { size }),
    }
}

fn begin_scan(
    pending_input: &mut Vec<u8>,
    bytes: &[u8],
    console: StepConsole,
    modes: ScanModes,
) -> (turn: StepTurn)
    ensures
        (final(pending_input)@, turn.effects@, turn.outcome@) == scan_begins(
            old(pending_input)@,
            bytes@,
            console,
            modes,
        ),
        turn.outcome matches StepMove::Next(next) && step_stands(
            final(pending_input)@,
            bytes@,
            next,
        ),
{
    let console_key = live_input::step_console_key(console.key, pending_input.as_slice(), bytes);
    let (context, cursor) = live_input::begin_live_scan(
        pending_input,
        bytes,
        modes.copy_mode,
        modes.focus_events,
        console_key,
        console.control_d,
    );
    ask(StepNext::Scan { context, cursor, next: LiveNext::Item })
}

fn end_or_go_on(
    pending_input: &mut Vec<u8>,
    context: LiveContext,
    cursor: LiveCursor,
    next: LiveNext,
) -> (outcome: StepMove)
    requires
        live_scan::scan_stands(old(pending_input)@.len() as int, cursor, next),
    ensures
        (final(pending_input)@, outcome@) == scan_outcome(
            old(pending_input)@,
            context,
            cursor,
            next,
        ),
{
    match next {
        LiveNext::Retain(kind) => {
            live_input::drop_consumed_input(pending_input, cursor.offset);
            StepMove::Retain { kind, forwarded: cursor.forwarded }
        },
        LiveNext::Reroute { from } => {
            match live_input::take_attached_remaining_input(pending_input, from) {
                Some(bytes) => StepMove::Ended(
                    AttachedLiveInputStep::Reroute { bytes, forwarded: cursor.forwarded },
                ),
                None => StepMove::Ended(AttachedLiveInputStep::Complete(cursor.forwarded)),
            }
        },
        LiveNext::Complete => {
            pending_input.clear();
            StepMove::Ended(AttachedLiveInputStep::Complete(cursor.forwarded))
        },
        _ => StepMove::Next(StepNext::Scan { context, cursor, next }),
    }
}

fn scan_on(
    pending_input: &mut Vec<u8>,
    context: LiveContext,
    cursor: LiveCursor,
    next: LiveNext,
    told: LiveAnswer,
) -> (turn: StepTurn)
    requires
        live_scan::scan_stands(old(pending_input)@.len() as int, cursor, next),
        live_scan::answers(old(pending_input)@.len() as int, cursor, next, told),
    ensures
        (final(pending_input)@, turn.effects@, turn.outcome@) == scan_step(
            old(pending_input)@,
            context,
            cursor,
            next,
            told,
        ),
        turn.outcome matches StepMove::Next(StepNext::Scan { cursor, next, .. })
            ==> live_scan::scan_stands(final(pending_input)@.len() as int, cursor, next)
            && !live_scan::scan_is_over(next),
{
    let turn = live_scan::scan_next(pending_input.as_slice(), &context, cursor, next, told);
    let outcome = end_or_go_on(pending_input, context, turn.cursor, turn.next);
    StepTurn { effects: turn.effects, outcome }
}

/// Takes a step of live input one turn further: it asked for `next` and is told
/// `answer`.
pub fn handle_attached_live_input_step(
    pending_input: &mut Vec<u8>,
    bytes: &[u8],
    console: StepConsole,
    next: StepNext,
    answer: StepAnswer,
) -> (turn: StepTurn)
    requires
        step_stands(old(pending_input)@, bytes@, next),
        step_answers(old(pending_input)@, next, answer),
    ensures
        (final(pending_input)@, turn.effects@, turn.outcome@) == step_turn(
            old(pending_input)@,
            bytes@,
            console,
            next,
            answer,
        ),
        turn.outcome matches StepMove::Next(next) ==> step_stands(
            final(pending_input)@,
            bytes@,
            next,
        ),
{
    match (next, answer) {
        (StepNext::FastPath, StepAnswer::FastPath(taken)) => match taken {
            Some(forwarded) => complete(forwarded),
            None => ask(StepNext::ReadOnly),
        },
        (StepNext::ReadOnly, StepAnswer::Is(read_only)) => {
            if read_only {
                pending_input.clear();
                complete(false)
            } else {
                ask_after(LiveEffect::ClearFocusAlerts, StepNext::Open(LiveSurface::Prompt))
            }
        },
        (StepNext::Open(surface), StepAnswer::Is(open)) => {
            if open {
                ask(StepNext::Surface(surface))
            } else {
                match surface {
                    LiveSurface::Prompt => ask(StepNext::Open(LiveSurface::ModeTree)),
                    LiveSurface::ModeTree => ask(StepNext::Open(LiveSurface::Overlay)),
                    LiveSurface::Overlay => ask(StepNext::Open(LiveSurface::DisplayPanes)),
                    LiveSurface::DisplayPanes => ask_after(
                        LiveEffect::TellActiveClient,
                        StepNext::ClockMode,
                    ),
                }
            }
        },
        (StepNext::Surface(_), StepAnswer::Left(left)) => quiet(
            StepMove::Ended(live_input::attached_mode_input_step(left)),
        ),
        (StepNext::ClockMode, StepAnswer::Is(clock)) => {
            if clock {
                let new_input_at: usize = pending_input.len();
                bytes::push_all(pending_input, bytes);
                in_clock_mode(live_input::clock_mode_paste(pending_input.as_slice(), new_input_at))
            } else {
                ask(StepNext::PaneModes)
            }
        },
        (StepNext::ClockMousePrefix, StepAnswer::Is(begins)) => {
            if begins {
                ask(StepNext::ClockMouse)
            } else {
                in_clock_mode(live_input::clock_mode_mouse(None))
            }
        },
        (StepNext::ClockMouse, StepAnswer::Mouse(decoded)) => in_clock_mode(
            live_input::clock_mode_mouse(Some(decoded)),
        ),
        (StepNext::ClockKey, StepAnswer::Key(decoded)) => in_clock_mode(
            live_input::clock_mode_key(decoded),
        ),
        (StepNext::ClockPromptInput, StepAnswer::Consumed(consumed)) => in_clock_mode(
            live_input::clock_mode_prompt_input(consumed),
        ),
        (StepNext::LeaveClock { size }, StepAnswer::Done) => quiet(
            StepMove::Ended(live_input::leave_clock_mode(pending_input, size)),
        ),
        (StepNext::PaneModes, StepAnswer::Modes(modes)) => {
            match live_input::console_control_d_key(
                pending_input.as_slice(),
                bytes,
                console.control_d,
            ) {
                Some(key) => ask(
                    StepNext::ConsoleKey { key, forward: KeyForward::ConsoleControlD },
                ),
                None => {
                    match live_input::step_console_key(
                        console.key,
                        pending_input.as_slice(),
                        bytes,
                    ) {
                        Some(_) => ask(StepNext::ConsoleDecode { modes }),
                        None => ask(StepNext::KeyTable { modes }),
                    }
                },
            }
        },
        (StepNext::ConsoleKey { .. }, StepAnswer::Is(handled)) => complete(!handled),
        (StepNext::ConsoleDecode { modes }, StepAnswer::Key(decoded)) => {
            let event = live_input::step_console_key(
                console.key,
                pending_input.as_slice(),
                bytes,
            );
            let bound = live_input::console_override_key(
                pending_input.as_slice(),
                bytes,
                event,
                decoded,
            );
            match (bound, event) {
                (Some(key), Some(event)) => ask(
                    StepNext::ConsoleKey { key, forward: KeyForward::Console(event) },
                ),
                _ => ask(StepNext::KeyTable { modes }),
            }
        },
        (StepNext::KeyTable { modes }, StepAnswer::Is(active)) => {
            if live_input::tries_immediate_detach(pending_input.as_slice(), active) {
                ask(StepNext::DetachPrefix { modes })
            } else {
                begin_scan(pending_input, bytes, console, modes)
            }
        },
        (StepNext::DetachPrefix { modes }, StepAnswer::Key(decoded)) => {
            match live_input::immediate_prefix(bytes, decoded) {
                Some((prefix_size, prefix_key)) => ask(
                    StepNext::DetachCommand { modes, prefix_size, prefix_key },
                ),
                None => begin_scan(pending_input, bytes, console, modes),
            }
        },
        (
            StepNext::DetachCommand { modes, prefix_size, prefix_key },
            StepAnswer::Key(decoded),
        ) => {
            match live_input::immediate_command(bytes, prefix_size, decoded) {
                Some(command_key) => ask(
                    StepNext::DetachBinding { modes, prefix_key, command_key },
                ),
                None => begin_scan(pending_input, bytes, console, modes),
            }
        },
        (
            StepNext::DetachBinding { modes, prefix_key, command_key: _ },
            StepAnswer::Binding { prefix_keys, commands },
        ) => {
            if live_input::is_immediate_detach(prefix_key, prefix_keys, commands.as_ref()) {
                ask(StepNext::Detach)
            } else {
                begin_scan(pending_input, bytes, console, modes)
            }
        },
        (StepNext::Scan { context, cursor, next }, StepAnswer::Scan(told)) => scan_on(
            pending_input,
            context,
            cursor,
            next,
            told,
        ),
        _ => complete(false),
    }
}

/// A read-only client's input goes nowhere, and nothing of it stays pending.
pub proof fn read_only_input_goes_nowhere(pending: Seq<u8>, bytes: Seq<u8>, console: StepConsole)
    ensures
        step_turn(pending, bytes, console, StepNext::ReadOnly, StepAnswer::Is(true)) == quiet_step(
            Seq::empty(),
            MoveModel::Complete(false),
        ),
{
}

/// Nothing is sent to the pane before the scan.
pub proof fn only_the_scan_sends(
    pending: Seq<u8>,
    bytes: Seq<u8>,
    console: StepConsole,
    next: StepNext,
    answer: StepAnswer,
)
    requires
        next !is Scan,
    ensures
        !live_scan::writes_something(step_turn(pending, bytes, console, next, answer).1),
{
}

/// Input of a client that may write clears the alerts of the window that it looks at,
/// before any surface takes the input, and at no other turn before the scan.
pub proof fn alerts_are_cleared_before_any_surface(
    pending: Seq<u8>,
    bytes: Seq<u8>,
    console: StepConsole,
    next: StepNext,
    answer: StepAnswer,
)
    requires
        next !is Scan,
    ensures
        ({
            let turn = step_turn(pending, bytes, console, next, answer);
            &&& turn.1.contains(LiveEffect::ClearFocusAlerts) <==> next is ReadOnly && answer
                == StepAnswer::Is(false)
            &&& turn.1.contains(LiveEffect::ClearFocusAlerts) ==> turn.2 == MoveModel::Next(
                StepNext::Open(LiveSurface::Prompt),
            )
            &&& next !is Open && turn.2 == MoveModel::Next(StepNext::Open(LiveSurface::Prompt))
                ==> turn.1.contains(LiveEffect::ClearFocusAlerts)
        }),
{
    let turn = step_turn(pending, bytes, console, next, answer);
    if next is ReadOnly && answer == StepAnswer::Is(false) {
        assert(turn.1[0] == LiveEffect::ClearFocusAlerts);
    }
}

/// A client is told of as active once no surface takes its input, before the mode of
/// the pane is asked for, and at no other turn before the scan.
pub proof fn the_client_is_active_once_input_is_for_the_pane(
    pending: Seq<u8>,
    bytes: Seq<u8>,
    console: StepConsole,
    next: StepNext,
    answer: StepAnswer,
)
    requires
        next !is Scan,
    ensures
        ({
            let turn = step_turn(pending, bytes, console, next, answer);
            &&& turn.1.contains(LiveEffect::TellActiveClient) <==> next == StepNext::Open(
                LiveSurface::DisplayPanes,
            ) && answer == StepAnswer::Is(false)
            &&& next !is ClockMode && turn.2 == MoveModel::Next(StepNext::ClockMode)
                ==> turn.1.contains(LiveEffect::TellActiveClient)
        }),
{
    let turn = step_turn(pending, bytes, console, next, answer);
    if next == StepNext::Open(LiveSurface::DisplayPanes) && answer == StepAnswer::Is(false) {
        assert(turn.1[0] == LiveEffect::TellActiveClient);
    }
}

/// What a scan leaves, pending or to be routed anew, is its input from where it
/// was done with it.
pub proof fn a_scan_leaves_what_it_was_not_done_with(
    input: Seq<u8>,
    context: LiveContext,
    cursor: LiveCursor,
    next: LiveNext,
)
    requires
        live_scan::scan_stands(input.len() as int, cursor, next),
        live_scan::scan_is_over(next),
    ensures
        ({
            let (left, end) = scan_outcome(input, context, cursor, next);
            let rerouted = match end {
                MoveModel::Reroute { bytes, .. } => bytes,
                _ => Seq::empty(),
            };
            left + rerouted == input.skip(
                live_scan::done_with(input.len() as int, cursor, next),
            )
        }),
{
    let (left, end) = scan_outcome(input, context, cursor, next);
    let rerouted = match end {
        MoveModel::Reroute { bytes, .. } => bytes,
        _ => Seq::empty(),
    };
    assert(left + rerouted =~= input.skip(
        live_scan::done_with(input.len() as int, cursor, next),
    ));
}

/// A step asks in this order: the fast path, unless its bytes are one console event,
/// then whether the client may only look, then for a prompt, a tree, an overlay and a
/// pane display, then for clock mode, and then for the pane's modes.
pub proof fn a_step_asks_in_order(
    pending: Seq<u8>,
    bytes: Seq<u8>,
    console: StepConsole,
    event: WindowsConsoleKeyEvent,
    control_d: Option<KeyCode>,
)
    ensures
        console.key is None ==> first_question(pending, bytes, console) is FastPath,
        pending.len() > 0 ==> first_question(pending, bytes, console) is FastPath,
        pending.len() == 0 && bytes.len() > 0 && console.key is Some ==> first_question(
            pending,
            bytes,
            console,
        ) is ReadOnly,
        step_turn(pending, bytes, console, StepNext::FastPath, StepAnswer::FastPath(None)).2
            == MoveModel::Next(StepNext::ReadOnly),
        step_turn(pending, bytes, console, StepNext::ReadOnly, StepAnswer::Is(false)).2
            == MoveModel::Next(StepNext::Open(LiveSurface::Prompt)),
        step_turn(
            pending,
            bytes,
            console,
            StepNext::Open(LiveSurface::Prompt),
            StepAnswer::Is(false),
        ).2 == MoveModel::Next(StepNext::Open(LiveSurface::ModeTree)),
        step_turn(
            pending,
            bytes,
            console,
            StepNext::Open(LiveSurface::ModeTree),
            StepAnswer::Is(false),
        ).2 == MoveModel::Next(StepNext::Open(LiveSurface::Overlay)),
        step_turn(
            pending,
            bytes,
            console,
            StepNext::Open(LiveSurface::Overlay),
            StepAnswer::Is(false),
        ).2 == MoveModel::Next(StepNext::Open(LiveSurface::DisplayPanes)),
        step_turn(
            pending,
            bytes,
            console,
            StepNext::Open(LiveSurface::DisplayPanes),
            StepAnswer::Is(false),
        ).2 == MoveModel::Next(StepNext::ClockMode),
        step_turn(pending, bytes, console, StepNext::ClockMode, StepAnswer::Is(false)).2
            == MoveModel::Next(StepNext::PaneModes),
        forall|forwarded: bool|
            (#[trigger] step_turn(
                pending,
                bytes,
                console,
                StepNext::FastPath,
                StepAnswer::FastPath(Some(forwarded)),
            )).2 == MoveModel::Complete(forwarded),
{
}

/// A surface that is open gets the bytes, and the step ends with what it leaves over,
/// routed anew, or else with nothing forwarded; what was pending stays.
pub proof fn an_open_surface_takes_the_input(
    pending: Seq<u8>,
    bytes: Seq<u8>,
    console: StepConsole,
    surface: LiveSurface,
    left: Vec<u8>,
)
    ensures
        step_turn(pending, bytes, console, StepNext::Open(surface), StepAnswer::Is(true)) == (
            pending,
            Seq::<LiveEffect>::empty(),
            MoveModel::Next(StepNext::Surface(surface)),
        ),
        step_turn(
            pending,
            bytes,
            console,
            StepNext::Surface(surface),
            StepAnswer::Left(Some(left)),
        ) == (
            pending,
            Seq::<LiveEffect>::empty(),
            MoveModel::Reroute { bytes: left@, forwarded: false },
        ),
        step_turn(pending, bytes, console, StepNext::Surface(surface), StepAnswer::Left(None)) == (
            pending,
            Seq::<LiveEffect>::empty(),
            MoveModel::Complete(false),
        ),
{
}

/// In clock mode a whole paste is routed anew and any key or mouse report is used up in
/// leaving it, with what follows routed anew; what is cut off is kept.
pub proof fn any_input_leaves_clock_mode(
    pending: Seq<u8>,
    bytes: Seq<u8>,
    console: StepConsole,
    size: usize,
    key: KeyCode,
)
    requires
        0 < size <= pending.len(),
    ensures
        step_turn(
            pending,
            bytes,
            console,
            StepNext::ClockKey,
            StepAnswer::Key(AttachedKeyDecode::Matched { size, key }),
        ).2 == MoveModel::Next(StepNext::LeaveClock { size }),
        step_turn(
            pending,
            bytes,
            console,
            StepNext::ClockKey,
            StepAnswer::Key(AttachedKeyDecode::Partial),
        ).2 == MoveModel::RetainClock(RetainedClockInput::Key),
        step_turn(
            pending,
            bytes,
            console,
            StepNext::ClockKey,
            StepAnswer::Key(AttachedKeyDecode::Invalid),
        ).2 == MoveModel::Next(StepNext::ClockPromptInput),
        step_turn(
            pending,
            bytes,
            console,
            StepNext::ClockPromptInput,
            StepAnswer::Consumed(Some(size)),
        ).2 == MoveModel::Next(StepNext::LeaveClock { size }),
        step_turn(
            pending,
            bytes,
            console,
            StepNext::ClockPromptInput,
            StepAnswer::Consumed(None),
        ).2 == MoveModel::RetainClock(RetainedClockInput::Key),
        step_turn(
            pending,
            bytes,
            console,
            StepNext::ClockMouse,
            StepAnswer::Mouse(MouseDecode::Matched { size }),
        ).2 == MoveModel::Next(StepNext::LeaveClock { size }),
        step_turn(
            pending,
            bytes,
            console,
            StepNext::ClockMouse,
            StepAnswer::Mouse(MouseDecode::Discard { size }),
        ).2 == MoveModel::Next(StepNext::LeaveClock { size }),
        forall|decoded: MouseDecode|
            decoded is Partial || decoded is Overlong ==> (#[trigger] step_turn(
                pending,
                bytes,
                console,
                StepNext::ClockMouse,
                StepAnswer::Mouse(decoded),
            )).2 == MoveModel::RetainClock(RetainedClockInput::Mouse),
        step_turn(
            pending,
            bytes,
            console,
            StepNext::ClockMouse,
            StepAnswer::Mouse(MouseDecode::Invalid),
        ).2 == MoveModel::Next(StepNext::ClockKey),
        step_turn(pending, bytes, console, StepNext::ClockMousePrefix, StepAnswer::Is(true)).2
            == MoveModel::Next(StepNext::ClockMouse),
        step_turn(pending, bytes, console, StepNext::ClockMousePrefix, StepAnswer::Is(false)).2
            == MoveModel::Next(StepNext::ClockKey),
        step_turn(pending, bytes, console, StepNext::LeaveClock { size }, StepAnswer::Done) == (
            Seq::<u8>::empty(),
            Seq::<LiveEffect>::empty(),
            if size < pending.len() {
                MoveModel::Reroute { bytes: pending.skip(size as int), forwarded: false }
            } else {
                MoveModel::Complete(false)
            },
        ),
{
}

/// A paste in clock mode is routed anew whole, closing delimiter and all.
pub proof fn a_paste_in_clock_mode_is_not_used_up(
    body: Seq<u8>,
    tail: Seq<u8>,
    console: StepConsole,
)
    requires
        forall|at: int| !#[trigger] bytes::occurs_at(body, bracketed_paste::paste_end(), at),
        body.len() + 12 <= usize::MAX,
    ensures
        ({
            let input = bracketed_paste::encoded_paste(body, true) + tail;
            let turn = step_turn(
                Seq::empty(),
                input,
                console,
                StepNext::ClockMode,
                StepAnswer::Is(true),
            );
            turn.0 == input && turn.1.len() == 0 && turn.2 == MoveModel::Next(
                StepNext::LeaveClock { size: 0 },
            )
        }),
{
    let input = bracketed_paste::encoded_paste(body, true) + tail;
    assert(Seq::<u8>::empty() + input =~= input);
    bracketed_paste::an_encoded_paste_decodes_before_any_tail(body, tail);
}

/// On a console the end-of-input byte alone, with nothing pending, is its own key;
/// other bytes of a console event are decoded for a Control key first; and all other
/// input goes on to the key tables.
pub proof fn console_bytes_are_looked_at_for_control_keys(
    pending: Seq<u8>,
    bytes: Seq<u8>,
    console: StepConsole,
    modes: ScanModes,
)
    ensures
        ({
            let turn = step_turn(
                pending,
                bytes,
                console,
                StepNext::PaneModes,
                StepAnswer::Modes(modes),
            );
            &&& turn.0 == pending && turn.1.len() == 0
            &&& pending.len() == 0 && bytes == seq![0x04u8] ==> (console.control_d matches Some(key)
                ==> turn.2 == MoveModel::Next(
                StepNext::ConsoleKey { key, forward: KeyForward::ConsoleControlD },
            ))
            &&& pending.len() == 0 && bytes.len() > 0 && console.key is Some && (bytes != seq![
                0x04u8,
            ] || console.control_d is None) ==> turn.2 == MoveModel::Next(
                StepNext::ConsoleDecode { modes },
            )
            &&& console.key is None && console.control_d is None || pending.len() > 0 ==> turn.2
                == MoveModel::Next(StepNext::KeyTable { modes })
        }),
        forall|key: KeyCode, forward: KeyForward, handled: bool|
            (#[trigger] step_turn(
                pending,
                bytes,
                console,
                StepNext::ConsoleKey { key, forward },
                StepAnswer::Is(handled),
            )).2 == MoveModel::Complete(!handled),
{
}

/// A scan begins at the first byte of what was pending and of what the step brought, in
/// that order, with nothing forwarded and no prefix keys known; it knows the pane's
/// modes, how much was pending and how much the step brought.
pub proof fn a_scan_begins_with_all_input(
    pending: Seq<u8>,
    bytes: Seq<u8>,
    console: StepConsole,
    modes: ScanModes,
)
    requires
        pending.len() + bytes.len() <= usize::MAX,
    ensures
        ({
            let turn = step_turn(
                pending,
                bytes,
                console,
                StepNext::KeyTable { modes },
                StepAnswer::Is(true),
            );
            &&& turn.0 == pending + bytes && turn.1.len() == 0
            &&& turn.2 matches MoveModel::Next(StepNext::Scan { context, cursor, next })
                && context.copy_mode == modes.copy_mode && context.focus_events
                == modes.focus_events && context.new_input_at == pending.len() && context.step_len
                == bytes.len() && context.control_d == console.control_d && (context.console_key
                == if pending.len() == 0 && bytes.len() > 0 {
                console.key
            } else {
                None
            }) && cursor.raw_start == 0 && cursor.offset == 0 && !cursor.forwarded
                && cursor.prefix_keys is None && next is Item
        }),
        pending.len() > 0 ==> step_turn(
            pending,
            bytes,
            console,
            StepNext::KeyTable { modes },
            StepAnswer::Is(false),
        ) == step_turn(
            pending,
            bytes,
            console,
            StepNext::KeyTable { modes },
            StepAnswer::Is(true),
        ),
        pending.len() == 0 ==> step_turn(
            pending,
            bytes,
            console,
            StepNext::KeyTable { modes },
            StepAnswer::Is(false),
        ).2 == MoveModel::Next(StepNext::DetachPrefix { modes }),
{
}

/// Two keys that make up all of a step, a prefix key and one that is bound to a bare
/// detach, detach the client, and the step ends with nothing forwarded.
pub proof fn two_keys_detach_at_once(
    bytes: Seq<u8>,
    console: StepConsole,
    modes: ScanModes,
    size: usize,
    key: KeyCode,
    command_size: usize,
    command: KeyCode,
    other: Option<KeyCode>,
    commands: Vec<BoundCommand>,
)
    requires
        0 < size < bytes.len(),
        size + command_size == bytes.len(),
        commands@.len() == 1,
        commands@[0].name@ == "detach-client"@,
        commands@[0].arguments@.len() == 0,
    ensures
        ({
            let none = Seq::<u8>::empty();
            let first = step_turn(
                none,
                bytes,
                console,
                StepNext::DetachPrefix { modes },
                StepAnswer::Key(AttachedKeyDecode::Matched { size, key }),
            );
            let asked = StepNext::DetachCommand { modes, prefix_size: size, prefix_key: key };
            let second = step_turn(
                none,
                bytes,
                console,
                asked,
                StepAnswer::Key(AttachedKeyDecode::Matched { size: command_size, key: command }),
            );
            let bound = StepNext::DetachBinding { modes, prefix_key: key, command_key: command };
            let third = step_turn(
                none,
                bytes,
                console,
                bound,
                StepAnswer::Binding {
                    prefix_keys: PrefixKeys { prefix: Some(key), prefix2: other },
                    commands: Some(commands),
                },
            );
            &&& first.2 == MoveModel::Next(asked)
            &&& second.2 == MoveModel::Next(bound)
            &&& third.2 == MoveModel::Next(StepNext::Detach)
            &&& step_turn(none, bytes, console, StepNext::Detach, StepAnswer::Done).2
                == MoveModel::Complete(false)
        }),
{
}

/// How a scan ends is how its step ends: input that is kept is what stands from the
/// cursor on, input that is routed anew what stands from where it says, and after all
/// else nothing is pending; what was forwarded is told.
pub proof fn a_step_ends_as_its_scan_does(
    input: Seq<u8>,
    context: LiveContext,
    cursor: LiveCursor,
    kind: RetainedInput,
    from: usize,
)
    requires
        cursor.offset <= input.len(),
        from <= input.len(),
    ensures
        scan_outcome(input, context, cursor, LiveNext::Retain(kind)) == (
            input.subrange(cursor.offset as int, input.len() as int),
            MoveModel::Retain { kind, forwarded: cursor.forwarded },
        ),
        scan_outcome(input, context, cursor, LiveNext::Reroute { from }) == (
            Seq::<u8>::empty(),
            MoveModel::Reroute {
                bytes: input.subrange(from as int, input.len() as int),
                forwarded: cursor.forwarded,
            },
        ),
        scan_outcome(input, context, cursor, LiveNext::Complete) == (
            Seq::<u8>::empty(),
            MoveModel::Complete(cursor.forwarded),
        ),
        scan_outcome(input, context, cursor, LiveNext::Key) == (
            input,
            MoveModel::Next(StepNext::Scan { context, cursor, next: LiveNext::Key }),
        ),
{
    assert(input.skip(cursor.offset as int) =~= input.subrange(
        cursor.offset as int,
        input.len() as int,
    ));
    assert(input.skip(from as int) =~= input.subrange(from as int, input.len() as int));
}

/// A move is seen as what it is.
pub proof fn a_move_is_seen_as_it_is(
    next: StepNext,
    clock: RetainedClockInput,
    kind: RetainedInput,
    forwarded: bool,
    bytes: Vec<u8>,
)
    ensures
        StepMove::Next(next)@ == MoveModel::Next(next),
        StepMove::RetainClock(clock)@ == MoveModel::RetainClock(clock),
        (StepMove::Retain { kind, forwarded })@ == (MoveModel::Retain { kind, forwarded }),
        StepMove::Ended(AttachedLiveInputStep::Complete(forwarded))@ == MoveModel::Complete(
            forwarded,
        ),
        StepMove::Ended(AttachedLiveInputStep::Reroute { bytes, forwarded })@ == (
        MoveModel::Reroute { bytes: bytes@, forwarded }),
{
}

/// A mouse report of no bytes is none: clock mode looks for a key then.
pub proof fn an_empty_mouse_report_is_none(pending: Seq<u8>, bytes: Seq<u8>, console: StepConsole)
    ensures
        step_turn(
            pending,
            bytes,
            console,
            StepNext::ClockMouse,
            StepAnswer::Mouse(MouseDecode::Matched { size: 0 }),
        ).2 == MoveModel::Next(StepNext::ClockKey),
        step_turn(
            pending,
            bytes,
            console,
            StepNext::ClockMouse,
            StepAnswer::Mouse(MouseDecode::Discard { size: 0 }),
        ).2 == MoveModel::Next(StepNext::ClockKey),
{
}

/// A console's bytes that are one key with Control are handled as that key, forwarded as
/// the event; others go on to the key tables.
pub proof fn a_control_key_of_a_console_is_handled_at_once(
    bytes: Seq<u8>,
    console: StepConsole,
    event: WindowsConsoleKeyEvent,
    modes: ScanModes,
    size: usize,
    key: KeyCode,
)
    requires
        bytes.len() > 0,
        console.key == Some(event),
    ensures
        ({
            let turn = step_turn(
                Seq::empty(),
                bytes,
                console,
                StepNext::ConsoleDecode { modes },
                StepAnswer::Key(AttachedKeyDecode::Matched { size, key }),
            );
            let bound = keys::console_control_key(key, event);
            &&& turn.0.len() == 0 && turn.1.len() == 0
            &&& turn.2 == if size == bytes.len() && bound is Some {
                MoveModel::Next(
                    StepNext::ConsoleKey { key: bound->0, forward: KeyForward::Console(event) },
                )
            } else {
                MoveModel::Next(StepNext::KeyTable { modes })
            }
        }),
{
}

} // verus!
