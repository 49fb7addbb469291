//! The scan of live input bound for a pane.
//!
//! The scan walks the input item by item: pastes, graphics commands, terminal
//! controls, mouse reports and keys. What it does not know it asks for; what is
//! to be done it hands out as effects on ranges of the input. A run of plain
//! bytes, `raw_start..offset`, is written in one piece when an item ends it.
use crate::bracketed_paste;
use crate::bracketed_paste::BracketedPasteDecode;
use crate::bytes;
use crate::keys;
use crate::keys::{AttachedKeyDecode, KeyCode, WindowsConsoleKeyEvent};
use crate::terminal_response;
use crate::terminal_response::{TerminalControlEvent, TerminalResponseDecode};
use vstd::prelude::*;

verus! {

/// What the kitty graphics decoder answers.
#[derive(Debug, Clone, Copy, PartialEq, Eq, Structural)]
pub enum KittyGraphicsApcDecode {
    NotKittyGraphics,
    Partial,
    Matched { size: usize },
}

/// What the mouse decoder answers.
#[derive(Debug, Clone, Copy, PartialEq, Eq, Structural)]
pub enum MouseDecode {
    /// An event, which the caller keeps for `LiveEffect::HandleMouse`.
    Matched { size: usize },
    Discard { size: usize },
    Partial,
    Overlong,
    Invalid,
}

/// What the extended-key decoder answers.
#[derive(Debug, Clone, Copy, PartialEq, Eq, Structural)]
pub enum ExtendedKeyDecode {
    Matched { size: usize, key: KeyCode },
    Partial,
    Invalid,
}

/// What is fixed for the whole scan.
#[derive(Debug, Clone, Copy, PartialEq, Eq, Structural)]
pub struct LiveContext {
    /// The pane is in copy mode.
    pub copy_mode: bool,
    /// The pane asked for focus events.
    pub focus_events: bool,
    /// How much of the input was retained from earlier steps.
    pub new_input_at: usize,
    /// How many bytes this step brought.
    pub step_len: usize,
    /// The console event that the step's bytes came from.
    pub console_key: Option<WindowsConsoleKeyEvent>,
    /// On a Windows console, the key that end-of-input is bound as.
    pub control_d: Option<KeyCode>,
}

/// The keys that introduce a command.
#[derive(Debug, Clone, Copy, PartialEq, Eq, Structural)]
pub struct PrefixKeys {
    pub prefix: Option<KeyCode>,
    pub prefix2: Option<KeyCode>,
}

/// Where the scan stands.
#[derive(Debug, Clone, Copy, PartialEq, Eq, Structural)]
pub struct LiveCursor {
    /// Where the run of plain bytes begins.
    pub raw_start: usize,
    /// Where the next item begins.
    pub offset: usize,
    /// Something was sent to the pane.
    pub forwarded: bool,
    /// The prefix keys, once they were asked for.
    pub prefix_keys: Option<PrefixKeys>,
}

/// What to do before the step or its scan goes on. Ranges are ranges of the input.
#[derive(Debug, Clone, Copy, PartialEq, Eq, Structural)]
pub enum LiveEffect {
    /// Clear the alerts of the window that the client looks at.
    ClearFocusAlerts,
    /// Find the pane that the input is for, and tell that its client is active, where
    /// that was not told yet.
    TellActiveClient,
    /// Write bytes to the pane as typed input.
    WriteInput { from: usize, to: usize },
    /// Write bytes to the pane as pasted text.
    WritePaste { from: usize, to: usize },
    /// Write bytes to the target pane alone.
    WriteTarget { from: usize, to: usize },
    /// Tell what the terminal reported.
    ControlEvent(TerminalControlEvent),
    /// Record the text of a line before its Enter key is handled.
    RecordSubmitted { from: usize, to: usize },
    /// Handle the mouse event that was decoded last.
    HandleMouse,
}

/// How a key that no binding takes reaches the pane.
#[derive(Debug, Clone, Copy, PartialEq, Eq, Structural)]
pub enum KeyForward {
    /// Encoded for the pane.
    Plain,
    /// As the console event it came from.
    Console(WindowsConsoleKeyEvent),
    /// As a console event for Control-D.
    ConsoleControlD,
}

/// Input that is kept until more bytes arrive.
#[derive(Debug, Clone, Copy, PartialEq, Eq, Structural)]
pub enum RetainedInput {
    BracketedPaste,
    KittyGraphics,
    TerminalResponse,
    Mouse,
    ExtendedKey,
    Utf8,
    AttachedKey,
}

/// What the scan needs next.
#[derive(Debug, Clone, Copy, PartialEq, Eq, Structural)]
pub enum LiveNext {
    /// Nothing: look at the item at the cursor.
    Item,
    /// What the kitty graphics decoder answers.
    Kitty,
    /// Whether a mouse report begins at the cursor.
    MousePrefix,
    /// What the mouse decoder answers.
    Mouse,
    /// Whether an extended key begins at the cursor.
    ExtendedPrefix,
    /// What the extended-key decoder answers.
    Extended,
    /// Whether the client has a key table active.
    KeyTable,
    /// The session's prefix keys.
    PrefixKeys,
    /// What the key decoder answers with no backspace configured.
    PrefixKey,
    /// What the key decoder answers.
    Key,
    /// Whether the key is Enter.
    Enter { size: usize, key: KeyCode, extended: bool },
    /// Handle the key, and say whether a binding took it.
    HandleKey { size: usize, key: KeyCode, forward: KeyForward },
    /// Whether a prompt opened.
    Prompt,
    /// Whether a prompt is open now that the scan is over.
    FinalPrompt,
    /// Keep the input from the cursor on, within the limit of its kind.
    Retain(RetainedInput),
    /// Route the input from here on anew.
    Reroute { from: usize },
    /// All input is done with.
    Complete,
}

/// One move of the scan.
#[derive(Debug, PartialEq, Eq)]
pub struct LiveTurn {
    pub cursor: LiveCursor,
    pub effects: Vec<LiveEffect>,
    pub next: LiveNext,
}

/// A move as a value.
pub type TurnModel = (LiveCursor, Seq<LiveEffect>, LiveNext);

impl View for LiveTurn {
    type V = TurnModel;

    open spec fn view(&self) -> TurnModel {
        (self.cursor, self.effects@, self.next)
    }
}

impl LiveCursor {
    /// The cursor lies within an input of `len` bytes.
    pub open spec fn within(self, len: int) -> bool {
        self.raw_start <= self.offset <= len
    }

    /// The cursor lies before the end of an input of `len` bytes.
    pub open spec fn at_item(self, len: int) -> bool {
        self.raw_start <= self.offset < len
    }

    /// The cursor after an item of `size` bytes that ends the run of plain bytes.
    pub open spec fn after_item(self, size: int, forwarded: bool) -> LiveCursor {
        LiveCursor {
            raw_start: (self.offset + size) as usize,
            offset: (self.offset + size) as usize,
            forwarded,
            prefix_keys: self.prefix_keys,
        }
    }

    /// The cursor with `size` more bytes in the run of plain bytes.
    pub open spec fn grown(self, size: int) -> LiveCursor {
        LiveCursor { offset: (self.offset + size) as usize, ..self }
    }

    /// There are plain bytes to write.
    pub open spec fn has_raw(self) -> bool {
        self.raw_start < self.offset
    }

    /// The effect that writes the plain bytes.
    pub open spec fn raw_writes(self) -> Seq<LiveEffect> {
        if self.has_raw() {
            seq![LiveEffect::WriteInput { from: self.raw_start, to: self.offset }]
        } else {
            Seq::empty()
        }
    }

    /// The cursor once the plain bytes were written.
    pub open spec fn raw_written(self) -> LiveCursor {
        LiveCursor { forwarded: self.forwarded || self.has_raw(), ..self }
    }
}

/// The input from the cursor on.
pub open spec fn rest_of(input: Seq<u8>, cursor: LiveCursor) -> Seq<u8> {
    input.subrange(cursor.offset as int, input.len() as int)
}

/// How much of the rest was retained from earlier steps.
pub open spec fn rest_new_at(context: LiveContext, cursor: LiveCursor) -> int {
    if context.new_input_at > cursor.offset {
        context.new_input_at - cursor.offset
    } else {
        0
    }
}

/// Keep the input from the cursor on, once the plain bytes before it are written.
pub open spec fn retain_turn(cursor: LiveCursor, kind: RetainedInput) -> TurnModel {
    (cursor.raw_written(), cursor.raw_writes(), LiveNext::Retain(kind))
}

/// Route what follows the cursor anew, or go on where nothing does.
pub open spec fn reroute_rest(cursor: LiveCursor, len: int) -> LiveNext {
    if cursor.offset < len {
        LiveNext::Reroute { from: cursor.offset }
    } else {
        LiveNext::Item
    }
}

/// The move at an item: a paste is taken whole, and dropped in copy mode.
pub open spec fn item_turn(input: Seq<u8>, context: LiveContext, cursor: LiveCursor) -> TurnModel {
    if cursor.offset >= input.len() {
        (cursor, Seq::empty(), LiveNext::FinalPrompt)
    } else {
        match bracketed_paste::paste_decode(rest_of(input, cursor), rest_new_at(context, cursor)) {
            BracketedPasteDecode::Matched { size, body_start, body_end } => if context.copy_mode {
                (cursor.after_item(size as int, cursor.forwarded), Seq::empty(), LiveNext::Item)
            } else {
                (
                    cursor.after_item(size as int, true),
                    cursor.raw_writes().push(
                        LiveEffect::WritePaste {
                            from: (cursor.offset + body_start) as usize,
                            to: (cursor.offset + body_end) as usize,
                        },
                    ),
                    LiveNext::Item,
                )
            },
            BracketedPasteDecode::Partial => retain_turn(cursor, RetainedInput::BracketedPaste),
            BracketedPasteDecode::NotPaste => (cursor, Seq::empty(), LiveNext::Kitty),
        }
    }
}

/// The move where a focus event stands at the cursor: it is told, and written
/// to a pane that asked for it.
pub open spec fn focus_turn(
    input: Seq<u8>,
    context: LiveContext,
    cursor: LiveCursor,
    event: TerminalControlEvent,
) -> TurnModel {
    let written = if context.focus_events {
        cursor.raw_writes().push(
            LiveEffect::WriteTarget { from: cursor.offset, to: (cursor.offset + 3) as usize },
        )
    } else {
        cursor.raw_writes()
    };
    let after = cursor.after_item(
        3,
        cursor.forwarded || cursor.has_raw() || context.focus_events,
    );
    (after, written.push(LiveEffect::ControlEvent(event)), reroute_rest(after, input.len() as int))
}

/// The move on the terminal control at the cursor, where no focus event stands
/// there.
pub open spec fn control_turn(
    input: Seq<u8>,
    context: LiveContext,
    cursor: LiveCursor,
) -> TurnModel {
    match terminal_response::attached_control_decode(
        rest_of(input, cursor),
        context.focus_events,
        rest_new_at(context, cursor),
    ) {
        TerminalResponseDecode::Matched { size, event } => {
            let after = cursor.after_item(size as int, cursor.forwarded || cursor.has_raw());
            match event {
                Some(event) => (
                    after,
                    cursor.raw_writes().push(LiveEffect::ControlEvent(event)),
                    reroute_rest(after, input.len() as int),
                ),
                None => (after, cursor.raw_writes(), LiveNext::Item),
            }
        },
        TerminalResponseDecode::PaneBound { size } => (
            cursor.after_item(size as int, true),
            cursor.raw_writes().push(
                LiveEffect::WriteTarget {
                    from: cursor.offset,
                    to: (cursor.offset + size) as usize,
                },
            ),
            LiveNext::Item,
        ),
        TerminalResponseDecode::Partial => retain_turn(cursor, RetainedInput::TerminalResponse),
        TerminalResponseDecode::NotResponse => (cursor, Seq::empty(), LiveNext::MousePrefix),
    }
}

/// The move on what the kitty graphics decoder answered.
pub open spec fn kitty_turn(
    input: Seq<u8>,
    context: LiveContext,
    cursor: LiveCursor,
    decoded: KittyGraphicsApcDecode,
) -> TurnModel {
    match decoded {
        KittyGraphicsApcDecode::Matched { size } => (
            cursor.after_item(size as int, true),
            cursor.raw_writes().push(
                LiveEffect::WriteTarget {
                    from: cursor.offset,
                    to: (cursor.offset + size) as usize,
                },
            ),
            LiveNext::Item,
        ),
        KittyGraphicsApcDecode::Partial => retain_turn(cursor, RetainedInput::KittyGraphics),
        KittyGraphicsApcDecode::NotKittyGraphics => match terminal_response::focus_event(
            rest_of(input, cursor),
        ) {
            Some(event) => focus_turn(input, context, cursor, event),
            None => control_turn(input, context, cursor),
        },
    }
}

/// The move on whether a mouse report begins at the cursor.
pub open spec fn mouse_prefix_turn(cursor: LiveCursor, begins: bool) -> TurnModel {
    if begins {
        (cursor.raw_written(), cursor.raw_writes(), LiveNext::Mouse)
    } else {
        (cursor, Seq::empty(), LiveNext::ExtendedPrefix)
    }
}

/// The move on what the mouse decoder answered; the plain bytes are written.
pub open spec fn mouse_turn(len: int, cursor: LiveCursor, decoded: MouseDecode) -> TurnModel {
    match decoded {
        MouseDecode::Matched { size } => {
            let after = cursor.after_item(size as int, cursor.forwarded);
            (after, seq![LiveEffect::HandleMouse], reroute_rest(after, len))
        },
        MouseDecode::Discard { size } => (
            cursor.after_item(size as int, cursor.forwarded),
            Seq::empty(),
            LiveNext::Item,
        ),
        MouseDecode::Partial | MouseDecode::Overlong => (
            cursor,
            Seq::empty(),
            LiveNext::Retain(RetainedInput::Mouse),
        ),
        MouseDecode::Invalid => (
            LiveCursor {
                raw_start: cursor.offset,
                offset: (cursor.offset + 1) as usize,
                ..cursor
            },
            Seq::empty(),
            LiveNext::Item,
        ),
    }
}

/// The move on whether an extended key begins at the cursor.
pub open spec fn extended_prefix_turn(cursor: LiveCursor, begins: bool) -> TurnModel {
    if begins {
        (cursor.raw_written(), cursor.raw_writes(), LiveNext::Extended)
    } else {
        (cursor, Seq::empty(), LiveNext::KeyTable)
    }
}

/// How the key of `size` bytes at the cursor is handled.
pub open spec fn handle_key(
    len: int,
    context: LiveContext,
    cursor: LiveCursor,
    size: usize,
    key: KeyCode,
) -> LiveNext {
    if context.console_key is Some && cursor.raw_start == 0 && cursor.offset == 0 && size == len
        && size == context.step_len {
        let event = context.console_key->0;
        LiveNext::HandleKey {
            size,
            key: match keys::console_control_key(key, event) {
                Some(bound) => bound,
                None => key,
            },
            forward: KeyForward::Console(event),
        }
    } else if context.control_d == Some(key) {
        LiveNext::HandleKey { size, key, forward: KeyForward::ConsoleControlD }
    } else {
        LiveNext::HandleKey { size, key, forward: KeyForward::Plain }
    }
}

/// The move on what the extended-key decoder answered; the plain bytes are
/// written.
pub open spec fn extended_turn(
    len: int,
    context: LiveContext,
    cursor: LiveCursor,
    decoded: ExtendedKeyDecode,
) -> TurnModel {
    match decoded {
        ExtendedKeyDecode::Matched { size, key } => (
            cursor,
            Seq::empty(),
            if cursor.has_raw() {
                LiveNext::Enter { size, key, extended: true }
            } else {
                handle_key(len, context, cursor, size, key)
            },
        ),
        ExtendedKeyDecode::Partial => (
            cursor,
            Seq::empty(),
            LiveNext::Retain(RetainedInput::ExtendedKey),
        ),
        ExtendedKeyDecode::Invalid => (
            LiveCursor { raw_start: cursor.offset, ..cursor },
            Seq::empty(),
            LiveNext::KeyTable,
        ),
    }
}

/// The byte is an ASCII control character.
pub open spec fn is_control_byte(byte: u8) -> bool {
    byte < 0x20 || byte == 0x7f
}

/// The move on whether a key table is active: without one, outside copy mode,
/// printable input is looked at only for a prefix key.
pub open spec fn key_table_turn(
    input: Seq<u8>,
    context: LiveContext,
    cursor: LiveCursor,
    active: bool,
) -> TurnModel {
    if active || context.copy_mode || is_control_byte(input[cursor.offset as int]) {
        (cursor, Seq::empty(), LiveNext::Key)
    } else {
        match cursor.prefix_keys {
            Some(prefix_keys) => prefix_keys_turn(input, cursor, prefix_keys),
            None => (cursor, Seq::empty(), LiveNext::PrefixKeys),
        }
    }
}

/// The move on printable input once the prefix keys are known: text that is no
/// prefix key joins the run of plain bytes, a scalar cut off at the end is kept.
pub open spec fn prefix_keys_turn(
    input: Seq<u8>,
    cursor: LiveCursor,
    prefix_keys: PrefixKeys,
) -> TurnModel {
    let known = LiveCursor { prefix_keys: Some(prefix_keys), ..cursor };
    let rest = rest_of(input, cursor);
    if rest[0] < 0x80 {
        (known, Seq::empty(), LiveNext::PrefixKey)
    } else {
        match keys::first_scalar(rest) {
            Some((scalar, size)) => if keys::is_prefix_key(
                scalar as u64,
                prefix_keys.prefix,
                prefix_keys.prefix2,
            ) {
                (known, Seq::empty(), LiveNext::Key)
            } else {
                (known.grown(size), Seq::empty(), LiveNext::Item)
            },
            None => if keys::scalar_is_cut_off(rest) {
                retain_turn(known, RetainedInput::Utf8)
            } else {
                (known.grown(1), Seq::empty(), LiveNext::Item)
            },
        }
    }
}

/// The move on the key at printable ASCII input: no prefix key joins the run of
/// plain bytes.
pub open spec fn prefix_key_turn(
    input: Seq<u8>,
    cursor: LiveCursor,
    prefix_keys: PrefixKeys,
    decoded: AttachedKeyDecode,
) -> TurnModel {
    if keys::starts_with_prefix_key(
        rest_of(input, cursor),
        decoded,
        prefix_keys.prefix,
        prefix_keys.prefix2,
    ) {
        (cursor, Seq::empty(), LiveNext::Key)
    } else {
        (cursor.grown(1), Seq::empty(), LiveNext::Item)
    }
}

/// The move on what the key decoder answered.
pub open spec fn key_turn(
    input: Seq<u8>,
    context: LiveContext,
    cursor: LiveCursor,
    decoded: AttachedKeyDecode,
) -> TurnModel {
    match keys::live_key_decode(rest_of(input, cursor), decoded) {
        AttachedKeyDecode::Matched { size, key } => (
            cursor,
            Seq::empty(),
            if cursor.has_raw() {
                LiveNext::Enter { size, key, extended: false }
            } else {
                handle_key(input.len() as int, context, cursor, size, key)
            },
        ),
        AttachedKeyDecode::Partial => retain_turn(cursor, RetainedInput::AttachedKey),
        AttachedKeyDecode::Invalid => (cursor.grown(1), Seq::empty(), LiveNext::Item),
    }
}

/// The move on whether the key that ends a run of plain bytes is Enter: the run
/// is then the submitted text. An extended key had the run written before.
pub open spec fn enter_turn(
    len: int,
    context: LiveContext,
    cursor: LiveCursor,
    size: usize,
    key: KeyCode,
    extended: bool,
    enter: bool,
) -> TurnModel {
    let recorded = if enter {
        seq![LiveEffect::RecordSubmitted { from: cursor.raw_start, to: cursor.offset }]
    } else {
        Seq::empty()
    };
    let next = handle_key(len, context, cursor, size, key);
    if extended {
        (cursor, recorded, next)
    } else {
        (cursor.raw_written(), recorded + cursor.raw_writes(), next)
    }
}

/// The move once a key of `size` bytes was handled: after a binding took it the
/// rest is routed anew.
pub open spec fn key_handled_turn(
    len: int,
    cursor: LiveCursor,
    size: usize,
    handled: bool,
) -> TurnModel {
    let after = cursor.after_item(size as int, cursor.forwarded || !handled);
    (
        after,
        Seq::empty(),
        if handled && after.offset < len {
            LiveNext::Reroute { from: after.offset }
        } else {
            LiveNext::Prompt
        },
    )
}

/// The move on whether a prompt opened while a key was handled: it takes the rest.
pub open spec fn prompt_turn(cursor: LiveCursor, open: bool) -> TurnModel {
    (
        cursor,
        Seq::empty(),
        if open {
            LiveNext::FinalPrompt
        } else {
            LiveNext::Item
        },
    )
}

/// The move once the scan is over: with a prompt open the plain bytes are for
/// the prompt, else for the pane.
pub open spec fn final_turn(len: int, cursor: LiveCursor, prompt: bool) -> TurnModel {
    if cursor.raw_start >= len {
        (cursor, Seq::empty(), LiveNext::Complete)
    } else if prompt {
        (cursor, Seq::empty(), LiveNext::Reroute { from: cursor.raw_start })
    } else {
        (
            LiveCursor { forwarded: true, ..cursor },
            seq![LiveEffect::WriteInput { from: cursor.raw_start, to: len as usize }],
            LiveNext::Complete,
        )
    }
}

/// The bytes that an effect sends to the pane.
pub open spec fn written_range(effect: LiveEffect) -> Option<(int, int)> {
    match effect {
        LiveEffect::WriteInput { from, to } => Some((from as int, to as int)),
        LiveEffect::WritePaste { from, to } => Some((from as int, to as int)),
        LiveEffect::WriteTarget { from, to } => Some((from as int, to as int)),
        _ => None,
    }
}

/// Some effect sends bytes to the pane.
pub open spec fn writes_something(effects: Seq<LiveEffect>) -> bool {
    exists|i: int| 0 <= i < effects.len() && written_range(#[trigger] effects[i]) is Some
}

/// What is sent to the pane lies between `from` and `to`, in input order, and
/// no byte is sent twice.
pub open spec fn writes_in_order(effects: Seq<LiveEffect>, from: int, to: int) -> bool {
    &&& forall|i: int|
        0 <= i < effects.len() ==> (written_range(#[trigger] effects[i]) matches Some((a, b)) ==> from
            <= a <= b <= to)
    &&& forall|i: int, j: int|
        #![trigger effects[i], effects[j]]
        0 <= i < j < effects.len() ==> (written_range(effects[i]) matches Some((_, b)) ==> (
        written_range(effects[j]) matches Some((c, _)) ==> b <= c))
}

/// How much of the input is done with when the scan waits for `next`.
pub open spec fn done_with(len: int, cursor: LiveCursor, next: LiveNext) -> int {
    match next {
        LiveNext::Mouse | LiveNext::Extended | LiveNext::HandleKey { .. } => cursor.offset as int,
        LiveNext::Enter { extended: true, .. } | LiveNext::Retain(_) => cursor.offset as int,
        LiveNext::Reroute { from } => from as int,
        LiveNext::Complete => len,
        _ => cursor.raw_start as int,
    }
}

/// What every move keeps, where `done` bytes of the input were done with before:
/// the cursor stays within the input, and what is sent follows what was done
/// with, in order and once.
pub open spec fn sound_turn(len: int, done: int, turn: TurnModel) -> bool {
    &&& turn.0.within(len)
    &&& done <= done_with(len, turn.0, turn.2) <= len
    &&& writes_in_order(turn.1, done, done_with(len, turn.0, turn.2))
}

/// `forwarded` turns true with the first bytes sent, and stays.
pub open spec fn tells_forwarding(before: LiveCursor, turn: TurnModel) -> bool {
    turn.0.forwarded == (before.forwarded || writes_something(turn.1))
}

/// All effects of `turns`, in order.
pub open spec fn all_effects(turns: Seq<TurnModel>) -> Seq<LiveEffect>
    decreases turns.len(),
{
    if turns.len() == 0 {
        Seq::empty()
    } else {
        turns[0].1 + all_effects(turns.subrange(1, turns.len() as int))
    }
}

proof fn lemma_writes_follow(
    first: Seq<LiveEffect>,
    later: Seq<LiveEffect>,
    from: int,
    middle: int,
    to: int,
)
    requires
        writes_in_order(first, from, middle),
        writes_in_order(later, middle, to),
        from <= middle <= to,
    ensures
        writes_in_order(first + later, from, to),
{
    let all = first + later;
    assert forall|i: int| 0 <= i < all.len() implies (written_range(#[trigger] all[i]) matches Some(
        (a, b),
    ) ==> from <= a <= b <= to) by {
        if i < first.len() {
            assert(all[i] == first[i]);
        } else {
            assert(all[i] == later[i - first.len()]);
        }
    }
    assert forall|i: int, j: int|
        #![trigger all[i], all[j]]
        0 <= i < j < all.len() implies (written_range(all[i]) matches Some((_, b)) ==> (
    written_range(all[j]) matches Some((c, _)) ==> b <= c)) by {
        if j < first.len() {
            assert(all[i] == first[i] && all[j] == first[j]);
        } else if i < first.len() {
            assert(all[i] == first[i] && all[j] == later[j - first.len()]);
        } else {
            assert(all[i] == later[i - first.len()] && all[j] == later[j - first.len()]);
        }
    }
}

fn writes_of(cursor: LiveCursor) -> (effects: Vec<LiveEffect>)
    ensures
        effects@ == cursor.raw_writes(),
{
    let mut effects: Vec<LiveEffect> = Vec::new();
    if cursor.raw_start < cursor.offset {
        effects.push(LiveEffect::WriteInput { from: cursor.raw_start, to: cursor.offset });
    }
    assert(effects@ =~= cursor.raw_writes());
    effects
}

fn no_effects() -> (effects: Vec<LiveEffect>)
    ensures
        effects@ == Seq::<LiveEffect>::empty(),
{
    Vec::new()
}

fn one_effect(effect: LiveEffect) -> (effects: Vec<LiveEffect>)
    ensures
        effects@ == seq![effect],
{
    let mut effects: Vec<LiveEffect> = Vec::new();
    effects.push(effect);
    assert(effects@ =~= seq![effect]);
    effects
}

fn past_item(cursor: LiveCursor, size: usize, forwarded: bool) -> (after: LiveCursor)
    requires
        cursor.offset + size <= usize::MAX,
    ensures
        after == cursor.after_item(size as int, forwarded),
{
    LiveCursor {
        raw_start: cursor.offset + size,
        offset: cursor.offset + size,
        forwarded,
        prefix_keys: cursor.prefix_keys,
    }
}

fn grow(cursor: LiveCursor, size: usize) -> (grown: LiveCursor)
    requires
        cursor.offset + size <= usize::MAX,
    ensures
        grown == cursor.grown(size as int),
{
    LiveCursor {
        raw_start: cursor.raw_start,
        offset: cursor.offset + size,
        forwarded: cursor.forwarded,
        prefix_keys: cursor.prefix_keys,
    }
}

fn written(cursor: LiveCursor) -> (after: LiveCursor)
    ensures
        after == cursor.raw_written(),
{
    LiveCursor {
        raw_start: cursor.raw_start,
        offset: cursor.offset,
        forwarded: cursor.forwarded || cursor.raw_start < cursor.offset,
        prefix_keys: cursor.prefix_keys,
    }
}

fn retain(cursor: LiveCursor, kind: RetainedInput) -> (turn: LiveTurn)
    ensures
        turn@ == retain_turn(cursor, kind),
{
    LiveTurn {
        cursor: written(cursor),
        effects: writes_of(cursor),
        next: LiveNext::Retain(kind),
    }
}

fn reroute_or_go_on(cursor: LiveCursor, len: usize) -> (next: LiveNext)
    ensures
        next == reroute_rest(cursor, len as int),
{
    if cursor.offset < len {
        LiveNext::Reroute { from: cursor.offset }
    } else {
        LiveNext::Item
    }
}

fn new_input_in_rest(context: &LiveContext, cursor: LiveCursor) -> (at: usize)
    ensures
        at == rest_new_at(*context, cursor),
{
    context.new_input_at.saturating_sub(cursor.offset)
}

proof fn lemma_raw_writes(len: int, cursor: LiveCursor, to: int)
    requires
        cursor.within(len),
        cursor.offset <= to,
    ensures
        writes_in_order(cursor.raw_writes(), cursor.raw_start as int, to),
        writes_something(cursor.raw_writes()) == cursor.has_raw(),
{
    if cursor.has_raw() {
        assert(written_range(cursor.raw_writes()[0]) is Some);
    }
}

proof fn lemma_more_writes(len: int, cursor: LiveCursor, effect: LiveEffect, to: int)
    requires
        cursor.within(len),
        cursor.offset <= to,
        written_range(effect) matches Some((a, b)) ==> cursor.offset <= a <= b <= to,
    ensures
        writes_in_order(cursor.raw_writes().push(effect), cursor.raw_start as int, to),
        writes_something(cursor.raw_writes().push(effect)) == (cursor.has_raw() || written_range(
            effect,
        ) is Some),
{
    let writes = cursor.raw_writes();
    let more = writes.push(effect);
    assert(more[writes.len() as int] == effect);
    if cursor.has_raw() {
        assert(more[0] == writes[0]);
        assert(written_range(more[0]) is Some);
    }
}

/// Looks at the item at the cursor.
pub fn scan_item(input: &[u8], context: &LiveContext, cursor: LiveCursor) -> (turn: LiveTurn)
    requires
        cursor.within(input@.len() as int),
    ensures
        turn@ == item_turn(input@, *context, cursor),
        sound_turn(input@.len() as int, done_with(input@.len() as int, cursor, LiveNext::Item), turn@),
        tells_forwarding(cursor, turn@),
{
    if cursor.offset >= input.len() {
        return LiveTurn { cursor, effects: no_effects(), next: LiveNext::FinalPrompt };
    }
    let rest = vstd::slice::slice_subrange(input, cursor.offset, input.len());
    let decoded = bracketed_paste::decode_bracketed_paste_after_append(
        rest,
        new_input_in_rest(context, cursor),
    );
    match decoded {
        BracketedPasteDecode::Matched { size, body_start, body_end } => {
            proof {
                bracketed_paste::lemma_matched_paste_fits(
                    rest@,
                    rest_new_at(*context, cursor),
                );
            }
            if context.copy_mode {
                return LiveTurn {
                    cursor: past_item(cursor, size, cursor.forwarded),
                    effects: no_effects(),
                    next: LiveNext::Item,
                };
            }
            let mut effects = writes_of(cursor);
            let paste = LiveEffect::WritePaste {
                from: cursor.offset + body_start,
                to: cursor.offset + body_end,
            };
            proof {
                lemma_more_writes(
                    input@.len() as int,
                    cursor,
                    paste,
                    cursor.offset + size,
                );
            }
            effects.push(paste);
            LiveTurn { cursor: past_item(cursor, size, true), effects, next: LiveNext::Item }
        },
        BracketedPasteDecode::Partial => {
            proof {
                lemma_raw_writes(input@.len() as int, cursor, cursor.offset as int);
            }
            retain(cursor, RetainedInput::BracketedPaste)
        },
        BracketedPasteDecode::NotPaste => LiveTurn {
            cursor,
            effects: no_effects(),
            next: LiveNext::Kitty,
        },
    }
}

/// Goes on with what the kitty graphics decoder answered of the rest: a graphics
/// command, else a focus event or another terminal control.
pub fn scan_kitty(
    input: &[u8],
    context: &LiveContext,
    cursor: LiveCursor,
    decoded: KittyGraphicsApcDecode,
) -> (turn: LiveTurn)
    requires
        cursor.at_item(input@.len() as int),
        decoded matches KittyGraphicsApcDecode::Matched { size } ==> cursor.offset + size
            <= input@.len(),
    ensures
        turn@ == kitty_turn(input@, *context, cursor, decoded),
        sound_turn(input@.len() as int, done_with(input@.len() as int, cursor, LiveNext::Kitty), turn@),
        tells_forwarding(cursor, turn@),
{
    let ghost len = input@.len() as int;
    let rest = vstd::slice::slice_subrange(input, cursor.offset, input.len());
    match decoded {
        KittyGraphicsApcDecode::Matched { size } => {
            return write_item_to_target(input, cursor, size);
        },
        KittyGraphicsApcDecode::Partial => {
            proof {
                lemma_raw_writes(len, cursor, cursor.offset as int);
            }
            return retain(cursor, RetainedInput::KittyGraphics);
        },
        KittyGraphicsApcDecode::NotKittyGraphics => {},
    }
    match terminal_response::decode_focus_event(rest) {
        Some(event) => {
            let mut effects = writes_of(cursor);
            let ghost raw = effects@;
            if context.focus_events {
                effects.push(
                    LiveEffect::WriteTarget { from: cursor.offset, to: cursor.offset + 3 },
                );
            }
            let ghost before_event = effects@;
            effects.push(LiveEffect::ControlEvent(event));
            let forwarded = cursor.forwarded || cursor.raw_start < cursor.offset
                || context.focus_events;
            let after = past_item(cursor, 3, forwarded);
            proof {
                let target = LiveEffect::WriteTarget {
                    from: cursor.offset,
                    to: (cursor.offset + 3) as usize,
                };
                lemma_raw_writes(len, cursor, cursor.offset + 3);
                lemma_more_writes(len, cursor, target, cursor.offset + 3);
                lemma_silent_effect(
                    before_event,
                    LiveEffect::ControlEvent(event),
                    cursor.raw_start as int,
                    cursor.offset + 3,
                );
            }
            return LiveTurn { cursor: after, effects, next: reroute_or_go_on(after, input.len()) };
        },
        None => {},
    }
    scan_control(input, context, cursor)
}

proof fn lemma_silent_effect(effects: Seq<LiveEffect>, effect: LiveEffect, from: int, to: int)
    requires
        writes_in_order(effects, from, to),
        written_range(effect) is None,
    ensures
        writes_in_order(effects.push(effect), from, to),
        writes_something(effects.push(effect)) == writes_something(effects),
{
    let more = effects.push(effect);
    assert(more[effects.len() as int] == effect);
    assert forall|i: int| 0 <= i < effects.len() implies #[trigger] more[i] == effects[i] by {}
    if writes_something(effects) {
        let i = choose|i: int|
            0 <= i < effects.len() && written_range(#[trigger] effects[i]) is Some;
        assert(written_range(more[i]) is Some);
    }
}

fn write_item_to_target(input: &[u8], cursor: LiveCursor, size: usize) -> (turn: LiveTurn)
    requires
        cursor.within(input@.len() as int),
        cursor.offset + size <= input@.len(),
    ensures
        turn@ == (
            cursor.after_item(size as int, true),
            cursor.raw_writes().push(
                LiveEffect::WriteTarget {
                    from: cursor.offset,
                    to: (cursor.offset + size) as usize,
                },
            ),
            LiveNext::Item,
        ),
        sound_turn(input@.len() as int, cursor.raw_start as int, turn@),
        tells_forwarding(cursor, turn@),
{
    let len: usize = input.len();
    let mut effects = writes_of(cursor);
    let target = LiveEffect::WriteTarget { from: cursor.offset, to: cursor.offset + size };
    proof {
        lemma_more_writes(len as int, cursor, target, cursor.offset + size);
    }
    effects.push(target);
    LiveTurn { cursor: past_item(cursor, size, true), effects, next: LiveNext::Item }
}

fn scan_control(input: &[u8], context: &LiveContext, cursor: LiveCursor) -> (turn: LiveTurn)
    requires
        cursor.at_item(input@.len() as int),
    ensures
        turn@ == control_turn(input@, *context, cursor),
        sound_turn(input@.len() as int, done_with(input@.len() as int, cursor, LiveNext::Kitty), turn@),
        tells_forwarding(cursor, turn@),
{
    let ghost len = input@.len() as int;
    let rest = vstd::slice::slice_subrange(input, cursor.offset, input.len());
    let rest_len: usize = rest.len();
    proof {
        terminal_response::decoded_controls_lie_within_the_input(
            rest@,
            context.focus_events,
            rest_new_at(*context, cursor),
        );
    }
    match terminal_response::decode_attached_terminal_control_after_append(
        rest,
        context.focus_events,
        new_input_in_rest(context, cursor),
    ) {
        TerminalResponseDecode::Matched { size, event } => {
            let mut effects = writes_of(cursor);
            let after = past_item(
                cursor,
                size,
                cursor.forwarded || cursor.raw_start < cursor.offset,
            );
            proof {
                lemma_raw_writes(len, cursor, cursor.offset + size);
            }
            match event {
                Some(event) => {
                    proof {
                        lemma_silent_effect(
                            effects@,
                            LiveEffect::ControlEvent(event),
                            cursor.raw_start as int,
                            cursor.offset + size,
                        );
                    }
                    effects.push(LiveEffect::ControlEvent(event));
                    LiveTurn { cursor: after, effects, next: reroute_or_go_on(after, input.len()) }
                },
                None => LiveTurn { cursor: after, effects, next: LiveNext::Item },
            }
        },
        TerminalResponseDecode::PaneBound { size } => {
            write_item_to_target(input, cursor, size)
        },
        TerminalResponseDecode::Partial => {
            proof {
                lemma_raw_writes(len, cursor, cursor.offset as int);
            }
            retain(cursor, RetainedInput::TerminalResponse)
        },
        TerminalResponseDecode::NotResponse => LiveTurn {
            cursor,
            effects: no_effects(),
            next: LiveNext::MousePrefix,
        },
    }
}

/// Goes on with whether a mouse report begins at the cursor.
pub fn scan_mouse_prefix(input: &[u8], cursor: LiveCursor, begins: bool) -> (turn: LiveTurn)
    requires
        cursor.at_item(input@.len() as int),
    ensures
        turn@ == mouse_prefix_turn(cursor, begins),
        sound_turn(input@.len() as int, done_with(input@.len() as int, cursor, LiveNext::MousePrefix), turn@),
        tells_forwarding(cursor, turn@),
{
    if begins {
        proof {
            lemma_raw_writes(input@.len() as int, cursor, cursor.offset as int);
        }
        LiveTurn { cursor: written(cursor), effects: writes_of(cursor), next: LiveNext::Mouse }
    } else {
        LiveTurn { cursor, effects: no_effects(), next: LiveNext::ExtendedPrefix }
    }
}

/// Goes on with what the mouse decoder answered of the rest.
pub fn scan_mouse(input: &[u8], cursor: LiveCursor, decoded: MouseDecode) -> (turn: LiveTurn)
    requires
        cursor.at_item(input@.len() as int),
        match decoded {
            MouseDecode::Matched { size } => cursor.offset + size <= input@.len(),
            MouseDecode::Discard { size } => cursor.offset + size <= input@.len(),
            _ => true,
        },
    ensures
        turn@ == mouse_turn(input@.len() as int, cursor, decoded),
        sound_turn(input@.len() as int, done_with(input@.len() as int, cursor, LiveNext::Mouse), turn@),
        tells_forwarding(cursor, turn@),
{
    let len: usize = input.len();
    match decoded {
        MouseDecode::Matched { size } => {
            let after = past_item(cursor, size, cursor.forwarded);
            LiveTurn {
                cursor: after,
                effects: one_effect(LiveEffect::HandleMouse),
                next: reroute_or_go_on(after, len),
            }
        },
        MouseDecode::Discard { size } => LiveTurn {
            cursor: past_item(cursor, size, cursor.forwarded),
            effects: no_effects(),
            next: LiveNext::Item,
        },
        MouseDecode::Partial | MouseDecode::Overlong => LiveTurn {
            cursor,
            effects: no_effects(),
            next: LiveNext::Retain(RetainedInput::Mouse),
        },
        MouseDecode::Invalid => LiveTurn {
            cursor: LiveCursor {
                raw_start: cursor.offset,
                offset: cursor.offset + 1,
                forwarded: cursor.forwarded,
                prefix_keys: cursor.prefix_keys,
            },
            effects: no_effects(),
            next: LiveNext::Item,
        },
    }
}

/// Goes on with whether an extended key begins at the cursor.
pub fn scan_extended_prefix(input: &[u8], cursor: LiveCursor, begins: bool) -> (turn: LiveTurn)
    requires
        cursor.at_item(input@.len() as int),
    ensures
        turn@ == extended_prefix_turn(cursor, begins),
        sound_turn(input@.len() as int, done_with(input@.len() as int, cursor, LiveNext::ExtendedPrefix), turn@),
        tells_forwarding(cursor, turn@),
{
    if begins {
        proof {
            lemma_raw_writes(input@.len() as int, cursor, cursor.offset as int);
        }
        LiveTurn { cursor: written(cursor), effects: writes_of(cursor), next: LiveNext::Extended }
    } else {
        LiveTurn { cursor, effects: no_effects(), next: LiveNext::KeyTable }
    }
}

fn dispatch_key(
    len: usize,
    context: &LiveContext,
    cursor: LiveCursor,
    size: usize,
    key: KeyCode,
) -> (next: LiveNext)
    ensures
        next == handle_key(len as int, *context, cursor, size, key),
{
    if let Some(event) = context.console_key {
        if cursor.raw_start == 0 && cursor.offset == 0 && size == len && size == context.step_len {
            return LiveNext::HandleKey {
                size,
                key: keys::windows_console_binding_key(key, event),
                forward: KeyForward::Console(event),
            };
        }
    }
    if let Some(control_d) = context.control_d {
        if control_d == key {
            return LiveNext::HandleKey { size, key, forward: KeyForward::ConsoleControlD };
        }
    }
    LiveNext::HandleKey { size, key, forward: KeyForward::Plain }
}

/// Goes on with what the extended-key decoder answered of the rest.
pub fn scan_extended(
    input: &[u8],
    context: &LiveContext,
    cursor: LiveCursor,
    decoded: ExtendedKeyDecode,
) -> (turn: LiveTurn)
    requires
        cursor.at_item(input@.len() as int),
        decoded matches ExtendedKeyDecode::Matched { size, .. } ==> cursor.offset + size
            <= input@.len(),
    ensures
        turn@ == extended_turn(input@.len() as int, *context, cursor, decoded),
        sound_turn(input@.len() as int, done_with(input@.len() as int, cursor, LiveNext::Extended), turn@),
        tells_forwarding(cursor, turn@),
{
    match decoded {
        ExtendedKeyDecode::Matched { size, key } => LiveTurn {
            cursor,
            effects: no_effects(),
            next: if cursor.raw_start < cursor.offset {
                LiveNext::Enter { size, key, extended: true }
            } else {
                dispatch_key(input.len(), context, cursor, size, key)
            },
        },
        ExtendedKeyDecode::Partial => LiveTurn {
            cursor,
            effects: no_effects(),
            next: LiveNext::Retain(RetainedInput::ExtendedKey),
        },
        ExtendedKeyDecode::Invalid => LiveTurn {
            cursor: LiveCursor {
                raw_start: cursor.offset,
                offset: cursor.offset,
                forwarded: cursor.forwarded,
                prefix_keys: cursor.prefix_keys,
            },
            effects: no_effects(),
            next: LiveNext::KeyTable,
        },
    }
}

/// Goes on with whether the client has a key table active.
pub fn scan_key_table(
    input: &[u8],
    context: &LiveContext,
    cursor: LiveCursor,
    active: bool,
) -> (turn: LiveTurn)
    requires
        cursor.at_item(input@.len() as int),
    ensures
        turn@ == key_table_turn(input@, *context, cursor, active),
        sound_turn(input@.len() as int, done_with(input@.len() as int, cursor, LiveNext::KeyTable), turn@),
        tells_forwarding(cursor, turn@),
{
    let first: u8 = input[cursor.offset];
    if active || context.copy_mode || first < 0x20 || first == 0x7f {
        return LiveTurn { cursor, effects: no_effects(), next: LiveNext::Key };
    }
    match cursor.prefix_keys {
        Some(prefix_keys) => scan_prefix_keys(input, cursor, prefix_keys),
        None => LiveTurn { cursor, effects: no_effects(), next: LiveNext::PrefixKeys },
    }
}

/// Goes on with the session's prefix keys.
pub fn scan_prefix_keys(input: &[u8], cursor: LiveCursor, prefix_keys: PrefixKeys) -> (turn:
    LiveTurn)
    requires
        cursor.at_item(input@.len() as int),
    ensures
        turn@ == prefix_keys_turn(input@, cursor, prefix_keys),
        sound_turn(input@.len() as int, done_with(input@.len() as int, cursor, LiveNext::PrefixKeys), turn@),
        tells_forwarding(cursor, turn@),
{
    let known = LiveCursor {
        raw_start: cursor.raw_start,
        offset: cursor.offset,
        forwarded: cursor.forwarded,
        prefix_keys: Some(prefix_keys),
    };
    let rest = vstd::slice::slice_subrange(input, cursor.offset, input.len());
    if rest[0] < 0x80 {
        return LiveTurn { cursor: known, effects: no_effects(), next: LiveNext::PrefixKey };
    }
    match keys::decode_utf8_char(rest) {
        Some((scalar, size)) => {
            if keys::matches_prefix_key(scalar as u64, prefix_keys.prefix, prefix_keys.prefix2) {
                LiveTurn { cursor: known, effects: no_effects(), next: LiveNext::Key }
            } else {
                LiveTurn {
                    cursor: grow(known, size),
                    effects: no_effects(),
                    next: LiveNext::Item,
                }
            }
        },
        None => {
            if keys::is_utf8_lead_byte(rest[0]) && rest.len() < keys::utf8_expected_len(rest[0]) {
                proof {
                    lemma_raw_writes(input@.len() as int, known, known.offset as int);
                }
                retain(known, RetainedInput::Utf8)
            } else {
                LiveTurn { cursor: grow(known, 1), effects: no_effects(), next: LiveNext::Item }
            }
        },
    }
}

/// Goes on with what the key decoder, with no backspace configured, answered of
/// printable ASCII input.
pub fn scan_prefix_key(
    input: &[u8],
    cursor: LiveCursor,
    prefix_keys: PrefixKeys,
    decoded: AttachedKeyDecode,
) -> (turn: LiveTurn)
    requires
        cursor.at_item(input@.len() as int),
    ensures
        turn@ == prefix_key_turn(input@, cursor, prefix_keys, decoded),
        sound_turn(input@.len() as int, done_with(input@.len() as int, cursor, LiveNext::PrefixKey), turn@),
        tells_forwarding(cursor, turn@),
{
    let rest = vstd::slice::slice_subrange(input, cursor.offset, input.len());
    if keys::first_input_key_matches_prefix(
        rest,
        decoded,
        prefix_keys.prefix,
        prefix_keys.prefix2,
    ) {
        LiveTurn { cursor, effects: no_effects(), next: LiveNext::Key }
    } else {
        LiveTurn { cursor: grow(cursor, 1), effects: no_effects(), next: LiveNext::Item }
    }
}

/// Goes on with what the key decoder answered of the rest.
pub fn scan_key(
    input: &[u8],
    context: &LiveContext,
    cursor: LiveCursor,
    decoded: AttachedKeyDecode,
) -> (turn: LiveTurn)
    requires
        cursor.at_item(input@.len() as int),
        decoded matches AttachedKeyDecode::Matched { size, .. } ==> cursor.offset + size
            <= input@.len(),
    ensures
        turn@ == key_turn(input@, *context, cursor, decoded),
        sound_turn(input@.len() as int, done_with(input@.len() as int, cursor, LiveNext::Key), turn@),
        tells_forwarding(cursor, turn@),
{
    let rest = vstd::slice::slice_subrange(input, cursor.offset, input.len());
    match keys::decode_live_attached_key(rest, decoded) {
        AttachedKeyDecode::Matched { size, key } => LiveTurn {
            cursor,
            effects: no_effects(),
            next: if cursor.raw_start < cursor.offset {
                LiveNext::Enter { size, key, extended: false }
            } else {
                dispatch_key(input.len(), context, cursor, size, key)
            },
        },
        AttachedKeyDecode::Partial => {
            proof {
                lemma_raw_writes(input@.len() as int, cursor, cursor.offset as int);
            }
            retain(cursor, RetainedInput::AttachedKey)
        },
        AttachedKeyDecode::Invalid => LiveTurn {
            cursor: grow(cursor, 1),
            effects: no_effects(),
            next: LiveNext::Item,
        },
    }
}

/// Goes on with whether the key that ends a run of plain bytes is Enter.
pub fn scan_enter(
    input: &[u8],
    context: &LiveContext,
    cursor: LiveCursor,
    size: usize,
    key: KeyCode,
    extended: bool,
    enter: bool,
) -> (turn: LiveTurn)
    requires
        cursor.at_item(input@.len() as int),
        cursor.has_raw(),
    ensures
        turn@ == enter_turn(input@.len() as int, *context, cursor, size, key, extended, enter),
        sound_turn(
            input@.len() as int,
            done_with(input@.len() as int, cursor, LiveNext::Enter { size, key, extended }),
            turn@,
        ),
        tells_forwarding(cursor, turn@),
{
    let next = dispatch_key(input.len(), context, cursor, size, key);
    let mut effects = no_effects();
    if enter {
        effects.push(LiveEffect::RecordSubmitted { from: cursor.raw_start, to: cursor.offset });
        assert(effects@ =~= seq![
            LiveEffect::RecordSubmitted { from: cursor.raw_start, to: cursor.offset },
        ]);
    }
    if extended {
        assert(effects@ =~= if enter {
            seq![LiveEffect::RecordSubmitted { from: cursor.raw_start, to: cursor.offset }]
        } else {
            Seq::empty()
        });
        return LiveTurn { cursor, effects, next };
    }
    let ghost recorded = effects@;
    let write = LiveEffect::WriteInput { from: cursor.raw_start, to: cursor.offset };
    effects.push(write);
    assert(effects@ =~= recorded + cursor.raw_writes());
    assert(written_range(effects@[recorded.len() as int]) is Some);
    LiveTurn { cursor: written(cursor), effects, next }
}

/// Goes on once a key of `size` bytes was handled, `handled` where a binding
/// took it.
pub fn scan_key_handled(input: &[u8], cursor: LiveCursor, size: usize, handled: bool) -> (turn:
    LiveTurn)
    requires
        cursor.at_item(input@.len() as int),
        cursor.offset + size <= input@.len(),
    ensures
        turn@ == key_handled_turn(input@.len() as int, cursor, size, handled),
        sound_turn(input@.len() as int, cursor.offset as int, turn@),
        turn.cursor.forwarded == (cursor.forwarded || !handled),
{
    let len: usize = input.len();
    let after = past_item(cursor, size, cursor.forwarded || !handled);
    let next = if handled && after.offset < len {
        LiveNext::Reroute { from: after.offset }
    } else {
        LiveNext::Prompt
    };
    LiveTurn { cursor: after, effects: no_effects(), next }
}

/// Goes on with whether a prompt opened while a key was handled.
pub fn scan_prompt(input: &[u8], cursor: LiveCursor, open: bool) -> (turn: LiveTurn)
    requires
        cursor.within(input@.len() as int),
    ensures
        sound_turn(
            input@.len() as int,
            done_with(input@.len() as int, cursor, LiveNext::Prompt),
            turn@,
        ),
        tells_forwarding(cursor, turn@),
        turn@ == prompt_turn(cursor, open),
{
    let next = if open {
        LiveNext::FinalPrompt
    } else {
        LiveNext::Item
    };
    LiveTurn { cursor, effects: no_effects(), next }
}

/// Ends the scan, `prompt` where a prompt is open now.
pub fn scan_final_prompt(input: &[u8], cursor: LiveCursor, prompt: bool) -> (turn: LiveTurn)
    requires
        cursor.within(input@.len() as int),
    ensures
        turn@ == final_turn(input@.len() as int, cursor, prompt),
        sound_turn(input@.len() as int, done_with(input@.len() as int, cursor, LiveNext::FinalPrompt), turn@),
        tells_forwarding(cursor, turn@),
{
    let len: usize = input.len();
    if cursor.raw_start >= len {
        return LiveTurn { cursor, effects: no_effects(), next: LiveNext::Complete };
    }
    if prompt {
        return LiveTurn {
            cursor,
            effects: no_effects(),
            next: LiveNext::Reroute { from: cursor.raw_start },
        };
    }
    let effects = one_effect(LiveEffect::WriteInput { from: cursor.raw_start, to: len });
    assert(written_range(effects@[0]) is Some);
    LiveTurn {
        cursor: LiveCursor {
            raw_start: cursor.raw_start,
            offset: cursor.offset,
            forwarded: true,
            prefix_keys: cursor.prefix_keys,
        },
        effects,
        next: LiveNext::Complete,
    }
}

/// What the scan is told.
#[derive(Debug, Clone, Copy, PartialEq, Eq, Structural)]
pub enum LiveAnswer {
    /// Nothing was asked.
    Nothing,
    Kitty(KittyGraphicsApcDecode),
    MousePrefix(bool),
    Mouse(MouseDecode),
    ExtendedPrefix(bool),
    Extended(ExtendedKeyDecode),
    KeyTable(bool),
    PrefixKeys(PrefixKeys),
    PrefixKey(AttachedKeyDecode),
    Key(AttachedKeyDecode),
    Enter(bool),
    /// The key was handled, `true` where a binding took it.
    Handled(bool),
    Prompt(bool),
}

/// The scan waits for nothing more.
pub open spec fn scan_is_over(next: LiveNext) -> bool {
    next is Retain || next is Reroute || next is Complete
}

/// The cursor stands where a scan that waits for `next` has it.
pub open spec fn scan_stands(len: int, cursor: LiveCursor, next: LiveNext) -> bool {
    match next {
        LiveNext::Item | LiveNext::Prompt | LiveNext::FinalPrompt | LiveNext::Complete =>
            cursor.within(len),
        LiveNext::Reroute { from } => cursor.within(len) && from < len,
        LiveNext::PrefixKey => cursor.at_item(len) && cursor.prefix_keys is Some,
        LiveNext::Enter { size, .. } => cursor.at_item(len) && cursor.has_raw() && cursor.offset
            + size <= len,
        LiveNext::HandleKey { size, .. } => cursor.at_item(len) && cursor.offset + size <= len,
        _ => cursor.at_item(len),
    }
}

/// The scan that waits for `next` can go on with `answer`: it is of the kind that
/// was asked for, and what was decoded lies within the input.
pub open spec fn answers(len: int, cursor: LiveCursor, next: LiveNext, answer: LiveAnswer) -> bool {
    match (next, answer) {
        (LiveNext::Item, LiveAnswer::Nothing) => true,
        (LiveNext::Kitty, LiveAnswer::Kitty(KittyGraphicsApcDecode::Matched { size })) =>
            cursor.offset + size <= len,
        (LiveNext::Kitty, LiveAnswer::Kitty(_)) => true,
        (LiveNext::MousePrefix, LiveAnswer::MousePrefix(_)) => true,
        (LiveNext::Mouse, LiveAnswer::Mouse(MouseDecode::Matched { size })) => cursor.offset + size
            <= len,
        (LiveNext::Mouse, LiveAnswer::Mouse(MouseDecode::Discard { size })) => cursor.offset + size
            <= len,
        (LiveNext::Mouse, LiveAnswer::Mouse(_)) => true,
        (LiveNext::ExtendedPrefix, LiveAnswer::ExtendedPrefix(_)) => true,
        (LiveNext::Extended, LiveAnswer::Extended(ExtendedKeyDecode::Matched { size, .. })) =>
            cursor.offset + size <= len,
        (LiveNext::Extended, LiveAnswer::Extended(_)) => true,
        (LiveNext::KeyTable, LiveAnswer::KeyTable(_)) => true,
        (LiveNext::PrefixKeys, LiveAnswer::PrefixKeys(_)) => true,
        (LiveNext::PrefixKey, LiveAnswer::PrefixKey(_)) => true,
        (LiveNext::Key, LiveAnswer::Key(AttachedKeyDecode::Matched { size, .. })) => cursor.offset
            + size <= len,
        (LiveNext::Key, LiveAnswer::Key(_)) => true,
        (LiveNext::Enter { .. }, LiveAnswer::Enter(_)) => true,
        (LiveNext::HandleKey { .. }, LiveAnswer::Handled(_)) => true,
        (LiveNext::Prompt, LiveAnswer::Prompt(_)) => true,
        (LiveNext::FinalPrompt, LiveAnswer::Prompt(_)) => true,
        _ => false,
    }
}

/// The move of a scan that waited for `next` on `answer`.
pub open spec fn scan_turn(
    input: Seq<u8>,
    context: LiveContext,
    cursor: LiveCursor,
    next: LiveNext,
    answer: LiveAnswer,
) -> TurnModel {
    let len = input.len() as int;
    match (next, answer) {
        (LiveNext::Item, LiveAnswer::Nothing) => item_turn(input, context, cursor),
        (LiveNext::Kitty, LiveAnswer::Kitty(decoded)) => kitty_turn(
            input,
            context,
            cursor,
            decoded,
        ),
        (LiveNext::MousePrefix, LiveAnswer::MousePrefix(begins)) => mouse_prefix_turn(
            cursor,
            begins,
        ),
        (LiveNext::Mouse, LiveAnswer::Mouse(decoded)) => mouse_turn(len, cursor, decoded),
        (LiveNext::ExtendedPrefix, LiveAnswer::ExtendedPrefix(begins)) => extended_prefix_turn(
            cursor,
            begins,
        ),
        (LiveNext::Extended, LiveAnswer::Extended(decoded)) => extended_turn(
            len,
            context,
            cursor,
            decoded,
        ),
        (LiveNext::KeyTable, LiveAnswer::KeyTable(active)) => key_table_turn(
            input,
            context,
            cursor,
            active,
        ),
        (LiveNext::PrefixKeys, LiveAnswer::PrefixKeys(prefix_keys)) => prefix_keys_turn(
            input,
            cursor,
            prefix_keys,
        ),
        (LiveNext::PrefixKey, LiveAnswer::PrefixKey(decoded)) => prefix_key_turn(
            input,
            cursor,
            cursor.prefix_keys->0,
            decoded,
        ),
        (LiveNext::Key, LiveAnswer::Key(decoded)) => key_turn(input, context, cursor, decoded),
        (LiveNext::Enter { size, key, extended }, LiveAnswer::Enter(enter)) => enter_turn(
            len,
            context,
            cursor,
            size,
            key,
            extended,
            enter,
        ),
        (LiveNext::HandleKey { size, .. }, LiveAnswer::Handled(handled)) => key_handled_turn(
            len,
            cursor,
            size,
            handled,
        ),
        (LiveNext::Prompt, LiveAnswer::Prompt(open)) => prompt_turn(cursor, open),
        (LiveNext::FinalPrompt, LiveAnswer::Prompt(open)) => final_turn(len, cursor, open),
        _ => (cursor, Seq::empty(), next),
    }
}

/// Goes on with a scan that waited for `next`, now that it is told `answer`.
pub fn scan_next(
    input: &[u8],
    context: &LiveContext,
    cursor: LiveCursor,
    next: LiveNext,
    answer: LiveAnswer,
) -> (turn: LiveTurn)
    requires
        scan_stands(input@.len() as int, cursor, next),
        answers(input@.len() as int, cursor, next, answer),
    ensures
        turn@ == scan_turn(input@, *context, cursor, next, answer),
        scan_stands(input@.len() as int, turn.cursor, turn.next),
        sound_turn(input@.len() as int, done_with(input@.len() as int, cursor, next), turn@),
{
    let len: usize = input.len();
    proof {
        assert(len == input@.len());
        lemma_scan_goes_on(input@, *context, cursor, next, answer);
    }
    match (next, answer) {
        (LiveNext::Kitty, LiveAnswer::Kitty(decoded)) => scan_kitty(input, context, cursor, decoded),
        (LiveNext::MousePrefix, LiveAnswer::MousePrefix(begins)) => scan_mouse_prefix(
            input,
            cursor,
            begins,
        ),
        (LiveNext::Mouse, LiveAnswer::Mouse(decoded)) => scan_mouse(input, cursor, decoded),
        (LiveNext::ExtendedPrefix, LiveAnswer::ExtendedPrefix(begins)) => scan_extended_prefix(
            input,
            cursor,
            begins,
        ),
        (LiveNext::Extended, LiveAnswer::Extended(decoded)) => scan_extended(
            input,
            context,
            cursor,
            decoded,
        ),
        (LiveNext::KeyTable, LiveAnswer::KeyTable(active)) => scan_key_table(
            input,
            context,
            cursor,
            active,
        ),
        (LiveNext::PrefixKeys, LiveAnswer::PrefixKeys(prefix_keys)) => scan_prefix_keys(
            input,
            cursor,
            prefix_keys,
        ),
        (LiveNext::PrefixKey, LiveAnswer::PrefixKey(decoded)) => {
            let known = match cursor.prefix_keys {
                Some(prefix_keys) => prefix_keys,
                None => PrefixKeys { prefix: None, prefix2: None },
            };
            scan_prefix_key(input, cursor, known, decoded)
        },
        (LiveNext::Key, LiveAnswer::Key(decoded)) => scan_key(input, context, cursor, decoded),
        (LiveNext::Enter { size, key, extended }, LiveAnswer::Enter(enter)) => scan_enter(
            input,
            context,
            cursor,
            size,
            key,
            extended,
            enter,
        ),
        (LiveNext::HandleKey { size, .. }, LiveAnswer::Handled(handled)) => scan_key_handled(
            input,
            cursor,
            size,
            handled,
        ),
        (LiveNext::Prompt, LiveAnswer::Prompt(open)) => scan_prompt(input, cursor, open),
        (LiveNext::FinalPrompt, LiveAnswer::Prompt(open)) => scan_final_prompt(input, cursor, open),
        _ => scan_item(input, context, cursor),
    }
}

proof fn lemma_item_goes_on(input: Seq<u8>, context: LiveContext, cursor: LiveCursor)
    requires
        input.len() <= usize::MAX,
        cursor.within(input.len() as int),
    ensures
        ({
            let len = input.len() as int;
            let turn = item_turn(input, context, cursor);
            scan_stands(len, turn.0, turn.2) && sound_turn(len, cursor.raw_start as int, turn)
        }),
        comes_nearer(input.len() as int, cursor, LiveNext::Item, item_turn(input, context, cursor)),
{
    if cursor.offset < input.len() {
        let len = input.len() as int;
        let rest = rest_of(input, cursor);
        let at = rest_new_at(context, cursor);
        bracketed_paste::lemma_matched_paste_fits(rest, at);
        lemma_raw_writes(len, cursor, cursor.offset as int);
        if let BracketedPasteDecode::Matched { size, body_start, body_end } =
            bracketed_paste::paste_decode(rest, at) {
            let paste = LiveEffect::WritePaste {
                from: (cursor.offset + body_start) as usize,
                to: (cursor.offset + body_end) as usize,
            };
            lemma_more_writes(len, cursor, paste, cursor.offset + size);
        }
    }
}

proof fn lemma_target_write_goes_on(len: int, cursor: LiveCursor, size: int)
    requires
        cursor.at_item(len),
        0 <= size,
        cursor.offset + size <= len <= usize::MAX,
    ensures
        ({
            let write = LiveEffect::WriteTarget {
                from: cursor.offset,
                to: (cursor.offset + size) as usize,
            };
            let turn = (
                cursor.after_item(size, true),
                cursor.raw_writes().push(write),
                LiveNext::Item,
            );
            scan_stands(len, turn.0, turn.2) && sound_turn(len, cursor.raw_start as int, turn)
        }),
{
    let write = LiveEffect::WriteTarget {
        from: cursor.offset,
        to: (cursor.offset + size) as usize,
    };
    lemma_more_writes(len, cursor, write, cursor.offset + size);
}

proof fn lemma_kitty_goes_on(
    input: Seq<u8>,
    context: LiveContext,
    cursor: LiveCursor,
    decoded: KittyGraphicsApcDecode,
)
    requires
        input.len() <= usize::MAX,
        cursor.at_item(input.len() as int),
        decoded matches KittyGraphicsApcDecode::Matched { size } ==> cursor.offset + size
            <= input.len(),
    ensures
        ({
            let len = input.len() as int;
            let turn = kitty_turn(input, context, cursor, decoded);
            scan_stands(len, turn.0, turn.2) && sound_turn(len, cursor.raw_start as int, turn)
        }),
        (decoded matches KittyGraphicsApcDecode::Matched { size } ==> size > 0) ==> comes_nearer(
            input.len() as int,
            cursor,
            LiveNext::Kitty,
            kitty_turn(input, context, cursor, decoded),
        ),
{
    let len = input.len() as int;
    let rest = rest_of(input, cursor);
    let at = rest_new_at(context, cursor);
    lemma_raw_writes(len, cursor, cursor.offset as int);
    match decoded {
        KittyGraphicsApcDecode::Matched { size } => {
            lemma_target_write_goes_on(len, cursor, size as int);
        },
        KittyGraphicsApcDecode::Partial => {},
        KittyGraphicsApcDecode::NotKittyGraphics => {
            match terminal_response::focus_event(rest) {
                Some(event) => {
                    let to = cursor.offset + 3;
                    let target = LiveEffect::WriteTarget { from: cursor.offset, to: to as usize };
                    let told = LiveEffect::ControlEvent(event);
                    lemma_raw_writes(len, cursor, to);
                    lemma_more_writes(len, cursor, target, to);
                    lemma_silent_effect(cursor.raw_writes(), told, cursor.raw_start as int, to);
                    lemma_silent_effect(
                        cursor.raw_writes().push(target),
                        told,
                        cursor.raw_start as int,
                        to,
                    );
                },
                None => {
                    terminal_response::decoded_controls_lie_within_the_input(
                        rest,
                        context.focus_events,
                        at,
                    );
                    match terminal_response::attached_control_decode(
                        rest,
                        context.focus_events,
                        at,
                    ) {
                        TerminalResponseDecode::Matched { size, event } => {
                            lemma_raw_writes(len, cursor, cursor.offset + size);
                            if let Some(event) = event {
                                lemma_silent_effect(
                                    cursor.raw_writes(),
                                    LiveEffect::ControlEvent(event),
                                    cursor.raw_start as int,
                                    cursor.offset + size,
                                );
                            }
                        },
                        TerminalResponseDecode::PaneBound { size } => {
                            lemma_target_write_goes_on(len, cursor, size as int);
                        },
                        _ => {},
                    }
                },
            }
        },
    }
}

proof fn lemma_key_goes_on(
    input: Seq<u8>,
    context: LiveContext,
    cursor: LiveCursor,
    decoded: AttachedKeyDecode,
)
    requires
        input.len() <= usize::MAX,
        cursor.at_item(input.len() as int),
        decoded matches AttachedKeyDecode::Matched { size, .. } ==> cursor.offset + size
            <= input.len(),
    ensures
        ({
            let len = input.len() as int;
            let turn = key_turn(input, context, cursor, decoded);
            scan_stands(len, turn.0, turn.2) && sound_turn(len, cursor.raw_start as int, turn)
        }),
        comes_nearer(
            input.len() as int,
            cursor,
            LiveNext::Key,
            key_turn(input, context, cursor, decoded),
        ),
{
    let rest = rest_of(input, cursor);
    lemma_raw_writes(input.len() as int, cursor, cursor.offset as int);
    keys::lemma_live_key_fits(rest, decoded);
}

proof fn lemma_scan_goes_on(
    input: Seq<u8>,
    context: LiveContext,
    cursor: LiveCursor,
    next: LiveNext,
    answer: LiveAnswer,
)
    requires
        input.len() <= usize::MAX,
        scan_stands(input.len() as int, cursor, next),
        answers(input.len() as int, cursor, next, answer),
    ensures
        ({
            let len = input.len() as int;
            let turn = scan_turn(input, context, cursor, next, answer);
            scan_stands(len, turn.0, turn.2) && sound_turn(len, done_with(len, cursor, next), turn)
        }),
        takes_some(answer) && takes_some_key(next) ==> comes_nearer(
            input.len() as int,
            cursor,
            next,
            scan_turn(input, context, cursor, next, answer),
        ),
{
    let len = input.len() as int;
    lemma_raw_writes(len, cursor, cursor.offset as int);
    match (next, answer) {
        (LiveNext::Item, _) => {
            lemma_item_goes_on(input, context, cursor);
        },
        (LiveNext::Kitty, LiveAnswer::Kitty(decoded)) => {
            lemma_kitty_goes_on(input, context, cursor, decoded);
        },
        (LiveNext::KeyTable, LiveAnswer::KeyTable(_)) => {
            if let Some(prefix_keys) = cursor.prefix_keys {
                lemma_prefix_keys_go_on(input, cursor, prefix_keys);
            }
        },
        (LiveNext::PrefixKeys, LiveAnswer::PrefixKeys(prefix_keys)) => {
            lemma_prefix_keys_go_on(input, cursor, prefix_keys);
        },
        (LiveNext::Key, LiveAnswer::Key(decoded)) => {
            lemma_key_goes_on(input, context, cursor, decoded);
        },
        (LiveNext::FinalPrompt, LiveAnswer::Prompt(_)) => {},
        _ => {},
    }
}

proof fn lemma_prefix_keys_go_on(input: Seq<u8>, cursor: LiveCursor, prefix_keys: PrefixKeys)
    requires
        input.len() <= usize::MAX,
        cursor.at_item(input.len() as int),
    ensures
        ({
            let len = input.len() as int;
            let turn = prefix_keys_turn(input, cursor, prefix_keys);
            scan_stands(len, turn.0, turn.2) && sound_turn(len, cursor.raw_start as int, turn)
        }),
        comes_nearer(
            input.len() as int,
            cursor,
            LiveNext::PrefixKeys,
            prefix_keys_turn(input, cursor, prefix_keys),
        ),
{
    let known = LiveCursor { prefix_keys: Some(prefix_keys), ..cursor };
    lemma_raw_writes(input.len() as int, known, known.offset as int);
    keys::lemma_first_scalar_fits(rest_of(input, cursor));
}

/// What is asked of one item, in the order in which it is asked.
pub open spec fn questions_left(next: LiveNext) -> nat {
    match next {
        LiveNext::Prompt => 13,
        LiveNext::Item => 12,
        LiveNext::Kitty => 11,
        LiveNext::MousePrefix => 10,
        LiveNext::Mouse => 9,
        LiveNext::ExtendedPrefix => 9,
        LiveNext::Extended => 8,
        LiveNext::KeyTable => 7,
        LiveNext::PrefixKeys => 6,
        LiveNext::PrefixKey => 5,
        LiveNext::Key => 4,
        LiveNext::Enter { .. } => 3,
        LiveNext::HandleKey { .. } => 2,
        LiveNext::FinalPrompt => 1,
        _ => 0,
    }
}

/// The move leaves less of the input, or less to ask of the same item.
pub open spec fn comes_nearer(
    len: int,
    cursor: LiveCursor,
    next: LiveNext,
    turn: TurnModel,
) -> bool {
    ||| cursor.offset < turn.0.offset <= len
    ||| cursor.offset == turn.0.offset && questions_left(turn.2) < questions_left(next)
}

/// What was decoded takes at least a byte.
pub open spec fn takes_some(answer: LiveAnswer) -> bool {
    match answer {
        LiveAnswer::Kitty(KittyGraphicsApcDecode::Matched { size }) => size > 0,
        LiveAnswer::Mouse(MouseDecode::Matched { size }) => size > 0,
        LiveAnswer::Mouse(MouseDecode::Discard { size }) => size > 0,
        _ => true,
    }
}

/// A key that is to be handled takes at least a byte.
pub open spec fn takes_some_key(next: LiveNext) -> bool {
    next matches LiveNext::HandleKey { size, .. } ==> size > 0
}

/// A scan comes to its end: each move leaves less of the input, or less to ask of
/// the same item.
pub proof fn a_scan_comes_to_its_end(
    input: Seq<u8>,
    context: LiveContext,
    cursor: LiveCursor,
    next: LiveNext,
    answer: LiveAnswer,
)
    requires
        input.len() <= usize::MAX,
        scan_stands(input.len() as int, cursor, next),
        answers(input.len() as int, cursor, next, answer),
        takes_some(answer),
        takes_some_key(next),
    ensures
        comes_nearer(
            input.len() as int,
            cursor,
            next,
            scan_turn(input, context, cursor, next, answer),
        ),
{
    lemma_scan_goes_on(input, context, cursor, next, answer);
}

/// The moves of a scan that is told `told`, one answer after the other.
pub open spec fn scan_run(
    input: Seq<u8>,
    context: LiveContext,
    cursor: LiveCursor,
    next: LiveNext,
    told: Seq<LiveAnswer>,
) -> Seq<TurnModel>
    decreases told.len(),
{
    if told.len() == 0 {
        Seq::empty()
    } else {
        let turn = scan_turn(input, context, cursor, next, told[0]);
        seq![turn] + scan_run(
            input,
            context,
            turn.0,
            turn.2,
            told.subrange(1, told.len() as int),
        )
    }
}

/// Each answer is one that the scan can go on with.
pub open spec fn run_is_answered(
    input: Seq<u8>,
    context: LiveContext,
    cursor: LiveCursor,
    next: LiveNext,
    told: Seq<LiveAnswer>,
) -> bool
    decreases told.len(),
{
    told.len() > 0 ==> {
        let turn = scan_turn(input, context, cursor, next, told[0]);
        answers(input.len() as int, cursor, next, told[0]) && run_is_answered(
            input,
            context,
            turn.0,
            turn.2,
            told.subrange(1, told.len() as int),
        )
    }
}

/// Whatever a scan is told, it sends bytes of its input in input order, and none
/// twice.
pub proof fn a_scan_sends_in_order_and_once(
    input: Seq<u8>,
    context: LiveContext,
    cursor: LiveCursor,
    next: LiveNext,
    told: Seq<LiveAnswer>,
)
    requires
        input.len() <= usize::MAX,
        scan_stands(input.len() as int, cursor, next),
        run_is_answered(input, context, cursor, next, told),
    ensures
        writes_in_order(
            all_effects(scan_run(input, context, cursor, next, told)),
            done_with(input.len() as int, cursor, next),
            input.len() as int,
        ),
    decreases told.len(),
{
    let len = input.len() as int;
    let run = scan_run(input, context, cursor, next, told);
    if told.len() > 0 {
        let turn = scan_turn(input, context, cursor, next, told[0]);
        let rest = told.subrange(1, told.len() as int);
        lemma_scan_goes_on(input, context, cursor, next, told[0]);
        a_scan_sends_in_order_and_once(input, context, turn.0, turn.2, rest);
        let later = scan_run(input, context, turn.0, turn.2, rest);
        assert(run.subrange(1, run.len() as int) =~= later);
        lemma_writes_follow(
            turn.1,
            all_effects(later),
            done_with(len, cursor, next),
            done_with(len, turn.0, turn.2),
            len,
        );
    }
}

/// With a key table active no byte is taken as plain text: the scan goes on to the
/// key at the cursor, whatever stands there, with the cursor where it was and nothing
/// sent. In copy mode, and at a control character, it does so without a table too.
pub proof fn an_active_key_table_takes_the_next_key(
    input: Seq<u8>,
    context: LiveContext,
    cursor: LiveCursor,
    active: bool,
)
    requires
        active || context.copy_mode || input[cursor.offset as int] < 0x20
            || input[cursor.offset as int] == 0x7f,
    ensures
        ({
            let turn = scan_turn(
                input,
                context,
                cursor,
                LiveNext::KeyTable,
                LiveAnswer::KeyTable(active),
            );
            turn.0 == cursor && turn.1.len() == 0 && turn.2 is Key
        }),
{
}

/// What `scan_key_table` does for a client with a key table active.
pub proof fn scan_key_table_hands_the_key_on(
    input: &[u8],
    context: LiveContext,
    cursor: LiveCursor,
    turn: LiveTurn,
)
    requires
        call_ensures(scan_key_table, (input, &context, cursor, true), turn),
    ensures
        turn.cursor == cursor,
        turn.effects@.len() == 0,
        turn.next is Key,
{
}

/// Without a key table, outside copy mode, what is no control character is looked at
/// for a prefix key first, and asked for as a key only where it is one.
pub proof fn without_a_key_table_text_is_no_key(
    input: Seq<u8>,
    context: LiveContext,
    cursor: LiveCursor,
    prefix_keys: PrefixKeys,
)
    requires
        cursor.offset < input.len(),
        !context.copy_mode,
        0x20 <= input[cursor.offset as int] < 0x7f,
    ensures
        ({
            let turn = scan_turn(
                input,
                context,
                LiveCursor { prefix_keys: None, ..cursor },
                LiveNext::KeyTable,
                LiveAnswer::KeyTable(false),
            );
            turn.0 == LiveCursor { prefix_keys: None, ..cursor } && turn.1.len() == 0
                && turn.2 is PrefixKeys
        }),
        ({
            let known = LiveCursor { prefix_keys: Some(prefix_keys), ..cursor };
            let turn = scan_turn(
                input,
                context,
                known,
                LiveNext::KeyTable,
                LiveAnswer::KeyTable(false),
            );
            turn.0 == known && turn.1.len() == 0 && turn.2 is PrefixKey
        }),
        ({
            let known = LiveCursor { prefix_keys: Some(prefix_keys), ..cursor };
            let turn = scan_turn(
                input,
                context,
                cursor,
                LiveNext::PrefixKeys,
                LiveAnswer::PrefixKeys(prefix_keys),
            );
            turn.0 == known && turn.1.len() == 0 && turn.2 is PrefixKey
        }),
{
}

/// At printable ASCII input the scan asks for the key where a prefix key was decoded,
/// either of the two, and else takes exactly one more byte as text; nothing is sent.
pub proof fn a_prefix_key_is_a_key_and_another_is_text(
    input: Seq<u8>,
    context: LiveContext,
    cursor: LiveCursor,
    size: usize,
    key: KeyCode,
    other: Option<KeyCode>,
)
    requires
        cursor.offset < input.len() <= usize::MAX,
    ensures
        ({
            let known = LiveCursor {
                prefix_keys: Some(PrefixKeys { prefix: Some(key), prefix2: other }),
                ..cursor
            };
            let turn = scan_turn(
                input,
                context,
                known,
                LiveNext::PrefixKey,
                LiveAnswer::PrefixKey(AttachedKeyDecode::Matched { size, key }),
            );
            turn.0 == known && turn.1.len() == 0 && turn.2 is Key
        }),
        ({
            let known = LiveCursor {
                prefix_keys: Some(PrefixKeys { prefix: other, prefix2: Some(key) }),
                ..cursor
            };
            let turn = scan_turn(
                input,
                context,
                known,
                LiveNext::PrefixKey,
                LiveAnswer::PrefixKey(AttachedKeyDecode::Matched { size, key }),
            );
            turn.0 == known && turn.1.len() == 0 && turn.2 is Key
        }),
        ({
            let known = LiveCursor {
                prefix_keys: Some(PrefixKeys { prefix: None, prefix2: None }),
                ..cursor
            };
            let turn = scan_turn(
                input,
                context,
                known,
                LiveNext::PrefixKey,
                LiveAnswer::PrefixKey(AttachedKeyDecode::Matched { size, key }),
            );
            turn.0.offset == cursor.offset + 1 && turn.0.raw_start == cursor.raw_start
                && turn.0.forwarded == cursor.forwarded && turn.1.len() == 0 && turn.2 is Item
        }),
{
}

/// A key that was decoded goes to key handling with exactly its bytes: at once, or,
/// where text stands before it, once it is known whether it is Enter. The text is then
/// sent first, once and whole, and recorded as submitted before that where the key is
/// Enter and only there. Nothing of the key's own bytes is sent.
pub proof fn a_decoded_key_is_handled_after_the_text_before_it(
    input: Seq<u8>,
    context: LiveContext,
    cursor: LiveCursor,
    size: usize,
    key: KeyCode,
    enter: bool,
)
    requires
        cursor.raw_start <= cursor.offset,
        context.console_key is None,
    ensures
        ({
            let turn = scan_turn(
                input,
                context,
                cursor,
                LiveNext::Key,
                LiveAnswer::Key(AttachedKeyDecode::Matched { size, key }),
            );
            let answered = scan_turn(input, context, turn.0, turn.2, LiveAnswer::Enter(enter));
            &&& turn.0 == cursor && turn.1.len() == 0
            &&& cursor.raw_start == cursor.offset ==> (turn.2 matches LiveNext::HandleKey {
                size: handled,
                key: handed,
                forward,
            } && handled == size && handed == key && (forward is ConsoleControlD
                == (context.control_d == Some(key))) && (forward is Plain == (context.control_d
                != Some(key))))
            &&& cursor.raw_start < cursor.offset ==> {
                &&& turn.2 is Enter
                &&& answered.0.raw_start == cursor.raw_start && answered.0.offset == cursor.offset
                &&& answered.1.len() == if enter {
                    2int
                } else {
                    1
                }
                &&& enter ==> answered.1[0] == (LiveEffect::RecordSubmitted {
                    from: cursor.raw_start,
                    to: cursor.offset,
                })
                &&& answered.1.last() == (LiveEffect::WriteInput {
                    from: cursor.raw_start,
                    to: cursor.offset,
                })
                &&& answered.2 matches LiveNext::HandleKey { size: handled, key: handed, forward }
                    && handled == size && handed == key && (forward is ConsoleControlD == (
                context.control_d == Some(key))) && (forward is Plain == (context.control_d != Some(
                    key,
                )))
            }
        }),
{
}

/// A key that makes up the whole input, and that came from a console event in this
/// step, is passed on as that event where no binding takes it.
pub proof fn a_console_key_is_forwarded_as_its_event(
    input: Seq<u8>,
    context: LiveContext,
    cursor: LiveCursor,
    size: usize,
    key: KeyCode,
    event: WindowsConsoleKeyEvent,
)
    requires
        cursor.raw_start == 0 && cursor.offset == 0,
        context.console_key == Some(event),
    ensures
        ({
            let turn = scan_turn(
                input,
                context,
                cursor,
                LiveNext::Key,
                LiveAnswer::Key(AttachedKeyDecode::Matched { size, key }),
            );
            turn.2 matches LiveNext::HandleKey { size: handled, forward, .. } && handled == size
                && if size == input.len() && context.step_len == size {
                forward == KeyForward::Console(event)
            } else {
                forward !is Console
            }
        }),
{
}

/// A key that is cut off at the end of the input is kept from its first byte on, once
/// the text before it was sent; a byte that begins no key is text.
pub proof fn a_cut_off_key_is_kept(input: Seq<u8>, context: LiveContext, cursor: LiveCursor)
    requires
        cursor.raw_start <= cursor.offset < input.len() <= usize::MAX,
    ensures
        ({
            let turn = scan_turn(
                input,
                context,
                cursor,
                LiveNext::Key,
                LiveAnswer::Key(AttachedKeyDecode::Partial),
            );
            &&& turn.2 == LiveNext::Retain(RetainedInput::AttachedKey)
            &&& turn.0.offset == cursor.offset && turn.0.raw_start == cursor.raw_start
            &&& if cursor.raw_start < cursor.offset {
                turn.1 == seq![
                    LiveEffect::WriteInput { from: cursor.raw_start, to: cursor.offset },
                ] && turn.0.forwarded
            } else {
                turn.1.len() == 0 && turn.0.forwarded == cursor.forwarded
            }
        }),
        ({
            let turn = scan_turn(
                input,
                context,
                cursor,
                LiveNext::Extended,
                LiveAnswer::Extended(ExtendedKeyDecode::Partial),
            );
            turn.2 == LiveNext::Retain(RetainedInput::ExtendedKey) && turn.0 == cursor
                && turn.1.len() == 0
        }),
        0x1b == input[cursor.offset as int] && cursor.offset + 1 < input.len()
            && input[cursor.offset + 1] < 0x80 ==> {
            let turn = scan_turn(
                input,
                context,
                cursor,
                LiveNext::Key,
                LiveAnswer::Key(AttachedKeyDecode::Invalid),
            );
            turn.0.offset == cursor.offset + 1 && turn.0.raw_start == cursor.raw_start
                && turn.1.len() == 0 && turn.2 is Item
        },
{
}

/// A key that a binding took is not forwarded, and what follows it is routed anew; one
/// that no binding took counts as forwarded, and the scan goes on behind it. Either way
/// exactly its bytes are passed, and none of them is sent as text.
pub proof fn a_handled_key_is_passed(
    input: Seq<u8>,
    context: LiveContext,
    cursor: LiveCursor,
    size: usize,
    key: KeyCode,
    forward: KeyForward,
    handled: bool,
)
    requires
        cursor.offset + size <= input.len() <= usize::MAX,
    ensures
        ({
            let turn = scan_turn(
                input,
                context,
                cursor,
                LiveNext::HandleKey { size, key, forward },
                LiveAnswer::Handled(handled),
            );
            &&& turn.0.raw_start == cursor.offset + size && turn.0.offset == cursor.offset + size
            &&& turn.1.len() == 0
            &&& handled ==> turn.0.forwarded == cursor.forwarded
            &&& !handled ==> turn.0.forwarded && turn.2 is Prompt
            &&& handled && cursor.offset + size < input.len() ==> (turn.2 matches LiveNext::Reroute {
                from,
            } && from == cursor.offset + size)
            &&& handled && cursor.offset + size == input.len() ==> turn.2 is Prompt
        }),
{
}

/// Once a scan is over its text is for the prompt where one is open, and else for the
/// pane, whole; where a prompt opened in its middle, the scan is over there.
pub proof fn the_text_left_is_for_the_prompt_or_the_pane(
    input: Seq<u8>,
    context: LiveContext,
    cursor: LiveCursor,
)
    requires
        cursor.raw_start <= cursor.offset <= input.len() <= usize::MAX,
    ensures
        scan_turn(input, context, cursor, LiveNext::Prompt, LiveAnswer::Prompt(true)).2
            is FinalPrompt,
        scan_turn(input, context, cursor, LiveNext::Prompt, LiveAnswer::Prompt(false)).2 is Item,
        ({
            let open = scan_turn(
                input,
                context,
                cursor,
                LiveNext::FinalPrompt,
                LiveAnswer::Prompt(true),
            );
            open.1.len() == 0 && if cursor.raw_start < input.len() {
                open.2 == (LiveNext::Reroute { from: cursor.raw_start })
            } else {
                open.2 is Complete
            }
        }),
        ({
            let closed = scan_turn(
                input,
                context,
                cursor,
                LiveNext::FinalPrompt,
                LiveAnswer::Prompt(false),
            );
            closed.2 is Complete && if cursor.raw_start < input.len() {
                closed.1 == seq![
                    LiveEffect::WriteInput { from: cursor.raw_start, to: input.len() as usize },
                ] && closed.0.forwarded
            } else {
                closed.1.len() == 0
            }
        }),
{
}

/// A mouse report, and an extended key, end the text before them: it is sent first,
/// once and whole. A report that is an event is handled, and what follows it routed
/// anew; one to be dropped is passed in silence; one that is cut off is kept; and what
/// is none is text. None of its bytes is sent as text otherwise.
pub proof fn a_mouse_report_is_handled_and_not_typed(
    input: Seq<u8>,
    context: LiveContext,
    cursor: LiveCursor,
    size: usize,
)
    requires
        cursor.raw_start <= cursor.offset,
        cursor.offset + size <= input.len() <= usize::MAX,
        0 < size,
    ensures
        ({
            let mouse = scan_turn(
                input,
                context,
                cursor,
                LiveNext::MousePrefix,
                LiveAnswer::MousePrefix(true),
            );
            let extended = scan_turn(
                input,
                context,
                cursor,
                LiveNext::ExtendedPrefix,
                LiveAnswer::ExtendedPrefix(true),
            );
            &&& mouse.2 is Mouse && extended.2 is Extended
            &&& mouse.0.offset == cursor.offset && mouse.1 == extended.1
            &&& if cursor.raw_start < cursor.offset {
                mouse.1 == seq![
                    LiveEffect::WriteInput { from: cursor.raw_start, to: cursor.offset },
                ] && mouse.0.forwarded && extended.0.forwarded
            } else {
                mouse.1.len() == 0 && mouse.0 == cursor && extended.0 == cursor
            }
        }),
        scan_turn(input, context, cursor, LiveNext::MousePrefix, LiveAnswer::MousePrefix(false)) == (
            cursor,
            Seq::<LiveEffect>::empty(),
            LiveNext::ExtendedPrefix,
        ),
        scan_turn(
            input,
            context,
            cursor,
            LiveNext::ExtendedPrefix,
            LiveAnswer::ExtendedPrefix(false),
        ) == (cursor, Seq::<LiveEffect>::empty(), LiveNext::KeyTable),
        ({
            let turn = scan_turn(
                input,
                context,
                cursor,
                LiveNext::Mouse,
                LiveAnswer::Mouse(MouseDecode::Matched { size }),
            );
            &&& turn.0.raw_start == cursor.offset + size && turn.0.offset == cursor.offset + size
            &&& turn.0.forwarded == cursor.forwarded
            &&& turn.1 == seq![LiveEffect::HandleMouse]
            &&& if cursor.offset + size < input.len() {
                turn.2 matches LiveNext::Reroute { from } && from == cursor.offset + size
            } else {
                turn.2 is Item
            }
        }),
        ({
            let turn = scan_turn(
                input,
                context,
                cursor,
                LiveNext::Mouse,
                LiveAnswer::Mouse(MouseDecode::Discard { size }),
            );
            turn.0.raw_start == cursor.offset + size && turn.0.offset == cursor.offset + size
                && turn.0.forwarded == cursor.forwarded && turn.1.len() == 0 && turn.2 is Item
        }),
        forall|decoded: MouseDecode| decoded is Partial || decoded is Overlong ==> #[trigger] scan_turn(
            input,
            context,
            cursor,
            LiveNext::Mouse,
            LiveAnswer::Mouse(decoded),
        ) == (cursor, Seq::<LiveEffect>::empty(), LiveNext::Retain(RetainedInput::Mouse)),
        ({
            let turn = scan_turn(
                input,
                context,
                cursor,
                LiveNext::Mouse,
                LiveAnswer::Mouse(MouseDecode::Invalid),
            );
            turn.0.raw_start == cursor.offset && turn.0.offset == cursor.offset + 1 && turn.1.len()
                == 0 && turn.2 is Item
        }),
{
}

/// An extended key whose text was sent before is handled as any key is, with the text
/// recorded where the key is Enter but not sent again; what is no extended key begins
/// a new run of text.
pub proof fn an_extended_key_does_not_send_the_text_again(
    input: Seq<u8>,
    context: LiveContext,
    cursor: LiveCursor,
    size: usize,
    key: KeyCode,
    enter: bool,
)
    requires
        cursor.raw_start <= cursor.offset,
        context.console_key is None,
    ensures
        ({
            let turn = scan_turn(
                input,
                context,
                cursor,
                LiveNext::Extended,
                LiveAnswer::Extended(ExtendedKeyDecode::Matched { size, key }),
            );
            let answered = scan_turn(input, context, turn.0, turn.2, LiveAnswer::Enter(enter));
            &&& turn.0 == cursor && turn.1.len() == 0
            &&& cursor.raw_start == cursor.offset ==> (turn.2 matches LiveNext::HandleKey {
                size: handled,
                key: handed,
                ..
            } && handled == size && handed == key)
            &&& cursor.raw_start < cursor.offset ==> {
                &&& turn.2 is Enter
                &&& answered.0 == cursor
                &&& answered.1 == if enter {
                    seq![
                        LiveEffect::RecordSubmitted { from: cursor.raw_start, to: cursor.offset },
                    ]
                } else {
                    seq![]
                }
                &&& answered.2 matches LiveNext::HandleKey { size: handled, key: handed, .. }
                    && handled == size && handed == key
            }
        }),
        ({
            let turn = scan_turn(
                input,
                context,
                cursor,
                LiveNext::Extended,
                LiveAnswer::Extended(ExtendedKeyDecode::Invalid),
            );
            turn.0.raw_start == cursor.offset && turn.0.offset == cursor.offset && turn.1.len() == 0
                && turn.2 is KeyTable
        }),
{
}

/// A graphics command goes to the target pane alone, whole, after the text before it;
/// one that is cut off is kept.
pub proof fn graphics_go_to_the_target_alone(
    input: Seq<u8>,
    context: LiveContext,
    cursor: LiveCursor,
    size: usize,
)
    requires
        cursor.raw_start <= cursor.offset,
        cursor.offset + size <= input.len() <= usize::MAX,
    ensures
        ({
            let turn = scan_turn(
                input,
                context,
                cursor,
                LiveNext::Kitty,
                LiveAnswer::Kitty(KittyGraphicsApcDecode::Matched { size }),
            );
            &&& turn.0.raw_start == cursor.offset + size && turn.0.offset == cursor.offset + size
            &&& turn.0.forwarded && turn.2 is Item
            &&& turn.1.last() matches LiveEffect::WriteTarget { from, to } && from == cursor.offset
                && to == cursor.offset + size
            &&& if cursor.raw_start < cursor.offset {
                turn.1.len() == 2 && turn.1[0] == (LiveEffect::WriteInput {
                    from: cursor.raw_start,
                    to: cursor.offset,
                })
            } else {
                turn.1.len() == 1
            }
        }),
        ({
            let turn = scan_turn(
                input,
                context,
                cursor,
                LiveNext::Kitty,
                LiveAnswer::Kitty(KittyGraphicsApcDecode::Partial),
            );
            turn.2 == LiveNext::Retain(RetainedInput::KittyGraphics) && turn.0.offset
                == cursor.offset && turn.1.len() == if cursor.raw_start < cursor.offset {
                1int
            } else {
                0
            }
        }),
{
}

/// A focus report is told, after the text before it; the pane sees its three bytes
/// where it asked for them, and else nothing of it. What follows is routed anew.
pub proof fn a_focus_report_is_told_and_written_where_asked_for(
    input: Seq<u8>,
    context: LiveContext,
    cursor: LiveCursor,
    gained: bool,
)
    requires
        cursor.raw_start == cursor.offset,
        cursor.offset + 3 <= input.len() <= usize::MAX,
        input[cursor.offset as int] == 0x1b,
        input[cursor.offset + 1] == 0x5b,
        input[cursor.offset + 2] == if gained {
            0x49u8
        } else {
            0x4fu8
        },
    ensures
        ({
            let turn = scan_turn(
                input,
                context,
                cursor,
                LiveNext::Kitty,
                LiveAnswer::Kitty(KittyGraphicsApcDecode::NotKittyGraphics),
            );
            let told = LiveEffect::ControlEvent(
                if gained {
                    TerminalControlEvent::FocusIn
                } else {
                    TerminalControlEvent::FocusOut
                },
            );
            &&& turn.0.raw_start == cursor.offset + 3 && turn.0.offset == cursor.offset + 3
            &&& turn.0.forwarded == (cursor.forwarded || context.focus_events)
            &&& turn.1 == if context.focus_events {
                seq![
                    LiveEffect::WriteTarget {
                        from: cursor.offset,
                        to: (cursor.offset + 3) as usize,
                    },
                    told,
                ]
            } else {
                seq![told]
            }
            &&& if cursor.offset + 3 < input.len() {
                turn.2 matches LiveNext::Reroute { from } && from == cursor.offset + 3
            } else {
                turn.2 is Item
            }
        }),
{
    let rest = rest_of(input, cursor);
    assert(rest[0] == 0x1b && rest[1] == 0x5b && rest[2] == input[cursor.offset + 2]);
    let turn = scan_turn(
        input,
        context,
        cursor,
        LiveNext::Kitty,
        LiveAnswer::Kitty(KittyGraphicsApcDecode::NotKittyGraphics),
    );
    if gained {
        assert(rest.subrange(0, 3) =~= seq![0x1bu8, 0x5bu8, 0x49u8]);
    } else {
        assert(rest.subrange(0, 3) =~= seq![0x1bu8, 0x5bu8, 0x4fu8]);
        assert(rest.subrange(0, 3)[2] != 0x49);
    }
    assert(turn.1.len() == if context.focus_events {
        2int
    } else {
        1
    });
}

/// The effects of the run of `told`, with `first` taken off its front.
proof fn lemma_run_step(
    input: Seq<u8>,
    context: LiveContext,
    cursor: LiveCursor,
    next: LiveNext,
    first: LiveAnswer,
    rest: Seq<LiveAnswer>,
)
    ensures
        ({
            let turn = scan_turn(input, context, cursor, next, first);
            let told = seq![first] + rest;
            &&& scan_run(input, context, cursor, next, told) == seq![turn] + scan_run(
                input,
                context,
                turn.0,
                turn.2,
                rest,
            )
            &&& all_effects(scan_run(input, context, cursor, next, told)) == turn.1 + all_effects(
                scan_run(input, context, turn.0, turn.2, rest),
            )
            &&& run_is_answered(input, context, cursor, next, told) == (answers(
                input.len() as int,
                cursor,
                next,
                first,
            ) && run_is_answered(input, context, turn.0, turn.2, rest))
        }),
{
    let told = seq![first] + rest;
    let turn = scan_turn(input, context, cursor, next, first);
    assert(told.subrange(1, told.len() as int) =~= rest);
    let run = scan_run(input, context, cursor, next, told);
    let later = scan_run(input, context, turn.0, turn.2, rest);
    assert(run =~= seq![turn] + later);
    assert(run.subrange(1, run.len() as int) =~= later);
}

/// A key that is decoded while a key table is active goes to key handling, and no byte
/// of it is ever sent as text, whatever the scan is told after that; the text before it
/// is sent before it is handled.
pub proof fn no_key_of_an_active_table_is_typed(
    input: Seq<u8>,
    context: LiveContext,
    cursor: LiveCursor,
    size: usize,
    key: KeyCode,
    told: Seq<LiveAnswer>,
)
    requires
        cursor.raw_start <= cursor.offset < input.len() <= usize::MAX,
        0 < size,
        run_is_answered(
            input,
            context,
            cursor,
            LiveNext::KeyTable,
            seq![
                LiveAnswer::KeyTable(true),
                LiveAnswer::Key(AttachedKeyDecode::Matched { size, key }),
            ] + told,
        ),
    ensures
        ({
            let run = scan_run(
                input,
                context,
                cursor,
                LiveNext::KeyTable,
                seq![
                    LiveAnswer::KeyTable(true),
                    LiveAnswer::Key(AttachedKeyDecode::Matched { size, key }),
                ] + told,
            );
            &&& cursor.raw_start == cursor.offset ==> (run[1].2 matches LiveNext::HandleKey {
                size: handled,
                ..
            } && handled == size)
            &&& cursor.raw_start < cursor.offset ==> run[1].2 is Enter && (told.len() > 0 ==> (
            run[2].2 matches LiveNext::HandleKey { size: handled, .. } && handled == size))
            &&& forall|i: int|
                0 <= i < all_effects(run).len() ==> (written_range(#[trigger] all_effects(run)[i])
                    matches Some((from, to)) ==> to <= cursor.offset || cursor.offset + size <= from)
        }),
{
    let len = input.len() as int;
    let decoded = LiveAnswer::Key(AttachedKeyDecode::Matched { size, key });
    let all = seq![LiveAnswer::KeyTable(true), decoded] + told;
    let tail = seq![decoded] + told;
    assert(all =~= seq![LiveAnswer::KeyTable(true)] + tail);
    lemma_run_step(input, context, cursor, LiveNext::KeyTable, LiveAnswer::KeyTable(true), tail);
    lemma_run_step(input, context, cursor, LiveNext::Key, decoded, told);
    let turn = scan_turn(input, context, cursor, LiveNext::Key, decoded);
    assert(cursor.offset + size <= len);
    let effects = all_effects(scan_run(input, context, cursor, LiveNext::KeyTable, all));
    let later = all_effects(scan_run(input, context, cursor, turn.2, told));
    assert(effects =~= later);
    if told.len() > 0 {
        let rest = told.subrange(1, told.len() as int);
        assert(told =~= seq![told[0]] + rest);
        lemma_run_step(input, context, cursor, turn.2, told[0], rest);
        let second = scan_turn(input, context, cursor, turn.2, told[0]);
        if cursor.raw_start < cursor.offset {
            lemma_handled_key_is_passed_over(input, context, second.0, size, second.2, rest);
            let end = all_effects(scan_run(input, context, second.0, second.2, rest));
            assert(later =~= second.1 + end);
            assert forall|i: int| 0 <= i < later.len() implies (written_range(#[trigger] later[i])
                matches Some((from, to)) ==> to <= cursor.offset || cursor.offset + size <= from) by {
                if i >= second.1.len() {
                    assert(later[i] == end[i - second.1.len()]);
                } else {
                    assert(later[i] == second.1[i]);
                }
            }
        } else {
            lemma_handled_key_is_passed_over(input, context, cursor, size, turn.2, told);
        }
    }
}

/// What a scan that waits for a key of `size` bytes to be handled sends later lies
/// behind the key.
proof fn lemma_handled_key_is_passed_over(
    input: Seq<u8>,
    context: LiveContext,
    cursor: LiveCursor,
    size: usize,
    next: LiveNext,
    told: Seq<LiveAnswer>,
)
    requires
        cursor.raw_start <= cursor.offset,
        cursor.offset + size <= input.len() <= usize::MAX,
        next matches LiveNext::HandleKey { size: handled, .. } && handled == size,
        run_is_answered(input, context, cursor, next, told),
    ensures
        forall|i: int|
            0 <= i < all_effects(scan_run(input, context, cursor, next, told)).len() ==> (
            written_range(#[trigger] all_effects(scan_run(input, context, cursor, next, told))[i])
                matches Some((from, to)) ==> cursor.offset + size <= from),
{
    if told.len() > 0 {
        let rest = told.subrange(1, told.len() as int);
        assert(told =~= seq![told[0]] + rest);
        lemma_run_step(input, context, cursor, next, told[0], rest);
        let turn = scan_turn(input, context, cursor, next, told[0]);
        assert(turn.1.len() == 0);
        a_scan_sends_in_order_and_once(input, context, turn.0, turn.2, rest);
        let later = all_effects(scan_run(input, context, turn.0, turn.2, rest));
        assert(all_effects(scan_run(input, context, cursor, next, told)) =~= later);
    }
}

/// A paste goes to the pane as pasted text, exactly its body, after the text before it;
/// in copy mode it goes nowhere. The scan goes on behind its closing delimiter.
pub proof fn a_paste_is_written_as_pasted(
    input: Seq<u8>,
    context: LiveContext,
    cursor: LiveCursor,
    body: Seq<u8>,
    tail: Seq<u8>,
)
    requires
        cursor.raw_start <= cursor.offset,
        cursor.offset + body.len() + 12 + tail.len() == input.len() <= usize::MAX,
        context.new_input_at <= cursor.offset,
        forall|at: int| !#[trigger] bytes::occurs_at(body, bracketed_paste::paste_end(), at),
        input.subrange(cursor.offset as int, input.len() as int) == bracketed_paste::encoded_paste(
            body,
            true,
        ) + tail,
    ensures
        ({
            let turn = scan_turn(input, context, cursor, LiveNext::Item, LiveAnswer::Nothing);
            let end = cursor.offset + body.len() + 12;
            &&& turn.0.raw_start == end && turn.0.offset == end && turn.2 is Item
            &&& context.copy_mode ==> turn.1.len() == 0 && turn.0.forwarded == cursor.forwarded
            &&& !context.copy_mode ==> {
                &&& turn.0.forwarded
                &&& turn.1.last() matches LiveEffect::WritePaste { from, to } && input.subrange(
                    from as int,
                    to as int,
                ) == body
                &&& if cursor.raw_start < cursor.offset {
                    turn.1.len() == 2 && turn.1[0] == (LiveEffect::WriteInput {
                        from: cursor.raw_start,
                        to: cursor.offset,
                    })
                } else {
                    turn.1.len() == 1
                }
            }
        }),
{
    bracketed_paste::an_encoded_paste_decodes_before_any_tail(body, tail);
    let rest = rest_of(input, cursor);
    let from = cursor.offset + 6;
    assert(input.subrange(from, from + body.len()) =~= rest.subrange(6, 6 + body.len() as int));
}

/// A printable byte that is typed while nothing else takes it joins the text and is
/// sent neither now nor in pieces: after everything that is asked of it, only the
/// cursor moved, by one.
pub proof fn a_typed_byte_joins_the_text(
    input: Seq<u8>,
    context: LiveContext,
    cursor: LiveCursor,
    decoded: AttachedKeyDecode,
)
    requires
        cursor.raw_start <= cursor.offset < input.len() <= usize::MAX,
        !context.copy_mode,
        0x20 <= input[cursor.offset as int] < 0x7f,
        cursor.prefix_keys == Some(PrefixKeys { prefix: None, prefix2: None }),
    ensures
        ({
            let told = seq![
                LiveAnswer::Nothing,
                LiveAnswer::Kitty(KittyGraphicsApcDecode::NotKittyGraphics),
                LiveAnswer::MousePrefix(false),
                LiveAnswer::ExtendedPrefix(false),
                LiveAnswer::KeyTable(false),
                LiveAnswer::PrefixKey(decoded),
            ];
            let run = scan_run(input, context, cursor, LiveNext::Item, told);
            &&& run.len() == 6
            &&& all_effects(run).len() == 0
            &&& run[5].2 is Item
            &&& run[5].0.offset == cursor.offset + 1 && run[5].0.raw_start == cursor.raw_start
            &&& run[5].0.forwarded == cursor.forwarded
        }),
{
    let rest = rest_of(input, cursor);
    assert(rest[0] == input[cursor.offset as int]);
    bracketed_paste::typed_text_is_no_paste(rest, rest_new_at(context, cursor));
    terminal_response::typed_text_is_no_control(
        rest,
        context.focus_events,
        rest_new_at(context, cursor),
    );
    assert(terminal_response::focus_event(rest) is None) by {
        if rest.len() >= 3 {
            assert(rest.subrange(0, 3)[0] == rest[0]);
        }
    }
    let a1 = LiveAnswer::Kitty(KittyGraphicsApcDecode::NotKittyGraphics);
    let a2 = LiveAnswer::MousePrefix(false);
    let a3 = LiveAnswer::ExtendedPrefix(false);
    let a4 = LiveAnswer::KeyTable(false);
    let a5 = LiveAnswer::PrefixKey(decoded);
    let t5 = seq![a5];
    let t4 = seq![a4, a5];
    let t3 = seq![a3, a4, a5];
    let t2 = seq![a2, a3, a4, a5];
    let t1 = seq![a1, a2, a3, a4, a5];
    let none = Seq::<LiveAnswer>::empty();
    assert(t5 =~= seq![a5] + none);
    assert(t4 =~= seq![a4] + t5);
    assert(t3 =~= seq![a3] + t4);
    assert(t2 =~= seq![a2] + t3);
    assert(t1 =~= seq![a1] + t2);
    assert(seq![LiveAnswer::Nothing, a1, a2, a3, a4, a5] =~= seq![LiveAnswer::Nothing] + t1);
    lemma_run_step(input, context, cursor, LiveNext::Item, LiveAnswer::Nothing, t1);
    lemma_run_step(input, context, cursor, LiveNext::Kitty, a1, t2);
    lemma_run_step(input, context, cursor, LiveNext::MousePrefix, a2, t3);
    lemma_run_step(input, context, cursor, LiveNext::ExtendedPrefix, a3, t4);
    lemma_run_step(input, context, cursor, LiveNext::KeyTable, a4, t5);
    lemma_run_step(input, context, cursor, LiveNext::PrefixKey, a5, none);
}

/// A report of the terminal that is consumed reaches no pane; one that a pane asked for
/// is written to the target alone, whole; one that is told of is told of, with what
/// follows it routed anew; and an unfinished one is kept.
pub proof fn a_terminal_reply_goes_where_it_belongs(
    input: Seq<u8>,
    context: LiveContext,
    cursor: LiveCursor,
)
    requires
        cursor.raw_start == cursor.offset,
        cursor.offset < input.len() <= usize::MAX,
        terminal_response::focus_event(
            input.subrange(cursor.offset as int, input.len() as int),
        ) is None,
        context.new_input_at <= cursor.offset,
    ensures
        ({
            let turn = scan_turn(
                input,
                context,
                cursor,
                LiveNext::Kitty,
                LiveAnswer::Kitty(KittyGraphicsApcDecode::NotKittyGraphics),
            );
            match terminal_response::attached_control_decode(
                input.subrange(cursor.offset as int, input.len() as int),
                context.focus_events,
                0,
            ) {
                TerminalResponseDecode::Matched { size, event: None } => turn.1.len() == 0
                    && turn.0.offset == cursor.offset + size && turn.0.raw_start == cursor.offset
                    + size && turn.0.forwarded == cursor.forwarded && turn.2 is Item,
                TerminalResponseDecode::Matched { size, event: Some(event) } => turn.1 == seq![
                    LiveEffect::ControlEvent(event),
                ] && turn.0.offset == cursor.offset + size && turn.0.forwarded == cursor.forwarded
                    && if cursor.offset + size < input.len() {
                    turn.2 matches LiveNext::Reroute { from } && from == cursor.offset + size
                } else {
                    turn.2 is Item
                },
                TerminalResponseDecode::PaneBound { size } => turn.1.len() == 1 && (turn.1[0]
                    matches LiveEffect::WriteTarget { from, to } && from == cursor.offset && to
                    == cursor.offset + size) && turn.0.raw_start == cursor.offset + size
                    && turn.0.forwarded && turn.2 is Item,
                TerminalResponseDecode::Partial => turn.1.len() == 0 && turn.2
                    == LiveNext::Retain(RetainedInput::TerminalResponse) && turn.0.offset
                    == cursor.offset,
                TerminalResponseDecode::NotResponse => turn.0 == cursor && turn.1.len() == 0
                    && turn.2 is MousePrefix,
            }
        }),
{
    terminal_response::decoded_controls_lie_within_the_input(
        input.subrange(cursor.offset as int, input.len() as int),
        context.focus_events,
        0,
    );
}

/// Text beyond ASCII is taken whole, scalar by scalar, where it is no prefix key, and
/// asked for as a key where it is; a scalar that is cut off at the end is kept, once the
/// text before it was sent.
pub proof fn text_beyond_ascii_is_taken_by_scalars(
    input: Seq<u8>,
    context: LiveContext,
    cursor: LiveCursor,
    other: Option<KeyCode>,
)
    requires
        cursor.raw_start <= cursor.offset < input.len() <= usize::MAX,
        input[cursor.offset as int] >= 0x80,
    ensures
        ({
            let rest = input.subrange(cursor.offset as int, input.len() as int);
            let none = PrefixKeys { prefix: None, prefix2: None };
            let turn = scan_turn(
                input,
                context,
                cursor,
                LiveNext::PrefixKeys,
                LiveAnswer::PrefixKeys(none),
            );
            &&& turn.0.raw_start == cursor.raw_start && turn.0.prefix_keys == Some(none)
            &&& vstd::utf8::valid_first_scalar(rest) ==> {
                let own = PrefixKeys {
                    prefix: Some(vstd::utf8::decode_first_scalar(rest) as u64),
                    prefix2: other,
                };
                let prefixed = scan_turn(
                    input,
                    context,
                    cursor,
                    LiveNext::PrefixKeys,
                    LiveAnswer::PrefixKeys(own),
                );
                &&& turn.0.offset == cursor.offset + vstd::utf8::length_of_first_scalar(rest)
                &&& turn.1.len() == 0 && turn.2 is Item
                &&& prefixed.0.offset == cursor.offset && prefixed.1.len() == 0 && prefixed.2 is Key
            }
            &&& !vstd::utf8::valid_first_scalar(rest) && (0xc2 <= rest[0] <= 0xdf && rest.len() < 2
                || 0xe0 <= rest[0] <= 0xef && rest.len() < 3 || 0xf0 <= rest[0] <= 0xf4
                && rest.len() < 4) ==> {
                &&& turn.2 == LiveNext::Retain(RetainedInput::Utf8)
                &&& turn.0.offset == cursor.offset
                &&& turn.1.len() == if cursor.raw_start < cursor.offset {
                    1int
                } else {
                    0
                }
            }
        }),
{
    keys::lemma_first_scalar_fits(rest_of(input, cursor));
}

/// A byte beyond ASCII that begins no scalar is text of one byte.
pub proof fn a_stray_byte_is_text(
    input: Seq<u8>,
    context: LiveContext,
    cursor: LiveCursor,
    prefix_keys: PrefixKeys,
)
    requires
        cursor.raw_start <= cursor.offset < input.len() <= usize::MAX,
        0x80 <= input[cursor.offset as int] < 0xc2 || input[cursor.offset as int] > 0xf4,
        !vstd::utf8::valid_first_scalar(
            input.subrange(cursor.offset as int, input.len() as int),
        ),
    ensures
        ({
            let turn = scan_turn(
                input,
                context,
                cursor,
                LiveNext::PrefixKeys,
                LiveAnswer::PrefixKeys(prefix_keys),
            );
            turn.0.offset == cursor.offset + 1 && turn.0.raw_start == cursor.raw_start
                && turn.0.forwarded == cursor.forwarded && turn.1.len() == 0 && turn.2 is Item
        }),
{
}

/// Behind the last item the scan asks whether a prompt is open; an item that is no paste
/// is looked at further, and a paste that is not closed is kept, once the text before it
/// was sent.
pub proof fn an_item_is_looked_at_as_a_paste_first(
    input: Seq<u8>,
    context: LiveContext,
    cursor: LiveCursor,
)
    requires
        cursor.raw_start <= cursor.offset <= input.len() <= usize::MAX,
    ensures
        ({
            let turn = scan_turn(input, context, cursor, LiveNext::Item, LiveAnswer::Nothing);
            &&& cursor.offset == input.len() ==> turn.0 == cursor && turn.1.len() == 0
                && turn.2 is FinalPrompt
            &&& cursor.offset < input.len() && context.new_input_at <= cursor.offset ==> {
                let rest = input.subrange(cursor.offset as int, input.len() as int);
                &&& bracketed_paste::paste_decode(rest, 0) is NotPaste ==> turn.0 == cursor
                    && turn.1.len() == 0 && turn.2 is Kitty
                &&& bracketed_paste::paste_decode(rest, 0) is Partial ==> turn.0.offset
                    == cursor.offset && turn.2 == LiveNext::Retain(RetainedInput::BracketedPaste)
                    && turn.1 == if cursor.raw_start < cursor.offset {
                    seq![LiveEffect::WriteInput { from: cursor.raw_start, to: cursor.offset }]
                } else {
                    seq![]
                }
            }
        }),
{
}

/// Input that goes on from retained bytes is told how many of the rest those are: those
/// before the cursor are not counted.
pub proof fn retained_bytes_are_counted_from_the_cursor(context: LiveContext, cursor: LiveCursor)
    ensures
        rest_new_at(context, cursor) >= 0,
        context.new_input_at >= cursor.offset ==> rest_new_at(context, cursor)
            == context.new_input_at - cursor.offset,
        context.new_input_at < cursor.offset ==> rest_new_at(context, cursor) == 0,
{
}

} // verus!
