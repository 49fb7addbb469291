//! Live input of an attached client: how it is cut into steps, where a step is
//! routed, and what happens round the scan of input bound for a pane.
use crate::bracketed_paste;
use crate::bracketed_paste::BracketedPasteDecode;
use crate::bytes;
use crate::error;
use crate::error::RmuxError;
use crate::keys;
use crate::keys::{AttachedKeyDecode, KeyCode, WindowsConsoleKeyEvent};
use crate::live_scan::{LiveContext, LiveCursor, MouseDecode, PrefixKeys, RetainedInput};
use crate::sessions::{PanePlace, PaneTarget, SessionStore, WindowPlace};
use crate::terminal_response::TerminalControlEvent;
use crate::text;
use std::collections::VecDeque;
use vstd::prelude::*;

verus! {

/// Rerouted input is cut into pieces of this size, so that routing it anew stays
/// linear in its length.
pub const ATTACHED_LIVE_REROUTE_CHUNK_BYTES: usize = 1024;

/// How one step of live input ended.
#[derive(Debug, PartialEq, Eq)]
pub enum AttachedLiveInputStep {
    /// The input is done with; `true` where something was sent to a pane.
    Complete(bool),
    /// The rest is to be routed anew.
    Reroute { bytes: Vec<u8>, forwarded: bool },
}

/// How one piece of live input ended.
#[derive(Debug, PartialEq, Eq)]
pub enum AttachedLiveChunkResult {
    Complete(bool),
    /// The rest is to be cut into pieces again.
    Rechunk { bytes: Vec<u8>, forwarded: bool },
}

/// A piece of live input that waits for its turn.
#[derive(Debug, PartialEq, Eq)]
pub struct AttachedLiveInputWork {
    bytes: Vec<u8>,
    windows_console_key: Option<WindowsConsoleKeyEvent>,
}

/// A piece as a value: its bytes, and the console event that they came from.
pub struct WorkModel {
    pub bytes: Seq<u8>,
    pub console_key: Option<WindowsConsoleKeyEvent>,
}

impl View for AttachedLiveInputWork {
    type V = WorkModel;

    closed spec fn view(&self) -> WorkModel {
        WorkModel { bytes: self.bytes@, console_key: self.windows_console_key }
    }
}

/// The first `len` bytes of a piece; all where it has fewer.
pub open spec fn front_of(work: WorkModel, len: int) -> WorkModel {
    WorkModel {
        bytes: if len < work.bytes.len() {
            work.bytes.take(len)
        } else {
            work.bytes
        },
        console_key: work.console_key,
    }
}

/// What follows the first `len` bytes of a piece, which is of no console event.
pub open spec fn rest_after(work: WorkModel, len: int) -> WorkModel {
    WorkModel {
        bytes: if len < work.bytes.len() {
            work.bytes.skip(len)
        } else {
            Seq::empty()
        },
        console_key: None,
    }
}

impl AttachedLiveInputWork {
    /// A piece of `bytes`.
    pub fn new(bytes: Vec<u8>, windows_console_key: Option<WindowsConsoleKeyEvent>) -> (work: Self)
        ensures
            work@ == (WorkModel { bytes: bytes@, console_key: windows_console_key }),
    {
        AttachedLiveInputWork { bytes, windows_console_key }
    }

    /// How many bytes the piece has.
    pub fn len(&self) -> (len: usize)
        ensures
            len == self@.bytes.len(),
    {
        self.bytes.len()
    }

    /// Cuts the piece after `len` bytes and hands out the rest, which has no
    /// console event.
    pub fn split_at(&mut self, len: usize) -> (remaining: Self)
        ensures
            final(self)@ == front_of(old(self)@, len as int),
            remaining@ == rest_after(old(self)@, len as int),
    {
        let at: usize = if len < self.bytes.len() {
            len
        } else {
            self.bytes.len()
        };
        let rest: Vec<u8> = self.bytes.split_off(at);
        assert(self@.bytes =~= front_of(old(self)@, len as int).bytes);
        assert(rest@ =~= rest_after(old(self)@, len as int).bytes);
        AttachedLiveInputWork { bytes: rest, windows_console_key: None }
    }

    /// The bytes of the piece.
    pub fn as_bytes(&self) -> (bytes: &[u8])
        ensures
            bytes@ == self@.bytes,
    {
        self.bytes.as_slice()
    }

    /// The console event that the piece came from.
    pub fn console_key(&self) -> (key: Option<WindowsConsoleKeyEvent>)
        ensures
            key == self@.console_key,
    {
        self.windows_console_key
    }
}

/// The bytes of all pieces, in order.
pub open spec fn queued_bytes(works: Seq<WorkModel>) -> Seq<u8>
    decreases works.len(),
{
    if works.len() == 0 {
        Seq::empty()
    } else {
        works[0].bytes + queued_bytes(works.subrange(1, works.len() as int))
    }
}

/// The pieces of one client input that are still to be handled.
#[derive(Debug, PartialEq, Eq)]
pub struct LiveWorkQueue {
    works: VecDeque<AttachedLiveInputWork>,
    forwarded: bool,
}

impl View for LiveWorkQueue {
    type V = Seq<WorkModel>;

    closed spec fn view(&self) -> Seq<WorkModel> {
        Seq::new(self.works@.len(), |i: int| self.works@[i]@)
    }
}

/// The next piece is long enough to be cut.
pub open spec fn front_is_long(works: Seq<WorkModel>) -> bool {
    works.len() > 0 && works[0].bytes.len() > ATTACHED_LIVE_REROUTE_CHUNK_BYTES
}

/// The next piece that is taken, and what then waits.
pub open spec fn next_work(works: Seq<WorkModel>, may_chunk: bool) -> (WorkModel, Seq<WorkModel>) {
    let tail = works.subrange(1, works.len() as int);
    if front_is_long(works) && may_chunk {
        (
            front_of(works[0], ATTACHED_LIVE_REROUTE_CHUNK_BYTES as int),
            seq![rest_after(works[0], ATTACHED_LIVE_REROUTE_CHUNK_BYTES as int)] + tail,
        )
    } else {
        (works[0], tail)
    }
}

impl LiveWorkQueue {
    /// Something was sent to a pane.
    pub closed spec fn has_forwarded(&self) -> bool {
        self.forwarded
    }

    /// A queue of the one piece `work`.
    pub fn new(work: AttachedLiveInputWork, forwarded: bool) -> (queue: Self)
        ensures
            queue@ == seq![work@],
            queue.has_forwarded() == forwarded,
    {
        let mut works: VecDeque<AttachedLiveInputWork> = VecDeque::new();
        works.push_back(work);
        let queue = LiveWorkQueue { works, forwarded };
        assert(queue@ =~= seq![work@]);
        queue
    }

    /// Whether something was sent to a pane.
    pub fn forwarded(&self) -> (forwarded: bool)
        ensures
            forwarded == self.has_forwarded(),
    {
        self.forwarded
    }

    /// Whether the next piece is long enough to ask if it may be cut.
    pub fn asks_for_chunks(&self) -> (asks: bool)
        ensures
            asks == front_is_long(self@),
    {
        match self.works.len() {
            0 => false,
            _ => self.works[0].len() > ATTACHED_LIVE_REROUTE_CHUNK_BYTES,
        }
    }

    /// Takes the next piece, cut to the chunk size where `may_chunk`.
    pub fn take_next(&mut self, may_chunk: bool) -> (work: Option<AttachedLiveInputWork>)
        ensures
            match work {
                Some(work) => {
                    &&& old(self)@.len() > 0
                    &&& (work@, final(self)@) == next_work(old(self)@, may_chunk)
                },
                None => old(self)@.len() == 0 && final(self)@ == old(self)@,
            },
            final(self).has_forwarded() == old(self).has_forwarded(),
    {
        let ghost before = self@;
        match self.works.pop_front() {
            None => None,
            Some(mut work) => {
                let ghost whole = work@;
                let ghost tail = self@;
                assert(whole == before[0]);
                assert(tail =~= before.subrange(1, before.len() as int));
                if work.len() > ATTACHED_LIVE_REROUTE_CHUNK_BYTES && may_chunk {
                    let remaining = work.split_at(ATTACHED_LIVE_REROUTE_CHUNK_BYTES);
                    self.works.push_front(remaining);
                    assert(self@ =~= seq![remaining@] + tail);
                }
                Some(work)
            },
        }
    }

    /// Takes in how a piece ended: what is to be cut again comes first.
    pub fn finish(&mut self, result: AttachedLiveChunkResult)
        ensures
            match result {
                AttachedLiveChunkResult::Complete(forwarded) => {
                    &&& final(self)@ == old(self)@
                    &&& final(self).has_forwarded() == (old(self).has_forwarded() || forwarded)
                },
                AttachedLiveChunkResult::Rechunk { bytes, forwarded } => {
                    &&& final(self)@ == seq![
                        WorkModel { bytes: bytes@, console_key: None },
                    ] + old(self)@
                    &&& final(self).has_forwarded() == (old(self).has_forwarded() || forwarded)
                },
            },
    {
        match result {
            AttachedLiveChunkResult::Complete(forwarded) => {
                self.forwarded = self.forwarded || forwarded;
            },
            AttachedLiveChunkResult::Rechunk { bytes, forwarded } => {
                let ghost before = self@;
                self.forwarded = self.forwarded || forwarded;
                let work = AttachedLiveInputWork::new(bytes, None);
                self.works.push_front(work);
                assert(self@ =~= seq![work@] + before);
            },
        }
    }
}

/// Cutting input into pieces loses none of it: the piece that is taken and those
/// that then wait are what waited, in order.
pub proof fn cutting_keeps_the_input(works: Seq<WorkModel>, may_chunk: bool)
    requires
        works.len() > 0,
    ensures
        ({
            let (work, left) = next_work(works, may_chunk);
            work.bytes + queued_bytes(left) == queued_bytes(works)
        }),
{
    let (work, left) = next_work(works, may_chunk);
    if front_is_long(works) && may_chunk {
        let tail = works.subrange(1, works.len() as int);
        assert(left.subrange(1, left.len() as int) =~= tail);
        assert(work.bytes + (left[0].bytes + queued_bytes(tail)) =~= works[0].bytes + queued_bytes(
            tail,
        ));
    }
}

/// What follows a step within one piece.
#[derive(Debug, PartialEq, Eq)]
pub enum LiveChunkMove {
    /// The piece is done with.
    Finished(AttachedLiveChunkResult),
    /// Another step, with these bytes.
    Again { bytes: Vec<u8>, forwarded: bool },
}

/// Whether rerouted input is long enough to ask if it may be cut.
pub fn step_asks_for_chunks(step: &AttachedLiveInputStep) -> (asks: bool)
    ensures
        asks == (step matches AttachedLiveInputStep::Reroute { bytes, .. } && bytes@.len()
            > ATTACHED_LIVE_REROUTE_CHUNK_BYTES),
{
    match step {
        AttachedLiveInputStep::Complete(_) => false,
        AttachedLiveInputStep::Reroute { bytes, .. } => bytes.len()
            > ATTACHED_LIVE_REROUTE_CHUNK_BYTES,
    }
}

/// What follows a step of a piece that had `forwarded` before: a long rest is
/// cut again where that is allowed, a short one goes on at once.
pub fn after_live_step(forwarded: bool, step: AttachedLiveInputStep, may_chunk: bool) -> (next:
    LiveChunkMove)
    ensures
        match step {
            AttachedLiveInputStep::Complete(step_forwarded) => next == LiveChunkMove::Finished(
                AttachedLiveChunkResult::Complete(forwarded || step_forwarded),
            ),
            AttachedLiveInputStep::Reroute { bytes, forwarded: step_forwarded } => if bytes@.len()
                > ATTACHED_LIVE_REROUTE_CHUNK_BYTES && may_chunk {
                next == LiveChunkMove::Finished(
                    AttachedLiveChunkResult::Rechunk {
                        bytes,
                        forwarded: forwarded || step_forwarded,
                    },
                )
            } else {
                next == (LiveChunkMove::Again { bytes, forwarded: forwarded || step_forwarded })
            },
        },
{
    match step {
        AttachedLiveInputStep::Complete(step_forwarded) => LiveChunkMove::Finished(
            AttachedLiveChunkResult::Complete(forwarded || step_forwarded),
        ),
        AttachedLiveInputStep::Reroute { bytes, forwarded: step_forwarded } => {
            let forwarded = forwarded || step_forwarded;
            if bytes.len() > ATTACHED_LIVE_REROUTE_CHUNK_BYTES && may_chunk {
                LiveChunkMove::Finished(AttachedLiveChunkResult::Rechunk { bytes, forwarded })
            } else {
                LiveChunkMove::Again { bytes, forwarded }
            }
        },
    }
}

/// How client input is taken up.
#[derive(Debug, Clone, Copy, PartialEq, Eq, Structural)]
pub enum LiveEntry {
    /// As one piece.
    Chunk,
    /// Through the fast path; as a queue of pieces where that declines.
    FastPathThenQueue,
    /// As a queue of pieces.
    Queue,
}

/// How client input of `len` bytes is taken up.
pub fn live_input_entry(len: usize, has_console_key: bool) -> (entry: LiveEntry)
    ensures
        entry == if len <= ATTACHED_LIVE_REROUTE_CHUNK_BYTES {
            LiveEntry::Chunk
        } else if has_console_key {
            LiveEntry::Queue
        } else {
            LiveEntry::FastPathThenQueue
        },
{
    if len <= ATTACHED_LIVE_REROUTE_CHUNK_BYTES {
        LiveEntry::Chunk
    } else if has_console_key {
        LiveEntry::Queue
    } else {
        LiveEntry::FastPathThenQueue
    }
}

/// Takes what follows the first `consumed` bytes, leaving nothing pending;
/// `None`, with nothing changed, where nothing follows.
pub fn take_attached_remaining_input(pending_input: &mut Vec<u8>, consumed: usize) -> (remaining:
    Option<Vec<u8>>)
    ensures
        match remaining {
            Some(remaining) => {
                &&& consumed < old(pending_input)@.len()
                &&& remaining@ == old(pending_input)@.skip(consumed as int)
                &&& final(pending_input)@ == Seq::<u8>::empty()
            },
            None => {
                &&& consumed >= old(pending_input)@.len()
                &&& final(pending_input)@ == old(pending_input)@
            },
        },
{
    if consumed >= pending_input.len() {
        return None;
    }
    let remaining = bytes::copy_range(pending_input.as_slice(), consumed, pending_input.len());
    assert(remaining@ =~= pending_input@.skip(consumed as int));
    pending_input.clear();
    Some(remaining)
}

/// Drops the first `consumed` bytes.
pub fn drop_consumed_input(pending_input: &mut Vec<u8>, consumed: usize)
    requires
        consumed <= old(pending_input)@.len(),
    ensures
        final(pending_input)@ == old(pending_input)@.skip(consumed as int),
{
    let rest: Vec<u8> = pending_input.split_off(consumed);
    assert(rest@ =~= old(pending_input)@.skip(consumed as int));
    *pending_input = rest;
}

/// How a step ended that a mode of the client took: what the mode left over is
/// routed anew.
pub fn attached_mode_input_step(remaining: Option<Vec<u8>>) -> (step: AttachedLiveInputStep)
    ensures
        step == match remaining {
            Some(bytes) => AttachedLiveInputStep::Reroute { bytes, forwarded: false },
            None => AttachedLiveInputStep::Complete(false),
        },
{
    match remaining {
        Some(bytes) => AttachedLiveInputStep::Reroute { bytes, forwarded: false },
        None => AttachedLiveInputStep::Complete(false),
    }
}

/// A byte that plain typing sends: printable ASCII, carriage return, line feed.
pub open spec fn is_plain_byte(byte: u8) -> bool {
    byte == 0x0d || byte == 0x0a || 0x20 <= byte <= 0x7e
}

/// Whether `bytes` is plain typing.
pub fn is_plain_attached_fast_path_input(bytes: &[u8]) -> (plain: bool)
    ensures
        plain == (bytes@.len() > 0 && forall|i: int|
            0 <= i < bytes@.len() ==> is_plain_byte(#[trigger] bytes@[i])),
{
    if bytes.len() == 0 {
        return false;
    }
    let mut i: usize = 0;
    while i < bytes.len()
        invariant
            i <= bytes@.len(),
            forall|k: int| 0 <= k < i ==> is_plain_byte(#[trigger] bytes@[k]),
        decreases bytes.len() - i,
    {
        let byte: u8 = bytes[i];
        if !(byte == 0x0d || byte == 0x0a || (byte >= 0x20 && byte <= 0x7e)) {
            assert(!is_plain_byte(bytes@[i as int]));
            return false;
        }
        i = i + 1;
    }
    true
}

/// A byte that the Enter key sends.
pub open spec fn is_enter_byte(byte: u8) -> bool {
    byte == 0x0d || byte == 0x0a
}

/// The text before the first Enter, where there is an Enter and text before it.
pub fn submitted_text_before_enter(bytes: &[u8]) -> (submitted: Option<&[u8]>)
    ensures
        match submitted {
            Some(submitted) => {
                let enter = submitted@.len() as int;
                &&& 0 < enter < bytes@.len()
                &&& submitted@ == bytes@.take(enter)
                &&& is_enter_byte(bytes@[enter])
                &&& forall|i: int| 0 <= i < enter ==> !is_enter_byte(#[trigger] bytes@[i])
            },
            None => {
                ||| forall|i: int| 0 <= i < bytes@.len() ==> !is_enter_byte(#[trigger] bytes@[i])
                ||| bytes@.len() > 0 && is_enter_byte(bytes@[0])
            },
        },
{
    let mut enter: usize = 0;
    while enter < bytes.len()
        invariant
            enter <= bytes@.len(),
            forall|i: int| 0 <= i < enter ==> !is_enter_byte(#[trigger] bytes@[i]),
        decreases bytes.len() - enter,
    {
        if bytes[enter] == 0x0d || bytes[enter] == 0x0a {
            if enter == 0 {
                return None;
            }
            let submitted = vstd::slice::slice_subrange(bytes, 0, enter);
            assert(submitted@ =~= bytes@.take(enter as int));
            return Some(submitted);
        }
        enter = enter + 1;
    }
    None
}

/// What the input path reads of an attached client.
#[derive(Debug, PartialEq, Eq)]
pub struct AttachedClient {
    pub session_name: String,
    pub can_write: bool,
    /// The client asked to be read-only.
    pub read_only: bool,
    pub prompt: bool,
    pub mode_tree: bool,
    pub overlay: bool,
    pub display_panes: bool,
    pub key_table: bool,
}

impl AttachedClient {
    /// The client's input may reach a pane.
    pub open spec fn writes(&self) -> bool {
        self.can_write && !self.read_only
    }

    /// No mode of the client takes its input.
    pub open spec fn is_plain(&self) -> bool {
        !self.prompt && !self.mode_tree && !self.overlay && !self.display_panes
    }
}

fn disappeared() -> (error: RmuxError)
    ensures
        error@ == error::ErrorModel::Server("attached client disappeared"@),
{
    error::server_error("attached client disappeared")
}

/// The session whose pane gets plain typing of `client` directly; none where the
/// client may not write or a mode or key table takes its input first.
pub fn fast_path_attached_session(client: Option<&AttachedClient>) -> (session: Result<
    Option<String>,
    RmuxError,
>)
    ensures
        match (client, session) {
            (None, Err(error)) => error@ == error::ErrorModel::Server(
                "attached client disappeared"@,
            ),
            (Some(client), Ok(Some(session))) => client.writes() && client.is_plain()
                && !client.key_table && session@ == client.session_name@,
            (Some(client), Ok(None)) => !(client.writes() && client.is_plain()
                && !client.key_table),
            _ => false,
        },
{
    match client {
        None => Err(disappeared()),
        Some(client) => {
            if !client.can_write || client.read_only {
                return Ok(None);
            }
            if client.prompt || client.mode_tree || client.overlay || client.display_panes
                || client.key_table {
                return Ok(None);
            }
            Ok(Some(client.session_name.clone()))
        },
    }
}

/// Whether rerouted input of `client` may be cut into pieces: no mode of the
/// client takes it.
pub fn attached_live_input_can_use_reroute_chunks(client: Option<&AttachedClient>) -> (may: Result<
    bool,
    RmuxError,
>)
    ensures
        match (client, may) {
            (None, Err(error)) => error@ == error::ErrorModel::Server(
                "attached client disappeared"@,
            ),
            (Some(client), Ok(may)) => may == (client.writes() && client.is_plain()),
            _ => false,
        },
{
    match client {
        None => Err(disappeared()),
        Some(client) => Ok(
            client.can_write && !client.read_only && !client.prompt && !client.mode_tree
                && !client.overlay && !client.display_panes,
        ),
    }
}

/// Whether `client` has a key table active.
pub fn attached_key_table_active(client: Option<&AttachedClient>) -> (active: bool)
    ensures
        active == (client matches Some(client) && client.key_table),
{
    match client {
        Some(client) => client.key_table,
        None => false,
    }
}

/// What plain typing reads of the pane it goes to.
#[derive(Debug, Clone, Copy, PartialEq, Eq, Structural)]
pub struct PaneModes {
    pub copy_mode: bool,
    pub clock_mode: bool,
    pub mouse: bool,
}

/// What plain typing asks for. Where one of these fails, the input fails, and nothing
/// more is done.
#[derive(Debug, Clone, Copy, PartialEq, Eq, Structural)]
pub enum FastEffect {
    /// Record the line that is submitted, while the state is held.
    RecordSubmitted,
    /// Clear the alerts of the pane's window in the client's session, while the state
    /// is held, and note whether any were set.
    ClearWindowAlerts,
    /// Make the writes to the pane ready, while the state is held.
    PrepareWrites,
    /// Tell that the client is active, where that was not told yet.
    TellActiveClient,
    /// Write the bytes.
    WriteBytes,
    /// Draw the session anew for its clients, without waiting for it.
    RefreshAttachedClients,
}

/// What plain typing does.
#[derive(Debug, PartialEq, Eq)]
pub struct FastForward {
    /// The line that an Enter among the bytes submits.
    pub submitted: Option<Vec<u8>>,
    /// What is done while the state is held, in order.
    pub effects: Vec<FastEffect>,
}

/// What plain typing asks for while the state is held, in order.
pub open spec fn fast_held_effects(submits: bool) -> Seq<FastEffect> {
    if submits {
        seq![FastEffect::RecordSubmitted, FastEffect::ClearWindowAlerts, FastEffect::PrepareWrites]
    } else {
        seq![FastEffect::ClearWindowAlerts, FastEffect::PrepareWrites]
    }
}

/// What plain typing asks for once the state is let go of, in order.
pub open spec fn fast_sent_effects(alerts_changed: bool) -> Seq<FastEffect> {
    if alerts_changed {
        seq![
            FastEffect::TellActiveClient,
            FastEffect::WriteBytes,
            FastEffect::RefreshAttachedClients,
        ]
    } else {
        seq![FastEffect::TellActiveClient, FastEffect::WriteBytes]
    }
}

/// What plain typing asks for once the state is let go of, in order, and whether it was
/// forwarded then. `alerts_changed` is whether alerts of the window were cleared.
pub fn finish_fast_forward(alerts_changed: bool) -> (finished: (Vec<FastEffect>, bool))
    ensures
        finished.0@ == fast_sent_effects(alerts_changed),
        finished.1,
{
    let mut effects: Vec<FastEffect> = Vec::new();
    effects.push(FastEffect::TellActiveClient);
    effects.push(FastEffect::WriteBytes);
    if alerts_changed {
        effects.push(FastEffect::RefreshAttachedClients);
    }
    assert(effects@ =~= fast_sent_effects(alerts_changed));
    (effects, true)
}

/// The fast path takes the bytes.
pub open spec fn takes_fast_path(
    pending_input: Seq<u8>,
    bytes: Seq<u8>,
    modes: PaneModes,
    decoded: Seq<AttachedKeyDecode>,
    prefix_keys: PrefixKeys,
) -> bool {
    &&& pending_input.len() == 0
    &&& bytes.len() > 0
    &&& forall|i: int| 0 <= i < bytes.len() ==> is_plain_byte(#[trigger] bytes[i])
    &&& !modes.copy_mode && !modes.clock_mode && !modes.mouse
    &&& forall|at: int|
        0 <= at < bytes.len() ==> !#[trigger] keys::starts_with_prefix_key(
            bytes.subrange(at, bytes.len() as int),
            decoded[at],
            prefix_keys.prefix,
            prefix_keys.prefix2,
        )
}

/// Plain typing that nothing but its pane has an interest in: nothing is
/// pending, no mode of the pane takes it and no prefix key is among it.
/// `decoded` has, for each offset, what the key decoder answers of the bytes
/// from there on. `finish_fast_forward` says what follows once the state is let go of.
pub fn try_forward_plain_attached_bytes_fast(
    pending_input: &[u8],
    bytes: &[u8],
    modes: PaneModes,
    decoded: &[AttachedKeyDecode],
    prefix_keys: PrefixKeys,
) -> (forward: Option<FastForward>)
    requires
        decoded@.len() == bytes@.len(),
    ensures
        match forward {
            Some(forward) => {
                &&& takes_fast_path(pending_input@, bytes@, modes, decoded@, prefix_keys)
                &&& forward.effects@ == fast_held_effects(forward.submitted is Some)
                &&& match forward.submitted {
                    Some(submitted) => {
                        let enter = submitted@.len() as int;
                        &&& 0 < enter < bytes@.len()
                        &&& submitted@ == bytes@.take(enter)
                        &&& is_enter_byte(bytes@[enter])
                        &&& forall|i: int| 0 <= i < enter ==> !is_enter_byte(#[trigger] bytes@[i])
                    },
                    None => {
                        ||| forall|i: int|
                            0 <= i < bytes@.len() ==> !is_enter_byte(#[trigger] bytes@[i])
                        ||| is_enter_byte(bytes@[0])
                    },
                }
            },
            None => !takes_fast_path(pending_input@, bytes@, modes, decoded@, prefix_keys),
        },
{
    if pending_input.len() > 0 || !is_plain_attached_fast_path_input(bytes) {
        return None;
    }
    if modes.copy_mode || modes.clock_mode || modes.mouse {
        return None;
    }
    if keys::input_contains_prefix(bytes, decoded, prefix_keys.prefix, prefix_keys.prefix2) {
        return None;
    }
    let submitted = match submitted_text_before_enter(bytes) {
        Some(line) => {
            let copy = bytes::copy_range(line, 0, line.len());
            assert(copy@ =~= line@);
            Some(copy)
        },
        None => None,
    };
    let mut effects: Vec<FastEffect> = Vec::new();
    if submitted.is_some() {
        effects.push(FastEffect::RecordSubmitted);
    }
    effects.push(FastEffect::ClearWindowAlerts);
    effects.push(FastEffect::PrepareWrites);
    assert(effects@ =~= fast_held_effects(submitted is Some));
    Some(FastForward { submitted, effects })
}

/// The console event that a step's bytes count for: only where nothing is
/// pending and there are bytes.
pub fn step_console_key(
    windows_console_key: Option<WindowsConsoleKeyEvent>,
    pending_input: &[u8],
    bytes: &[u8],
) -> (key: Option<WindowsConsoleKeyEvent>)
    ensures
        key == if pending_input@.len() == 0 && bytes@.len() > 0 {
            windows_console_key
        } else {
            None
        },
{
    if pending_input.len() == 0 && bytes.len() > 0 {
        windows_console_key
    } else {
        None
    }
}

/// The bound key of a step that is one key of a console, looked up before the
/// scan; `decoded` is what the key decoder answers of the step's bytes.
pub fn console_override_key(
    pending_input: &[u8],
    bytes: &[u8],
    console_key: Option<WindowsConsoleKeyEvent>,
    decoded: AttachedKeyDecode,
) -> (key: Option<KeyCode>)
    ensures
        key == match (console_key, decoded) {
            (Some(event), AttachedKeyDecode::Matched { size, key }) => if pending_input@.len() == 0
                && size == bytes@.len() {
                keys::console_control_key(key, event)
            } else {
                None
            },
            _ => None,
        },
{
    match (console_key, decoded) {
        (Some(event), AttachedKeyDecode::Matched { size, key }) => {
            if pending_input.len() == 0 && size == bytes.len() {
                keys::windows_console_binding_override_key(key, event)
            } else {
                None
            }
        },
        _ => None,
    }
}

/// The end-of-input key of a console, where a step with nothing pending is just
/// that byte.
pub fn console_control_d_key(
    pending_input: &[u8],
    bytes: &[u8],
    control_d: Option<KeyCode>,
) -> (key: Option<KeyCode>)
    ensures
        key == if pending_input@.len() == 0 && bytes@ == seq![0x04u8] {
            control_d
        } else {
            None
        },
{
    if pending_input.len() == 0 && bytes.len() == 1 && bytes[0] == 0x04 {
        assert(bytes@ =~= seq![0x04u8]);
        control_d
    } else {
        None
    }
}

/// Whether a step is looked at for an immediate detach before the scan.
pub fn tries_immediate_detach(pending_input: &[u8], key_table_active: bool) -> (tries: bool)
    ensures
        tries == (pending_input@.len() == 0 && !key_table_active),
{
    pending_input.len() == 0 && !key_table_active
}

/// Where the scan of `pending_input` followed by a step's bytes begins, with
/// what is fixed for it.
pub fn begin_live_scan(
    pending_input: &mut Vec<u8>,
    bytes: &[u8],
    copy_mode: bool,
    focus_events: bool,
    console_key: Option<WindowsConsoleKeyEvent>,
    control_d: Option<KeyCode>,
) -> (scan: (LiveContext, LiveCursor))
    ensures
        final(pending_input)@ == old(pending_input)@ + bytes@,
        scan.0 == (LiveContext {
            copy_mode,
            focus_events,
            new_input_at: old(pending_input)@.len() as usize,
            step_len: bytes@.len() as usize,
            console_key,
            control_d,
        }),
        scan.1 == (LiveCursor { raw_start: 0, offset: 0, forwarded: false, prefix_keys: None }),
        scan.1.within(final(pending_input)@.len() as int),
{
    let new_input_at: usize = pending_input.len();
    bytes::push_all(pending_input, bytes);
    (
        LiveContext {
            copy_mode,
            focus_events,
            new_input_at,
            step_len: bytes.len(),
            console_key,
            control_d,
        },
        LiveCursor { raw_start: 0, offset: 0, forwarded: false, prefix_keys: None },
    )
}

/// Input that clock mode keeps until more bytes arrive.
#[derive(Debug, Clone, Copy, PartialEq, Eq, Structural)]
pub enum RetainedClockInput {
    BracketedPaste,
    Mouse,
    Key,
}

/// What clock mode needs next.
#[derive(Debug, Clone, Copy, PartialEq, Eq, Structural)]
pub enum ClockNext {
    /// Leave clock mode and route all input anew.
    LeaveAndReroute,
    /// Keep the input.
    Retain(RetainedClockInput),
    /// Whether a mouse report begins the input.
    MousePrefix,
    /// What the key decoder answers.
    Key,
    /// What the prompt decoder answers.
    PromptInput,
    /// Drop this many bytes, leave clock mode and route the rest anew.
    Consume { size: usize },
}

/// Clock mode at new input: a paste leaves it whole.
pub fn clock_mode_paste(pending_input: &[u8], new_input_at: usize) -> (next: ClockNext)
    ensures
        next == match bracketed_paste::paste_decode(pending_input@, new_input_at as int) {
            BracketedPasteDecode::Matched { .. } => ClockNext::LeaveAndReroute,
            BracketedPasteDecode::Partial => ClockNext::Retain(RetainedClockInput::BracketedPaste),
            BracketedPasteDecode::NotPaste => ClockNext::MousePrefix,
        },
{
    match bracketed_paste::decode_bracketed_paste_after_append(pending_input, new_input_at) {
        BracketedPasteDecode::Matched { .. } => ClockNext::LeaveAndReroute,
        BracketedPasteDecode::Partial => ClockNext::Retain(RetainedClockInput::BracketedPaste),
        BracketedPasteDecode::NotPaste => ClockNext::MousePrefix,
    }
}

/// Clock mode on what the mouse decoder answered, `None` where no mouse report
/// begins the input.
pub fn clock_mode_mouse(decoded: Option<MouseDecode>) -> (next: ClockNext)
    ensures
        next == match decoded {
            Some(MouseDecode::Matched { size }) => if size > 0 {
                ClockNext::Consume { size }
            } else {
                ClockNext::Key
            },
            Some(MouseDecode::Discard { size }) => if size > 0 {
                ClockNext::Consume { size }
            } else {
                ClockNext::Key
            },
            Some(MouseDecode::Partial) => ClockNext::Retain(RetainedClockInput::Mouse),
            Some(MouseDecode::Overlong) => ClockNext::Retain(RetainedClockInput::Mouse),
            Some(MouseDecode::Invalid) => ClockNext::Key,
            None => ClockNext::Key,
        },
{
    let consumed: usize = match decoded {
        Some(MouseDecode::Matched { size }) => size,
        Some(MouseDecode::Discard { size }) => size,
        Some(MouseDecode::Partial) | Some(MouseDecode::Overlong) => {
            return ClockNext::Retain(RetainedClockInput::Mouse);
        },
        Some(MouseDecode::Invalid) | None => 0,
    };
    if consumed > 0 {
        ClockNext::Consume { size: consumed }
    } else {
        ClockNext::Key
    }
}

/// Clock mode on what the key decoder answered.
pub fn clock_mode_key(decoded: AttachedKeyDecode) -> (next: ClockNext)
    ensures
        next == match decoded {
            AttachedKeyDecode::Matched { size, .. } => ClockNext::Consume { size },
            AttachedKeyDecode::Partial => ClockNext::Retain(RetainedClockInput::Key),
            AttachedKeyDecode::Invalid => ClockNext::PromptInput,
        },
{
    match decoded {
        AttachedKeyDecode::Matched { size, .. } => ClockNext::Consume { size },
        AttachedKeyDecode::Partial => ClockNext::Retain(RetainedClockInput::Key),
        AttachedKeyDecode::Invalid => ClockNext::PromptInput,
    }
}

/// Clock mode on how many bytes the prompt decoder takes, `None` where it takes
/// none.
pub fn clock_mode_prompt_input(consumed: Option<usize>) -> (next: ClockNext)
    ensures
        next == match consumed {
            Some(size) => ClockNext::Consume { size },
            None => ClockNext::Retain(RetainedClockInput::Key),
        },
{
    match consumed {
        Some(size) => ClockNext::Consume { size },
        None => ClockNext::Retain(RetainedClockInput::Key),
    }
}

/// How a step ends that leaves clock mode after `size` bytes: the rest is routed
/// anew, and nothing stays pending.
pub fn leave_clock_mode(pending_input: &mut Vec<u8>, size: usize) -> (step: AttachedLiveInputStep)
    requires
        size <= old(pending_input)@.len(),
    ensures
        final(pending_input)@ == Seq::<u8>::empty(),
        if size < old(pending_input)@.len() {
            step matches AttachedLiveInputStep::Reroute { bytes, forwarded } && !forwarded
                && bytes@ == old(pending_input)@.skip(size as int)
        } else {
            step == AttachedLiveInputStep::Complete(false)
        },
{
    drop_consumed_input(pending_input, size);
    if pending_input.len() == 0 {
        assert(pending_input@ =~= Seq::<u8>::empty());
        attached_mode_input_step(None)
    } else {
        let rest: Vec<u8> = pending_input.split_off(0);
        assert(rest@ =~= old(pending_input)@.skip(size as int));
        assert(pending_input@ =~= Seq::<u8>::empty());
        attached_mode_input_step(Some(rest))
    }
}

/// Which of two limits bounds retained input.
#[derive(Debug, Clone, Copy, PartialEq, Eq, Structural)]
pub enum RetainLimit {
    /// Long controls and pastes.
    Control,
    /// Escape sequences.
    Escape,
}

/// The limit that bounds input retained by the scan, and what it is called.
pub fn retained_input_limit(kind: RetainedInput) -> (limit: (RetainLimit, &'static str))
    ensures
        match kind {
            RetainedInput::BracketedPaste => limit.0 == RetainLimit::Control && limit.1@
                == "live bracketed paste"@,
            RetainedInput::KittyGraphics => limit.0 == RetainLimit::Control && limit.1@
                == "live kitty graphics APC"@,
            RetainedInput::TerminalResponse => limit.0 == RetainLimit::Control && limit.1@
                == "live terminal response"@,
            RetainedInput::Mouse => limit.0 == RetainLimit::Escape && limit.1@ == "live mouse"@,
            RetainedInput::ExtendedKey => limit.0 == RetainLimit::Escape && limit.1@
                == "live extended key"@,
            RetainedInput::Utf8 => limit.0 == RetainLimit::Escape && limit.1@ == "live utf-8"@,
            RetainedInput::AttachedKey => limit.0 == RetainLimit::Escape && limit.1@
                == "live attached key"@,
        },
{
    match kind {
        RetainedInput::BracketedPaste => (RetainLimit::Control, "live bracketed paste"),
        RetainedInput::KittyGraphics => (RetainLimit::Control, "live kitty graphics APC"),
        RetainedInput::TerminalResponse => (RetainLimit::Control, "live terminal response"),
        RetainedInput::Mouse => (RetainLimit::Escape, "live mouse"),
        RetainedInput::ExtendedKey => (RetainLimit::Escape, "live extended key"),
        RetainedInput::Utf8 => (RetainLimit::Escape, "live utf-8"),
        RetainedInput::AttachedKey => (RetainLimit::Escape, "live attached key"),
    }
}

/// The limit that bounds input retained by clock mode, and what it is called.
pub fn retained_clock_input_limit(kind: RetainedClockInput) -> (limit: (RetainLimit, &'static str))
    ensures
        match kind {
            RetainedClockInput::BracketedPaste => limit.0 == RetainLimit::Control && limit.1@
                == "clock mode bracketed paste"@,
            RetainedClockInput::Mouse => limit.0 == RetainLimit::Escape && limit.1@
                == "clock mode mouse input"@,
            RetainedClockInput::Key => limit.0 == RetainLimit::Escape && limit.1@
                == "clock mode input"@,
        },
{
    match kind {
        RetainedClockInput::BracketedPaste => (RetainLimit::Control, "clock mode bracketed paste"),
        RetainedClockInput::Mouse => (RetainLimit::Escape, "clock mode mouse input"),
        RetainedClockInput::Key => (RetainLimit::Escape, "clock mode input"),
    }
}

/// Which window a client was last told to be active in, and when.
#[derive(Debug, PartialEq, Eq)]
pub struct ActiveClientEmit {
    pub epoch: u64,
    pub session_name: String,
    pub window_index: u32,
}

/// An emit as a value: its epoch and its window.
pub type EmitModel = (u64, WindowPlace);

/// A cached emit as a value.
pub open spec fn emit_model(cache: Option<ActiveClientEmit>) -> Option<EmitModel> {
    match cache {
        Some(cached) => Some((cached.epoch, (cached.session_name@, cached.window_index))),
        None => None,
    }
}

/// Whether the cached emit still stands, so that nothing is to be recorded.
pub fn active_client_emit_is_current(
    cache: &Option<ActiveClientEmit>,
    epoch: u64,
    target: &PaneTarget,
) -> (current: bool)
    ensures
        current == (emit_model(*cache) == Some((epoch, (target@.0, target@.1)))),
{
    match cache {
        Some(cached) => cached.epoch == epoch && text::same_text(
            cached.session_name.as_str(),
            target.session_name.as_str(),
        ) && cached.window_index == target.window_index,
        None => false,
    }
}

/// Something that happened to a client or a pane, as hooks are told of it.
#[derive(Debug, PartialEq, Eq)]
pub enum InputLifecycle {
    ClientActive { session_name: String, client_name: String },
    ClientFocusIn { session_name: String, client_name: String },
    ClientFocusOut { session_name: String, client_name: String },
    ClientLightTheme { session_name: String, client_name: String },
    ClientDarkTheme { session_name: String, client_name: String },
    PaneFocusIn { target: PaneTarget },
    PaneFocusOut { target: PaneTarget },
}

/// The same as a value; a client is a session and a name.
pub enum LifecycleModel {
    ClientActive(Seq<char>, Seq<char>),
    ClientFocusIn(Seq<char>, Seq<char>),
    ClientFocusOut(Seq<char>, Seq<char>),
    ClientLightTheme(Seq<char>, Seq<char>),
    ClientDarkTheme(Seq<char>, Seq<char>),
    PaneFocusIn(PanePlace),
    PaneFocusOut(PanePlace),
}

impl View for InputLifecycle {
    type V = LifecycleModel;

    open spec fn view(&self) -> LifecycleModel {
        match self {
            InputLifecycle::ClientActive { session_name, client_name } => {
                LifecycleModel::ClientActive(session_name@, client_name@)
            },
            InputLifecycle::ClientFocusIn { session_name, client_name } => {
                LifecycleModel::ClientFocusIn(session_name@, client_name@)
            },
            InputLifecycle::ClientFocusOut { session_name, client_name } => {
                LifecycleModel::ClientFocusOut(session_name@, client_name@)
            },
            InputLifecycle::ClientLightTheme { session_name, client_name } => {
                LifecycleModel::ClientLightTheme(session_name@, client_name@)
            },
            InputLifecycle::ClientDarkTheme { session_name, client_name } => {
                LifecycleModel::ClientDarkTheme(session_name@, client_name@)
            },
            InputLifecycle::PaneFocusIn { target } => LifecycleModel::PaneFocusIn(target@),
            InputLifecycle::PaneFocusOut { target } => LifecycleModel::PaneFocusOut(target@),
        }
    }
}

/// Takes in that a client typed into a pane. `changed` is whether it is another
/// client than before that is active in the pane's window, recorded only where the
/// cached emit does not stand any more; it is missing where the client is gone. A
/// change begins another epoch and is told.
pub fn emit_attached_client_active_if_changed(
    cache: &mut Option<ActiveClientEmit>,
    epoch: &mut u64,
    attach_pid: u32,
    target: &PaneTarget,
    changed: Option<bool>,
) -> (event: Option<InputLifecycle>)
    ensures
        ({
            let window = (target@.0, target@.1);
            if emit_model(*old(cache)) == Some((*old(epoch), window)) || changed is None {
                &&& event is None
                &&& *final(cache) == *old(cache)
                &&& *final(epoch) == *old(epoch)
            } else if changed == Some(true) {
                &&& event matches Some(event)
                &&& event@ == LifecycleModel::ClientActive(
                    target@.0,
                    text::decimal(attach_pid as nat),
                )
                &&& *final(epoch) == if *old(epoch) == u64::MAX {
                    0
                } else {
                    *old(epoch) + 1
                }
                &&& emit_model(*final(cache)) == Some(
                    (
                        if *old(epoch) == u64::MAX {
                            u64::MAX
                        } else {
                            (*old(epoch) + 1) as u64
                        },
                        window,
                    ),
                )
            } else {
                &&& event is None
                &&& *final(epoch) == *old(epoch)
                &&& emit_model(*final(cache)) == Some((*old(epoch), window))
            }
        }),
{
    if active_client_emit_is_current(cache, *epoch, target) {
        return None;
    }
    let changed = match changed {
        Some(changed) => changed,
        None => {
            return None;
        },
    };
    let before: u64 = *epoch;
    let cache_epoch: u64 = if changed {
        before.saturating_add(1)
    } else {
        before
    };
    *cache = Some(
        ActiveClientEmit {
            epoch: cache_epoch,
            session_name: target.session_name.clone(),
            window_index: target.window_index,
        },
    );
    if !changed {
        return None;
    }
    *epoch = if before == u64::MAX {
        0
    } else {
        before + 1
    };
    Some(
        InputLifecycle::ClientActive {
            session_name: target.session_name.clone(),
            client_name: text::decimal_text(attach_pid as u64),
        },
    )
}

/// What is told, in this order, where the terminal of a client that shows `target`
/// reports an event.
pub open spec fn control_event_lifecycle(
    attach_pid: u32,
    target: PanePlace,
    event: TerminalControlEvent,
) -> Seq<LifecycleModel> {
    let client = text::decimal(attach_pid as nat);
    match event {
        TerminalControlEvent::FocusIn => seq![
            LifecycleModel::ClientFocusIn(target.0, client),
            LifecycleModel::PaneFocusIn(target),
        ],
        TerminalControlEvent::FocusOut => seq![
            LifecycleModel::PaneFocusOut(target),
            LifecycleModel::ClientFocusOut(target.0, client),
        ],
        TerminalControlEvent::ClientLightTheme => seq![
            LifecycleModel::ClientLightTheme(target.0, client),
        ],
        TerminalControlEvent::ClientDarkTheme => seq![
            LifecycleModel::ClientDarkTheme(target.0, client),
        ],
    }
}

/// What is told, in this order, where the terminal of a client that shows `target`
/// reports an event.
pub fn handle_attached_terminal_control_event(
    attach_pid: u32,
    target: &PaneTarget,
    event: TerminalControlEvent,
) -> (told: Vec<InputLifecycle>)
    ensures
        told@.map_values(|event: InputLifecycle| event@) == control_event_lifecycle(
            attach_pid,
            target@,
            event,
        ),
{
    let session_name = target.session_name.clone();
    let client_name = text::decimal_text(attach_pid as u64);
    let mut told: Vec<InputLifecycle> = Vec::new();
    match event {
        TerminalControlEvent::FocusIn => {
            told.push(InputLifecycle::ClientFocusIn { session_name, client_name });
            told.push(InputLifecycle::PaneFocusIn { target: target.clone() });
        },
        TerminalControlEvent::FocusOut => {
            told.push(InputLifecycle::PaneFocusOut { target: target.clone() });
            told.push(InputLifecycle::ClientFocusOut { session_name, client_name });
        },
        TerminalControlEvent::ClientLightTheme => {
            told.push(InputLifecycle::ClientLightTheme { session_name, client_name });
        },
        TerminalControlEvent::ClientDarkTheme => {
            told.push(InputLifecycle::ClientDarkTheme { session_name, client_name });
        },
    }
    assert(told@.map_values(|event: InputLifecycle| event@) =~= control_event_lifecycle(
        attach_pid,
        target@,
        event,
    ));
    told
}

/// The window whose alerts are cleared where a client types: the active one of its
/// session.
pub fn clear_attached_focus_alerts(store: &SessionStore, client: Option<&AttachedClient>) -> (window:
    Option<(String, u32)>)
    ensures
        match client {
            Some(client) => match store.session_spec(client.session_name@) {
                Some(session) => window matches Some((name, index)) && name@
                    == client.session_name@ && index == session.active_window_index,
                None => window is None,
            },
            None => window is None,
        },
{
    match client {
        Some(client) => match store.session(client.session_name.as_str()) {
            Some(session) => Some((client.session_name.clone(), session.active_window_index)),
            None => None,
        },
        None => None,
    }
}

/// Where a terminal loses focus, the same client and pane are told of as where it
/// gained it, in the opposite order.
pub proof fn focus_is_lost_in_the_opposite_order(attach_pid: u32, target: PanePlace)
    ensures
        ({
            let gained = control_event_lifecycle(attach_pid, target, TerminalControlEvent::FocusIn);
            let lost = control_event_lifecycle(attach_pid, target, TerminalControlEvent::FocusOut);
            &&& gained.len() == lost.len() == 2
            &&& gained[0] matches LifecycleModel::ClientFocusIn(session, client) && lost[1]
                == LifecycleModel::ClientFocusOut(session, client)
            &&& gained[1] matches LifecycleModel::PaneFocusIn(pane) && lost[0]
                == LifecycleModel::PaneFocusOut(pane)
        }),
{
}

/// A command of a key binding.
#[derive(Debug, PartialEq, Eq)]
pub struct BoundCommand {
    pub name: String,
    pub arguments: Vec<String>,
}

/// The first key of a step that may be a prefix key with one more key after it.
pub open spec fn leading_key(bytes: Seq<u8>, decoded: AttachedKeyDecode) -> Option<
    (usize, KeyCode),
> {
    match keys::live_key_decode(bytes, decoded) {
        AttachedKeyDecode::Matched { size, key } => if 0 < size < bytes.len() {
            Some((size, key))
        } else {
            None
        },
        _ => None,
    }
}

/// The first key of a step and how many bytes it takes, where more follow.
pub fn immediate_prefix(bytes: &[u8], decoded: AttachedKeyDecode) -> (leading: Option<
    (usize, KeyCode),
>)
    ensures
        leading == leading_key(bytes@, decoded),
{
    match keys::decode_live_attached_key(bytes, decoded) {
        AttachedKeyDecode::Matched { size, key } => {
            if size == 0 || size >= bytes.len() {
                None
            } else {
                Some((size, key))
            }
        },
        _ => None,
    }
}

/// The key that takes up all of a step after its first `prefix_size` bytes.
pub fn immediate_command(bytes: &[u8], prefix_size: usize, decoded: AttachedKeyDecode) -> (command:
    Option<KeyCode>)
    requires
        prefix_size < bytes@.len(),
    ensures
        command == match keys::live_key_decode(bytes@.skip(prefix_size as int), decoded) {
            AttachedKeyDecode::Matched { size, key } => if prefix_size + size == bytes@.len() {
                Some(key)
            } else {
                None
            },
            _ => None,
        },
{
    let rest = vstd::slice::slice_subrange(bytes, prefix_size, bytes.len());
    assert(rest@ =~= bytes@.skip(prefix_size as int));
    match keys::decode_live_attached_key(rest, decoded) {
        AttachedKeyDecode::Matched { size, key } => {
            if size == bytes.len() - prefix_size {
                Some(key)
            } else {
                None
            }
        },
        _ => None,
    }
}

/// A binding that does nothing but detach the client.
pub open spec fn is_bare_detach(commands: Seq<BoundCommand>) -> bool {
    commands.len() == 1 && commands[0].name@ == "detach-client"@ && commands[0].arguments@.len()
        == 0
}

/// Whether a step of two keys detaches the client at once: the first is a
/// prefix key, and what the prefix table binds the second to, `binding`, does
/// nothing but detach.
pub fn is_immediate_detach(
    prefix_key: KeyCode,
    prefix_keys: PrefixKeys,
    binding: Option<&Vec<BoundCommand>>,
) -> (detaches: bool)
    ensures
        detaches == (keys::is_prefix_key(prefix_key, prefix_keys.prefix, prefix_keys.prefix2)
            && (binding matches Some(commands) && is_bare_detach(commands@))),
{
    if !keys::matches_prefix_key(prefix_key, prefix_keys.prefix, prefix_keys.prefix2) {
        return false;
    }
    match binding {
        Some(commands) => commands.len() == 1 && text::same_text(
            commands[0].name.as_str(),
            "detach-client",
        ) && commands[0].arguments.len() == 0,
        None => false,
    }
}

/// What becomes of input that waited for the rest of an operating system command
/// or graphics command when its time is up.
#[derive(Debug, Clone, Copy, PartialEq, Eq, Structural)]
pub enum ExpiredPrefix {
    /// It is no key: write it as it is.
    WriteRaw,
    /// Handle the key, then route what follows `rest` anew.
    Key { key: KeyCode, rest: Option<usize> },
}

/// Input whose time is up.
#[derive(Debug, PartialEq, Eq)]
pub struct ExpiredInput {
    pub bytes: Vec<u8>,
    pub becomes: ExpiredPrefix,
}

/// What becomes of `bytes` whose time is up. `decoded` is what the key decoder answers
/// of them.
pub open spec fn expired_prefix(bytes: Seq<u8>, decoded: AttachedKeyDecode) -> ExpiredPrefix {
    match keys::live_key_decode(bytes, decoded) {
        AttachedKeyDecode::Matched { size, key } => ExpiredPrefix::Key {
            key,
            rest: if size < bytes.len() {
                Some(size)
            } else {
                None
            },
        },
        _ => ExpiredPrefix::WriteRaw,
    }
}

/// Takes out input that waited for the rest of a control, and resolves it in favour of
/// the keyboard. `decoded` is what the key decoder answers of it. What is answered in
/// the end, `flushed_input_forwards` says.
pub fn flush_attached_consumed_osc_prefix(
    pending_input: &mut Vec<u8>,
    decoded: AttachedKeyDecode,
) -> (expired: ExpiredInput)
    ensures
        final(pending_input)@ == Seq::<u8>::empty(),
        expired.bytes@ == old(pending_input)@,
        expired.becomes == expired_prefix(old(pending_input)@, decoded),
{
    let mut bytes: Vec<u8> = Vec::new();
    std::mem::swap(&mut bytes, pending_input);
    let becomes = match keys::decode_live_attached_key(bytes.as_slice(), decoded) {
        AttachedKeyDecode::Matched { size, key } => ExpiredPrefix::Key {
            key,
            rest: if size < bytes.len() {
                Some(size)
            } else {
                None
            },
        },
        _ => ExpiredPrefix::WriteRaw,
    };
    ExpiredInput { bytes, becomes }
}

/// Whether input whose time was up reached a pane: as it was, or by its key, which
/// `handled` says that a binding took, or by what followed the key, of which
/// `rest_forwarded` says it.
pub fn flushed_input_forwards(becomes: ExpiredPrefix, handled: bool, rest_forwarded: bool) -> (
forwarded: bool)
    ensures
        forwarded == match becomes {
            ExpiredPrefix::WriteRaw => true,
            ExpiredPrefix::Key { rest: None, .. } => !handled,
            ExpiredPrefix::Key { rest: Some(_), .. } => !handled || rest_forwarded,
        },
{
    match becomes {
        ExpiredPrefix::WriteRaw => true,
        ExpiredPrefix::Key { rest, .. } => !handled || (rest.is_some() && rest_forwarded),
    }
}

/// Input of up to 1024 bytes goes on whole. Longer input is cut where it may be, into a
/// first piece of exactly 1024 bytes, which keeps the console event, and the rest, which
/// has none; where it may not be cut it goes on whole too.
pub proof fn long_input_is_cut_at_a_kilobyte(works: Seq<WorkModel>, may_chunk: bool)
    requires
        works.len() > 0,
    ensures
        ({
            let (work, left) = next_work(works, may_chunk);
            &&& work.console_key == works[0].console_key
            &&& if may_chunk && works[0].bytes.len() > 1024 {
                &&& work.bytes.len() == 1024
                &&& left.len() == works.len()
                &&& left[0].bytes.len() == works[0].bytes.len() - 1024
                &&& left[0].console_key is None
            } else {
                work.bytes == works[0].bytes && left.len() == works.len() - 1
            }
        }),
        front_is_long(works) == (works[0].bytes.len() > 1024),
{
}

/// Input of up to 1024 bytes is taken up as one piece; longer input by the fast path,
/// unless it came from a console event.
pub proof fn long_input_tries_the_fast_path(len: usize, has_console_key: bool, entry: LiveEntry)
    requires
        call_ensures(live_input_entry, (len, has_console_key), entry),
    ensures
        len <= 1024 ==> entry is Chunk,
        len > 1024 && has_console_key ==> entry is Queue,
        len > 1024 && !has_console_key ==> entry is FastPathThenQueue,
{
}

/// Plain typing is printable ASCII and the two line ends, and nothing else: one byte of
/// another kind, or none at all, and it is not plain.
pub proof fn plain_typing_has_no_other_byte(bytes: &[u8], plain: bool, at: int)
    requires
        call_ensures(is_plain_attached_fast_path_input, (bytes,), plain),
        0 <= at < bytes@.len(),
    ensures
        plain ==> 0x20 <= bytes@[at] <= 0x7e || bytes@[at] == 0x0a || bytes@[at] == 0x0d,
        (forall|i: int|
            0 <= i < bytes@.len() ==> 0x20 <= #[trigger] bytes@[i] <= 0x7e || bytes@[i] == 0x0a
                || bytes@[i] == 0x0d) ==> plain,
{
}

/// The line that typing submits is what stands before the first carriage return or line
/// feed, where something does.
pub proof fn the_first_line_end_submits(
    bytes: &[u8],
    line: Seq<u8>,
    ending: u8,
    rest: Seq<u8>,
    submitted: Option<&[u8]>,
)
    requires
        call_ensures(submitted_text_before_enter, (bytes,), submitted),
        bytes@ == line + seq![ending] + rest,
        ending == 0x0d || ending == 0x0a,
        forall|i: int| 0 <= i < line.len() ==> #[trigger] line[i] != 0x0d && line[i] != 0x0a,
    ensures
        line.len() > 0 ==> (submitted matches Some(text) && text@ == line),
        line.len() == 0 ==> submitted is None,
{
    let at = line.len() as int;
    assert(bytes@[at] == ending);
    assert(is_enter_byte(bytes@[at]));
    if at > 0 {
        assert(bytes@[0] == line[0]);
    }
    match submitted {
        Some(text) => {
            let enter = text@.len() as int;
            assert(is_enter_byte(bytes@[enter]));
            if enter < at {
                assert(bytes@[enter] == line[enter]);
            }
            if at < enter {
                assert(!is_enter_byte(bytes@[at]));
            }
            assert(bytes@.take(at) =~= line);
        },
        None => {},
    }
}

/// Typing without a line end submits nothing.
pub proof fn without_a_line_end_nothing_is_submitted(bytes: &[u8], submitted: Option<&[u8]>)
    requires
        call_ensures(submitted_text_before_enter, (bytes,), submitted),
        forall|i: int| 0 <= i < bytes@.len() ==> #[trigger] bytes@[i] != 0x0d && bytes@[i] != 0x0a,
    ensures
        submitted is None,
{
}

/// The fast path is for a client that may write and is not read-only, that has no
/// prompt, tree, overlay or pane display open, and no key table active; cutting is for
/// the same client, whatever its key table.
pub proof fn the_fast_path_is_for_undisturbed_clients(
    client: AttachedClient,
    session: Result<Option<String>, RmuxError>,
    may: Result<bool, RmuxError>,
)
    requires
        call_ensures(fast_path_attached_session, (Some(&client),), session),
        call_ensures(attached_live_input_can_use_reroute_chunks, (Some(&client),), may),
    ensures
        ({
            let undisturbed = client.can_write && !client.read_only && !client.prompt
                && !client.mode_tree && !client.overlay && !client.display_panes;
            &&& may == Ok::<bool, RmuxError>(undisturbed)
            &&& undisturbed && !client.key_table ==> (session matches Ok(Some(name)) && name@
                == client.session_name@)
            &&& !undisturbed || client.key_table ==> (session matches Ok(none) && none is None)
        }),
{
}

/// Plain typing takes the fast path exactly where nothing is pending, the pane is in
/// neither copy nor clock mode and takes no mouse, and no prefix key is among it. Its
/// line is recorded first, where it has one, before the alerts are cleared and the
/// writes made ready; the bytes are written after the client was told to be active, and
/// what shows the window is drawn last, where alerts changed.
pub proof fn the_fast_path_keeps_its_order(
    pending_input: &[u8],
    bytes: &[u8],
    modes: PaneModes,
    decoded: &[AttachedKeyDecode],
    prefix_keys: PrefixKeys,
    forward: Option<FastForward>,
    alerts_changed: bool,
    finished: (Vec<FastEffect>, bool),
)
    requires
        call_ensures(
            try_forward_plain_attached_bytes_fast,
            (pending_input, bytes, modes, decoded, prefix_keys),
            forward,
        ),
        call_ensures(finish_fast_forward, (alerts_changed,), finished),
    ensures
        forward matches Some(forward) ==> {
            &&& pending_input@.len() == 0 && bytes@.len() > 0
            &&& !modes.copy_mode && !modes.clock_mode && !modes.mouse
            &&& forward.submitted is Some ==> forward.effects@ == seq![
                FastEffect::RecordSubmitted,
                FastEffect::ClearWindowAlerts,
                FastEffect::PrepareWrites,
            ]
            &&& forward.submitted is None ==> forward.effects@ == seq![
                FastEffect::ClearWindowAlerts,
                FastEffect::PrepareWrites,
            ]
        },
        pending_input@.len() == 0 && bytes@.len() > 0 && !modes.copy_mode && !modes.clock_mode
            && !modes.mouse && prefix_keys.prefix is None && prefix_keys.prefix2 is None && (forall|
            i: int,
        |
            0 <= i < bytes@.len() ==> 0x20 <= #[trigger] bytes@[i] <= 0x7e || bytes@[i] == 0x0a
                || bytes@[i] == 0x0d) ==> forward is Some,
        finished.1,
        alerts_changed ==> finished.0@ == seq![
            FastEffect::TellActiveClient,
            FastEffect::WriteBytes,
            FastEffect::RefreshAttachedClients,
        ],
        !alerts_changed ==> finished.0@ == seq![
            FastEffect::TellActiveClient,
            FastEffect::WriteBytes,
        ],
{
}

/// A prefix key anywhere in plain typing keeps it off the fast path.
pub proof fn a_prefix_key_keeps_off_the_fast_path(
    pending_input: &[u8],
    bytes: &[u8],
    modes: PaneModes,
    decoded: &[AttachedKeyDecode],
    prefix_keys: PrefixKeys,
    forward: Option<FastForward>,
    at: int,
    size: usize,
    key: KeyCode,
)
    requires
        call_ensures(
            try_forward_plain_attached_bytes_fast,
            (pending_input, bytes, modes, decoded, prefix_keys),
            forward,
        ),
        0 <= at < bytes@.len(),
        decoded@[at] == (AttachedKeyDecode::Matched { size, key }),
        prefix_keys.prefix == Some(key) || prefix_keys.prefix2 == Some(key),
    ensures
        forward is None,
{
    assert(keys::starts_with_prefix_key(
        bytes@.subrange(at, bytes@.len() as int),
        decoded@[at],
        prefix_keys.prefix,
        prefix_keys.prefix2,
    ));
}

/// A terminal that gains focus tells so of the client first and of its pane then, one
/// that loses it of the pane first; a theme is told of the client alone, light as light
/// and dark as dark. The client goes by its process number, in its pane's session.
pub proof fn reports_of_a_terminal_are_told_in_order(attach_pid: u32, target: PanePlace)
    ensures
        ({
            let client = text::decimal(attach_pid as nat);
            &&& control_event_lifecycle(attach_pid, target, TerminalControlEvent::FocusIn) == seq![
                LifecycleModel::ClientFocusIn(target.0, client),
                LifecycleModel::PaneFocusIn(target),
            ]
            &&& control_event_lifecycle(attach_pid, target, TerminalControlEvent::FocusOut) == seq![
                LifecycleModel::PaneFocusOut(target),
                LifecycleModel::ClientFocusOut(target.0, client),
            ]
            &&& control_event_lifecycle(attach_pid, target, TerminalControlEvent::ClientLightTheme)
                == seq![LifecycleModel::ClientLightTheme(target.0, client)]
            &&& control_event_lifecycle(attach_pid, target, TerminalControlEvent::ClientDarkTheme)
                == seq![LifecycleModel::ClientDarkTheme(target.0, client)]
        }),
{
}

/// A step of two keys detaches at once where the first is a prefix key and the second
/// is bound to `detach-client` without arguments, and to nothing else.
pub proof fn a_prefix_and_a_bare_detach_detach_at_once(
    key: KeyCode,
    other: Option<KeyCode>,
    commands: Vec<BoundCommand>,
    detaches: bool,
)
    requires
        call_ensures(
            is_immediate_detach,
            (key, PrefixKeys { prefix: Some(key), prefix2: other }, Some(&commands)),
            detaches,
        ),
    ensures
        detaches == (commands@.len() == 1 && commands@[0].name@ == "detach-client"@
            && commands@[0].arguments@.len() == 0),
{
}

/// Without a binding, or without prefix keys, nothing detaches at once.
pub proof fn nothing_detaches_unbound(
    key: KeyCode,
    prefix_keys: PrefixKeys,
    commands: Vec<BoundCommand>,
    unbound: bool,
    unprefixed: bool,
)
    requires
        call_ensures(is_immediate_detach, (key, prefix_keys, None), unbound),
        call_ensures(
            is_immediate_detach,
            (key, PrefixKeys { prefix: None, prefix2: None }, Some(&commands)),
            unprefixed,
        ),
    ensures
        !unbound && !unprefixed,
{
}

/// The first key of a step is looked at where more follow it; the second is the command
/// where it takes up all that follows.
pub proof fn a_step_of_two_keys_is_cut_between_them(
    bytes: &[u8],
    size: usize,
    key: KeyCode,
    second: usize,
    command: KeyCode,
    leading: Option<(usize, KeyCode)>,
    follows: Option<KeyCode>,
)
    requires
        call_ensures(
            immediate_prefix,
            (bytes, AttachedKeyDecode::Matched { size, key }),
            leading,
        ),
        0 < size < bytes@.len(),
        call_ensures(
            immediate_command,
            (bytes, size, AttachedKeyDecode::Matched { size: second, key: command }),
            follows,
        ),
    ensures
        leading == Some((size, key)),
        follows == if size + second == bytes@.len() {
            Some(command)
        } else {
            None::<KeyCode>
        },
{
}

/// Input whose time is up is its key where it is one, with what stands behind the key
/// routed anew where there is something, and is else written as it is.
pub proof fn expired_input_is_its_key_or_written(bytes: Seq<u8>, size: usize, key: KeyCode)
    ensures
        expired_prefix(bytes, AttachedKeyDecode::Matched { size, key }) == (ExpiredPrefix::Key {
            key,
            rest: if size < bytes.len() {
                Some(size)
            } else {
                None
            },
        }),
        expired_prefix(bytes, AttachedKeyDecode::Partial) is WriteRaw,
        bytes.len() >= 2 && bytes[0] == 0x1b && bytes[1] < 0x80 ==> expired_prefix(
            bytes,
            AttachedKeyDecode::Invalid,
        ) is WriteRaw,
{
}

/// What is told of a client or a pane is told as what it is: focus gained as gained and
/// lost as lost, light as light and dark as dark, the session before the client.
pub proof fn what_is_told_is_told_as_it_is(
    session_name: String,
    client_name: String,
    target: PaneTarget,
)
    ensures
        (InputLifecycle::ClientActive { session_name, client_name })@
            == LifecycleModel::ClientActive(session_name@, client_name@),
        (InputLifecycle::ClientFocusIn { session_name, client_name })@
            == LifecycleModel::ClientFocusIn(session_name@, client_name@),
        (InputLifecycle::ClientFocusOut { session_name, client_name })@
            == LifecycleModel::ClientFocusOut(session_name@, client_name@),
        (InputLifecycle::ClientLightTheme { session_name, client_name })@
            == LifecycleModel::ClientLightTheme(session_name@, client_name@),
        (InputLifecycle::ClientDarkTheme { session_name, client_name })@
            == LifecycleModel::ClientDarkTheme(session_name@, client_name@),
        (InputLifecycle::PaneFocusIn { target })@ == LifecycleModel::PaneFocusIn(target@),
        (InputLifecycle::PaneFocusOut { target })@ == LifecycleModel::PaneFocusOut(target@),
{
}

/// A terminal that changes its theme, or gains or loses focus, has its own client told
/// of, by its process number, in the session that its pane is in.
pub proof fn a_terminal_tells_of_its_own_client(
    attach_pid: u32,
    target: PaneTarget,
    light: Vec<InputLifecycle>,
    dark: Vec<InputLifecycle>,
    gained: Vec<InputLifecycle>,
    lost: Vec<InputLifecycle>,
)
    requires
        call_ensures(
            handle_attached_terminal_control_event,
            (attach_pid, &target, TerminalControlEvent::ClientLightTheme),
            light,
        ),
        call_ensures(
            handle_attached_terminal_control_event,
            (attach_pid, &target, TerminalControlEvent::ClientDarkTheme),
            dark,
        ),
        call_ensures(
            handle_attached_terminal_control_event,
            (attach_pid, &target, TerminalControlEvent::FocusIn),
            gained,
        ),
        call_ensures(
            handle_attached_terminal_control_event,
            (attach_pid, &target, TerminalControlEvent::FocusOut),
            lost,
        ),
    ensures
        light@.len() == 1 && (light@[0] matches InputLifecycle::ClientLightTheme {
            session_name,
            client_name,
        } && session_name@ == target.session_name@ && client_name@ == text::decimal(
            attach_pid as nat,
        )),
        dark@.len() == 1 && (dark@[0] matches InputLifecycle::ClientDarkTheme {
            session_name,
            client_name,
        } && session_name@ == target.session_name@ && client_name@ == text::decimal(
            attach_pid as nat,
        )),
        gained@.len() == 2 && gained@[0] is ClientFocusIn && (gained@[1]
            matches InputLifecycle::PaneFocusIn { target: pane } && pane@ == target@),
        lost@.len() == 2 && lost@[1] is ClientFocusOut && (lost@[0]
            matches InputLifecycle::PaneFocusOut { target: pane } && pane@ == target@),
{
    lemma_told_of(attach_pid, target, TerminalControlEvent::ClientLightTheme, light);
    lemma_told_of(attach_pid, target, TerminalControlEvent::ClientDarkTheme, dark);
    lemma_told_of(attach_pid, target, TerminalControlEvent::FocusIn, gained);
    lemma_told_of(attach_pid, target, TerminalControlEvent::FocusOut, lost);
}

proof fn lemma_told_of(
    attach_pid: u32,
    target: PaneTarget,
    event: TerminalControlEvent,
    told: Vec<InputLifecycle>,
)
    requires
        call_ensures(handle_attached_terminal_control_event, (attach_pid, &target, event), told),
    ensures
        ({
            let models = control_event_lifecycle(attach_pid, target@, event);
            &&& told@.len() == models.len()
            &&& forall|i: int| 0 <= i < told@.len() ==> (#[trigger] told@[i])@ == models[i]
        }),
{
    let models = told@.map_values(|event: InputLifecycle| event@);
    assert(models == control_event_lifecycle(attach_pid, target@, event));
    assert forall|i: int| 0 <= i < told@.len() implies (#[trigger] told@[i])@ == models[i] by {}
}

/// A cached emit stands exactly where it is of the same epoch and of the same window of
/// the same session.
pub proof fn an_emit_stands_for_its_own_window(
    cached: ActiveClientEmit,
    epoch: u64,
    target: PaneTarget,
    cache: Option<ActiveClientEmit>,
    current: bool,
)
    requires
        cache == Some(cached),
        call_ensures(active_client_emit_is_current, (&cache, epoch, &target), current),
    ensures
        current == (cached.epoch == epoch && cached.session_name@ == target.session_name@
            && cached.window_index == target.window_index),
{
}

} // verus!
