//! The loop of a control-mode client.
//!
//! The loop owns what was read and what is to be written; its caller reads and
//! writes the stream, parses and runs commands, and tells the loop what came of
//! it. One command runs at a time, its output between a begin line and an end or
//! error line that carry the same number.
use crate::control_commands;
use crate::control_commands::ParsedCommand;
use crate::control_events;
use crate::control_events::{ControlEventAction, ControlServerEvent, DeferredServerEvents};
use crate::control_lines;
use crate::control_lines::{ControlError, ControlErrorKind};
use crate::control_output;
use crate::control_output::{
    BlockModel, ControlCommandFrame, ControlCommandNumbering, ControlGuardKind, ControlOutputQueue,
};
use crate::text;
use std::collections::VecDeque;
use vstd::prelude::*;

verus! {

/// How many commands a client may be started with.
pub const MAX_INITIAL_CONTROL_COMMANDS: usize = 1024;

/// What a control-mode client asked for.
#[derive(Debug, Clone, Copy, PartialEq, Eq, Structural)]
pub struct ControlClientFlags {
    pub pause_after_millis: Option<u64>,
    pub no_output: bool,
    pub wait_exit: bool,
}

impl ControlClientFlags {
    /// Whether pane output carries its age.
    pub fn uses_extended_output(self) -> (uses: bool)
        ensures
            uses == self.pause_after_millis is Some,
    {
        self.pause_after_millis.is_some()
    }
}

/// What was read of a client's stream before it became a control-mode stream,
/// and how many commands the client was started with.
#[derive(Debug, PartialEq, Eq)]
pub struct ControlUpgradeInput {
    pub buffered_bytes: Vec<u8>,
    pub initial_command_count: usize,
}

impl ControlUpgradeInput {
    /// Input of these parts.
    pub fn new(buffered_bytes: Vec<u8>, initial_command_count: usize) -> (input: Self)
        ensures
            input == (ControlUpgradeInput { buffered_bytes, initial_command_count }),
    {
        ControlUpgradeInput { buffered_bytes, initial_command_count }
    }
}

/// A clock reading, `None` where the clock stands before the epoch, as the
/// seconds that guard lines carry.
pub fn unix_epoch_seconds(since_epoch: Option<u64>) -> (seconds: i64)
    ensures
        seconds == match since_epoch {
            Some(seconds) => seconds as i64,
            None => 0i64,
        },
{
    match since_epoch {
        Some(seconds) => #[verifier::truncate] (seconds as i64),
        None => 0,
    }
}

/// The block of a command: what its guard lines carry.
#[derive(Debug, Clone, Copy, PartialEq, Eq, Structural)]
pub struct ControlBlock {
    pub timestamp: i64,
    pub frame: ControlCommandFrame,
}

impl ControlBlock {
    /// A guard line of the block.
    pub open spec fn line(self, kind: ControlGuardKind) -> BlockModel {
        control_output::text_block(
            control_output::guard_line(
                kind,
                self.timestamp as int,
                self.frame.number as nat,
                self.frame.guard_flag as nat,
            ),
        )
    }
}

/// The command that runs.
#[derive(Debug, Clone, Copy, PartialEq, Eq, Structural)]
pub struct ActiveControlCommand {
    pub timestamp: i64,
    pub command_number: u64,
    pub guard_flag: u8,
    /// The command is cancelled when the client's input ends.
    pub abort_on_eof: bool,
}

impl ActiveControlCommand {
    /// The block of the command.
    pub open spec fn block(self) -> ControlBlock {
        ControlBlock {
            timestamp: self.timestamp,
            frame: ControlCommandFrame { number: self.command_number, guard_flag: self.guard_flag },
        }
    }
}

/// The exit line as a piece of output.
pub open spec fn exit_block(reason: Option<Seq<char>>) -> BlockModel {
    control_output::text_block(control_output::exit_line(reason))
}

/// Where the loop stands between two actions.
#[derive(Debug, Clone, Copy, PartialEq, Eq, Structural)]
pub enum ControlPhase {
    /// At its top: events that waited come first.
    Top,
    /// Taking lines.
    Lines,
}

/// What the loop needs next.
#[derive(Debug, PartialEq, Eq)]
pub enum ControlAction {
    /// Handle an event that waited.
    Event(ControlServerEvent),
    /// Begin the command of this line.
    Begin(String),
    /// Write what waits, and end.
    Finish,
    /// Wait for input, an event or the end of the running command.
    Wait,
}

/// The state of a control-mode client's loop.
#[derive(Debug, PartialEq, Eq)]
pub struct ControlLoop {
    pub input_buffer: Vec<u8>,
    pub queued_lines: VecDeque<String>,
    pub queued_input_bytes: usize,
    pub output: ControlOutputQueue,
    pub deferred: DeferredServerEvents,
    pub input_closed: bool,
    pub session_name: Option<String>,
    /// The block of a command that was begun and is not parsed yet.
    pub opened: Option<ControlBlock>,
    pub current: Option<ActiveControlCommand>,
    pub numbering: ControlCommandNumbering,
    pub initial_command_count: usize,
    /// The line end with which a client that cannot close its input announces
    /// that it ends.
    pub eof_marker: Option<String>,
    pub phase: ControlPhase,
}

/// The refusal of too many initial commands.
pub open spec fn too_many_initial_commands(count: nat) -> control_lines::ControlErrorModel {
    (
        ControlErrorKind::InvalidInput,
        "too many initial control-mode commands: "@ + text::decimal(count) + " (maximum 1024)"@,
    )
}

/// The refusal of a stream that ends before all initial commands came.
pub open spec fn initial_commands_cut_off(had: nat, count: nat) -> control_lines::ControlErrorModel {
    (
        ControlErrorKind::UnexpectedEof,
        "control-mode stream closed after "@ + text::decimal(had) + " of "@ + text::decimal(count)
            + " initial commands"@,
    )
}

/// The line is the end-of-input marker, where there is one.
pub open spec fn is_eof_marker(line: Seq<char>, marker: Option<String>) -> bool {
    marker matches Some(marker) && line == marker@
}

impl ControlLoop {
    /// The counts agree with what they count, and the limits are kept. Lines are
    /// taken only while no command runs and no event waits.
    pub open spec fn wf(&self) -> bool {
        &&& control_lines::queue_is_accounted(self.queued_lines@, self.queued_input_bytes)
        &&& self.output.wf()
        &&& self.deferred.wf()
        &&& self.opened is Some ==> self.current is None
        &&& self.phase == ControlPhase::Lines ==> self.current is None && self.deferred.is_empty()
    }

    /// The block that is open: that of a command that was begun and neither failed
    /// nor ended.
    pub open spec fn open_block(&self) -> Option<ControlBlock> {
        match self.current {
            Some(command) => Some(command.block()),
            None => self.opened,
        }
    }

    /// A loop for a client that was started with `input`.
    pub fn new(input: ControlUpgradeInput, eof_marker: Option<String>) -> (result: Result<
        Self,
        ControlError,
    >)
        ensures
            match result {
                Ok(state) => {
                    &&& state.wf()
                    &&& control_lines::append_refusal(
                        Seq::empty(),
                        input.buffered_bytes@,
                        0,
                        0,
                    ) is None
                    &&& input.initial_command_count <= MAX_INITIAL_CONTROL_COMMANDS
                    &&& state.initial_command_count == input.initial_command_count
                    &&& state.input_buffer@ == control_lines::unfinished_line(
                        input.buffered_bytes@,
                    )
                    &&& state.input_buffer@.len() <= control_lines::MAX_CONTROL_LINE_BYTES
                    &&& control_lines::texts(state.queued_lines@) == control_lines::lines_text(
                        control_lines::complete_lines(input.buffered_bytes@),
                    )
                    &&& state.output@ == Seq::<BlockModel>::empty()
                    &&& state.deferred.is_empty()
                    &&& !state.input_closed
                    &&& state.session_name is None
                    &&& state.open_block() is None
                    &&& state.eof_marker == eof_marker
                    &&& state.phase == ControlPhase::Top
                },
                Err(error) => if input.initial_command_count > MAX_INITIAL_CONTROL_COMMANDS {
                    error@ == too_many_initial_commands(input.initial_command_count as nat)
                } else {
                    control_lines::append_refusal(Seq::empty(), input.buffered_bytes@, 0, 0)
                        == Some(error@)
                },
            },
    {
        if input.initial_command_count > MAX_INITIAL_CONTROL_COMMANDS {
            let mut message = "too many initial control-mode commands: ".to_owned();
            text::push_decimal(&mut message, input.initial_command_count as u64);
            message.append(" (maximum 1024)");
            return Err(ControlError { kind: ControlErrorKind::InvalidInput, message });
        }
        let mut input_buffer: Vec<u8> = Vec::new();
        let mut queued_lines: VecDeque<String> = VecDeque::new();
        let mut queued_input_bytes: usize = 0;
        proof {
            assert(control_lines::texts(queued_lines@) =~= Seq::<Seq<char>>::empty());
            assert(input_buffer@ + input.buffered_bytes@ =~= input.buffered_bytes@);
        }
        match control_lines::append_control_input(
            &mut input_buffer,
            &mut queued_lines,
            &mut queued_input_bytes,
            input.buffered_bytes.as_slice(),
        ) {
            Ok(()) => {},
            Err(error) => {
                return Err(error);
            },
        }
        proof {
            let lines = control_lines::lines_text(
                control_lines::complete_lines(input.buffered_bytes@),
            );
            assert(Seq::<Seq<char>>::empty() + lines.take(lines.len() as int) =~= lines);
        }
        Ok(
            ControlLoop {
                input_buffer,
                queued_lines,
                queued_input_bytes,
                output: ControlOutputQueue::new(),
                deferred: DeferredServerEvents::new(),
                input_closed: false,
                session_name: None,
                opened: None,
                current: None,
                numbering: ControlCommandNumbering::after_initial_ack(),
                initial_command_count: input.initial_command_count,
                eof_marker,
                phase: ControlPhase::Top,
            },
        )
    }

    /// Whether more is to be read before the loop starts: not all commands that
    /// the client was started with are there.
    pub fn awaits_initial_commands(&self) -> (awaits: bool)
        ensures
            awaits == (self.queued_lines@.len() < self.initial_command_count),
    {
        self.queued_lines.len() < self.initial_command_count
    }

    /// Takes in a read of the stream before the loop starts; no bytes is its end,
    /// which comes too early.
    pub fn initial_read(&mut self, bytes: &[u8]) -> (result: Result<(), ControlError>)
        requires
            old(self).wf(),
        ensures
            final(self).wf(),
            *final(self) == (ControlLoop {
                input_buffer: final(self).input_buffer,
                queued_lines: final(self).queued_lines,
                queued_input_bytes: final(self).queued_input_bytes,
                ..*old(self)
            }),
            bytes@.len() == 0 ==> *final(self) == *old(self) && (result matches Err(error)
                && error@ == initial_commands_cut_off(
                old(self).queued_lines@.len(),
                old(self).initial_command_count as nat,
            )),
            bytes@.len() > 0 ==> appended(*old(self), *final(self), bytes@, result),
    {
        if bytes.len() == 0 {
            let mut message = "control-mode stream closed after ".to_owned();
            text::push_decimal(&mut message, self.queued_lines.len() as u64);
            message.append(" of ");
            text::push_decimal(&mut message, self.initial_command_count as u64);
            message.append(" initial commands");
            return Err(ControlError { kind: ControlErrorKind::UnexpectedEof, message });
        }
        control_lines::append_control_input(
            &mut self.input_buffer,
            &mut self.queued_lines,
            &mut self.queued_input_bytes,
            bytes,
        )
    }

    fn consume_eof_marker(&mut self)
        requires
            old(self).wf(),
        ensures
            final(self).wf(),
            *final(self) == (ControlLoop {
                input_buffer: final(self).input_buffer,
                queued_lines: final(self).queued_lines,
                queued_input_bytes: final(self).queued_input_bytes,
                input_closed: final(self).input_closed,
                ..*old(self)
            }),
            marker_consumed(*old(self), *final(self)),
    {
        let found = match &self.eof_marker {
            Some(marker) => control_lines::consume_control_eof_marker(
                &mut self.input_buffer,
                &mut self.queued_lines,
                &mut self.queued_input_bytes,
                marker.as_str(),
            ),
            None => false,
        };
        if found {
            self.input_closed = true;
        }
    }

    /// Starts the loop once all initial commands are there. A client that was
    /// started without any is greeted by an empty block.
    pub fn start(&mut self, timestamp: i64, session_name: Option<String>)
        requires
            old(self).wf(),
        ensures
            final(self).wf(),
            marker_consumed(*old(self), *final(self)),
            final(self).session_name == session_name,
            final(self).opened == old(self).opened,
            final(self).current == old(self).current,
            final(self).deferred == old(self).deferred,
            final(self).eof_marker == old(self).eof_marker,
            final(self).phase == old(self).phase,
            final(self).initial_command_count == old(self).initial_command_count,
            if old(self).initial_command_count == 0 {
                let greeting = ControlBlock {
                    timestamp,
                    frame: ControlCommandFrame { number: 1, guard_flag: 0 },
                };
                &&& final(self).numbering == (ControlCommandNumbering {
                    next_number: 2,
                    initial_left: 0,
                })
                &&& final(self).output@ == old(self).output@.push(
                    greeting.line(ControlGuardKind::Begin),
                ).push(greeting.line(ControlGuardKind::End))
            } else {
                &&& final(self).numbering == (ControlCommandNumbering {
                    next_number: 1,
                    initial_left: old(self).initial_command_count,
                })
                &&& final(self).output@ == old(self).output@
            },
    {
        self.consume_eof_marker();
        self.session_name = session_name;
        if self.initial_command_count == 0 {
            let begin = control_output::format_guard_line(ControlGuardKind::Begin, timestamp, 1, 0);
            let end = control_output::format_guard_line(ControlGuardKind::End, timestamp, 1, 0);
            self.output.enqueue_text(begin.as_str());
            self.output.enqueue_text(end.as_str());
            self.numbering = ControlCommandNumbering::after_initial_ack();
        } else {
            self.numbering = ControlCommandNumbering::with_initial_commands(
                self.initial_command_count,
            );
        }
    }

    /// Handles a server event.
    pub fn server_event(&mut self, event: ControlServerEvent) -> (action: ControlEventAction)
        requires
            old(self).wf(),
        ensures
            final(self).wf(),
            moved(*old(self), *final(self), LoopMove::Event(event, action)),
    {
        control_events::handle_server_event(
            event,
            &mut self.deferred,
            &mut self.session_name,
            self.current.is_some(),
        )
    }

    /// Queues a notification, ended by a line feed, once the pane output that was
    /// ready is queued.
    pub fn notify(&mut self, line: String)
        requires
            old(self).wf(),
        ensures
            final(self).wf(),
            moved(*old(self), *final(self), LoopMove::Notify(line)),
    {
        let bytes = line.as_str().as_bytes_vec();
        self.output.enqueue_line(control_output::ensure_control_newline(bytes), false);
    }

    /// Queues output of a pane.
    pub fn pane_output(&mut self, bytes: Vec<u8>)
        requires
            old(self).wf(),
        ensures
            final(self).wf(),
            moved(*old(self), *final(self), LoopMove::PaneOutput(bytes@)),
    {
        self.output.enqueue_line(bytes, true);
    }

    /// Queues the exit line.
    pub fn exit(&mut self, reason: Option<&str>)
        requires
            old(self).wf(),
        ensures
            final(self).wf(),
            moved(
                *old(self),
                *final(self),
                LoopMove::Exit(
                    match reason {
                        Some(reason) => Some(reason@),
                        None => None,
                    },
                ),
            ),
    {
        let line = control_output::format_exit_line(reason);
        self.output.enqueue_text(line.as_str());
    }

    /// Queues the exit line of a client that fell too far behind the output of a
    /// pane.
    pub fn pane_lagged(&mut self)
        requires
            old(self).wf(),
        ensures
            final(self).wf(),
            moved(*old(self), *final(self), LoopMove::Exit(Some("too far behind"@))),
    {
        self.exit(Some("too far behind"));
    }

    /// Queues the exit line of a server that shuts down.
    pub fn shutdown(&mut self)
        requires
            old(self).wf(),
        ensures
            final(self).wf(),
            moved(*old(self), *final(self), LoopMove::Exit(Some("server shutting down"@))),
    {
        self.exit(Some("server shutting down"));
    }

    /// What the loop needs next, `closing` where the client was told to close.
    ///
    /// While no command runs, events that waited are handled; then a closing
    /// client, or one whose input is drained, exits; then lines are taken, and
    /// an empty line exits. A command that begins while another runs is never
    /// asked for.
    pub fn advance(&mut self, closing: bool) -> (action: ControlAction)
        requires
            old(self).wf(),
            old(self).opened is None,
        ensures
            final(self).wf(),
            moved(*old(self), *final(self), LoopMove::Advance(closing, action)),
    {
        if self.phase == ControlPhase::Top {
            if self.current.is_none() {
                match self.deferred.next_event() {
                    Some(event) => {
                        return ControlAction::Event(event);
                    },
                    None => {},
                }
                if closing {
                    self.exit(None);
                    return ControlAction::Finish;
                }
                if self.input_closed && self.queued_lines.len() == 0 {
                    self.exit(None);
                    return ControlAction::Finish;
                }
            }
            self.phase = ControlPhase::Lines;
        }
        if self.current.is_none() && self.queued_lines.len() > 0 {
            let ghost before = control_lines::texts(self.queued_lines@);
            let line = match self.queued_lines.pop_front() {
                Some(line) => line,
                None => {
                    return ControlAction::Wait;
                },
            };
            let len: usize = control_lines::line_byte_len(line.as_str());
            proof {
                control_lines::lemma_total_bytes_front(before);
                assert(control_lines::texts(self.queued_lines@) =~= before.subrange(
                    1,
                    before.len() as int,
                ));
                assert(before[0] == line@);
            }
            self.queued_input_bytes = self.queued_input_bytes.saturating_sub(len);
            let marker = match &self.eof_marker {
                Some(marker) => text::same_text(line.as_str(), marker.as_str()),
                None => false,
            };
            if marker {
                self.input_closed = true;
                self.input_buffer.clear();
                self.queued_lines.clear();
                self.queued_input_bytes = 0;
                assert(control_lines::texts(self.queued_lines@) =~= Seq::<Seq<char>>::empty());
                self.exit(None);
                return ControlAction::Finish;
            }
            if line.as_str().is_empty() {
                self.exit(None);
                return ControlAction::Finish;
            }
            return ControlAction::Begin(line);
        }
        if self.input_closed && self.current.is_none() {
            self.exit(None);
            return ControlAction::Finish;
        }
        self.phase = ControlPhase::Top;
        ControlAction::Wait
    }

    /// Opens the block of the command that begins now.
    pub fn begin_command(&mut self, timestamp: i64)
        requires
            old(self).wf(),
            old(self).open_block() is None,
        ensures
            final(self).wf(),
            moved(*old(self), *final(self), LoopMove::Begin { timestamp }),
    {
        let frame = self.numbering.next_frame();
        let line = control_output::format_guard_line(
            ControlGuardKind::Begin,
            timestamp,
            frame.number,
            frame.guard_flag,
        );
        self.output.enqueue_text(line.as_str());
        self.opened = Some(ControlBlock { timestamp, frame });
    }

    /// Takes up the command whose block was opened: it runs from here on.
    pub fn run_command(&mut self, commands: &Vec<ParsedCommand>)
        requires
            old(self).wf(),
            old(self).opened is Some,
        ensures
            final(self).wf(),
            moved(*old(self), *final(self), LoopMove::Run(commands@)),
    {
        let abort_on_eof = control_commands::control_commands_abort_on_eof(commands);
        if let Some(block) = self.opened {
            self.opened = None;
            self.phase = ControlPhase::Top;
            self.current = Some(
                ActiveControlCommand {
                    timestamp: block.timestamp,
                    command_number: block.frame.number,
                    guard_flag: block.frame.guard_flag,
                    abort_on_eof,
                },
            );
        }
    }

    /// Queues what is wrong with the line whose block was opened, `error` in words.
    pub fn parse_failed(&mut self, error: &str)
        requires
            old(self).wf(),
            old(self).opened is Some,
        ensures
            final(self).wf(),
            moved(*old(self), *final(self), LoopMove::ParseFailed(error@)),
    {
        let message = text::concat2("parse error: ", error);
        let bytes = message.as_str().as_bytes_vec();
        proof {
            reveal_strlit("parse error: ");
            lemma_encoding_is_not_empty(message@);
        }
        self.output.enqueue_stdout(bytes);
    }

    /// Closes the block of a line that could not be parsed.
    pub fn close_failed_block(&mut self)
        requires
            old(self).wf(),
            old(self).opened is Some,
        ensures
            final(self).wf(),
            moved(*old(self), *final(self), LoopMove::CloseFailed),
    {
        if let Some(block) = self.opened {
            self.opened = None;
            let line = control_output::format_guard_line(
                ControlGuardKind::Error,
                block.timestamp,
                block.frame.number,
                block.frame.guard_flag,
            );
            self.output.enqueue_text(line.as_str());
        }
    }

    /// Takes in a read of the stream; no bytes is its end.
    pub fn read(&mut self, bytes: &[u8]) -> (result: Result<(), ControlError>)
        requires
            old(self).wf(),
        ensures
            final(self).wf(),
            moved(*old(self), *final(self), LoopMove::Read { bytes: bytes@, result }),
    {
        if bytes.len() == 0 {
            self.input_closed = true;
            return Ok(());
        }
        match control_lines::append_control_input(
            &mut self.input_buffer,
            &mut self.queued_lines,
            &mut self.queued_input_bytes,
            bytes,
        ) {
            Ok(()) => {},
            Err(error) => {
                return Err(error);
            },
        }
        let ghost middle = *self;
        self.consume_eof_marker();
        assert(appended(*old(self), middle, bytes@, Ok(())));
        Ok(())
    }

    /// Queues the output of the command that ended.
    pub fn command_output(&mut self, stdout: Vec<u8>)
        requires
            old(self).wf(),
        ensures
            final(self).wf(),
            moved(*old(self), *final(self), LoopMove::CommandOutput(stdout@)),
    {
        if self.current.is_some() {
            self.output.enqueue_stdout(stdout);
        }
    }

    /// Closes the block of the command that ended: with an end line, or with the
    /// error in words and an error line.
    pub fn close_command(&mut self, error: Option<&str>)
        requires
            old(self).wf(),
        ensures
            final(self).wf(),
            moved(
                *old(self),
                *final(self),
                LoopMove::CloseCommand(
                    match error {
                        Some(error) => Some(error@),
                        None => None,
                    },
                ),
            ),
    {
        if let Some(command) = self.current {
            self.current = None;
            let kind = match error {
                Some(error) => {
                    self.output.enqueue_stdout(error.as_bytes_vec());
                    ControlGuardKind::Error
                },
                None => ControlGuardKind::End,
            };
            let line = control_output::format_guard_line(
                kind,
                command.timestamp,
                command.command_number,
                command.guard_flag,
            );
            self.output.enqueue_text(line.as_str());
        }
    }

    /// Ends the stream of a client whose input ended while a command runs: the
    /// block is closed and the client exits. The answer is whether the command
    /// is cancelled; else it goes on without the client.
    pub fn close_active_control_command_on_eof(&mut self) -> (cancelled: Option<bool>)
        requires
            old(self).wf(),
        ensures
            final(self).wf(),
            cancelled == match old(self).current {
                Some(command) => Some(command.abort_on_eof),
                None => None,
            },
            moved(*old(self), *final(self), LoopMove::EndOfInput),
    {
        match self.current {
            Some(command) => {
                self.close_command(None);
                self.exit(None);
                Some(command.abort_on_eof)
            },
            None => None,
        }
    }
}

proof fn lemma_encoding_is_not_empty(text: Seq<char>)
    requires
        text.len() > 0,
    ensures
        vstd::utf8::encode_utf8(text).len() > 0,
{
    vstd::utf8::encode_utf8_first_scalar(text);
}

/// `bytes` were appended to the input of `before`.
pub open spec fn appended(
    before: ControlLoop,
    after: ControlLoop,
    bytes: Seq<u8>,
    result: Result<(), ControlError>,
) -> bool {
    let count = before.queued_lines@.len() as int;
    let queued = before.queued_input_bytes as int;
    let lines = control_lines::lines_text(
        control_lines::complete_lines(before.input_buffer@ + bytes),
    );
    let accepted = control_lines::append_accepted(before.input_buffer@, bytes, count, queued);
    &&& after.input_buffer@ == control_lines::unfinished_line(before.input_buffer@ + bytes)
    &&& 0 <= accepted <= lines.len()
    &&& control_lines::texts(after.queued_lines@) == control_lines::texts(before.queued_lines@)
        + lines.take(accepted)
    &&& control_lines::append_refusal(before.input_buffer@, bytes, count, queued) == match result {
        Ok(()) => None,
        Err(error) => Some(error@),
    }
}

/// The input of `before` was cut at the end-of-input marker, where it holds one.
pub open spec fn marker_consumed(before: ControlLoop, after: ControlLoop) -> bool {
    let found = match before.eof_marker {
        Some(marker) => control_lines::marker_line(
            control_lines::texts(before.queued_lines@),
            marker@,
        ),
        None => None,
    };
    match found {
        Some(at) => {
            &&& after.input_closed
            &&& 0 <= at < before.queued_lines@.len()
            &&& after.queued_lines@ == before.queued_lines@.take(at)
            &&& after.input_buffer@ == Seq::<u8>::empty()
        },
        None => {
            &&& after.input_closed == before.input_closed
            &&& after.queued_lines@ == before.queued_lines@
            &&& after.input_buffer@ == before.input_buffer@
        },
    }
}

/// `bytes` were read: appended, and cut at the end-of-input marker.
pub open spec fn read_appended(
    before: ControlLoop,
    after: ControlLoop,
    bytes: Seq<u8>,
    result: Result<(), ControlError>,
) -> bool {
    match result {
        Err(_) => appended(before, after, bytes, result) && after.input_closed
            == before.input_closed,
        Ok(()) => exists|middle: ControlLoop| #[trigger]
            appended(before, middle, bytes, result) && marker_consumed(middle, after)
                && middle.input_closed == before.input_closed && middle.eof_marker
                == before.eof_marker,
    }
}

/// A server event was handled.
pub open spec fn event_handled(
    before: ControlLoop,
    after: ControlLoop,
    event: ControlServerEvent,
    action: ControlEventAction,
) -> bool {
    let command_active = before.current is Some;
    match event {
        ControlServerEvent::SessionChanged(next) => if command_active {
            &&& action == ControlEventAction::Nothing
            &&& after.session_name == before.session_name
            &&& after.deferred == (DeferredServerEvents {
                session_change: if before.deferred.exit_reason is Some {
                    before.deferred.session_change
                } else {
                    Some(next)
                },
                ..before.deferred
            })
        } else {
            &&& action == ControlEventAction::Refresh
            &&& after.session_name == next
            &&& after.deferred == before.deferred
        },
        ControlServerEvent::Refresh => {
            &&& action == ControlEventAction::Refresh
            &&& after == before
        },
        ControlServerEvent::Notification(line) => {
            &&& after.session_name == before.session_name
            &&& if before.deferred.exit_reason is Some {
                action == ControlEventAction::Nothing && after == before
            } else if !command_active {
                action == ControlEventAction::Notify(line) && after == before
            } else if before.deferred.has_room_for(line@) {
                &&& action == ControlEventAction::Nothing
                &&& after.deferred.notifications@ == before.deferred.notifications@.push(line)
                &&& after.deferred.exit_reason is None
                &&& after.deferred.session_change == before.deferred.session_change
            } else {
                &&& action == ControlEventAction::Nothing
                &&& after.deferred.notifications@.len() == 0
                &&& after.deferred.exit_reason matches Some(reason)
                &&& control_events::optional_text(reason) == Some(
                    "control notification queue exceeded"@,
                )
                &&& after.deferred.session_change == before.deferred.session_change
            }
        },
        ControlServerEvent::Exit(reason) => {
            &&& after.session_name == before.session_name
            &&& if command_active || before.deferred.notifications@.len() > 0 {
                &&& action == ControlEventAction::Nothing
                &&& after.deferred == (DeferredServerEvents {
                    exit_reason: Some(reason),
                    ..before.deferred
                })
            } else {
                action == ControlEventAction::Exit(reason) && after == before
            }
        },
    }
}

/// The loop went on to `action`.
pub open spec fn loop_advanced(
    before: ControlLoop,
    after: ControlLoop,
    closing: bool,
    action: ControlAction,
) -> bool {
    let idle = before.current is None;
    let at_top = before.phase == ControlPhase::Top;
    let exited = after.output@ == before.output@.push(exit_block(None));
    let lines = before.queued_lines@;
    match action {
        ControlAction::Event(event) => {
            &&& at_top && idle && !before.deferred.is_empty()
            &&& after.output@ == before.output@
            &&& after.queued_lines@ == lines
            &&& after.input_closed == before.input_closed
            &&& after.input_buffer == before.input_buffer
            &&& after.phase == before.phase
            &&& control_events::took_event(before.deferred, after.deferred, event)
        },
        ControlAction::Begin(line) => {
            &&& idle && lines.len() > 0 && before.deferred.is_empty()
            &&& at_top ==> !closing
            &&& line == lines[0]
            &&& line@.len() > 0
            &&& !is_eof_marker(line@, before.eof_marker)
            &&& after.queued_lines@ == lines.subrange(1, lines.len() as int)
            &&& after.output@ == before.output@
            &&& after.deferred == before.deferred
            &&& after.input_closed == before.input_closed
            &&& after.input_buffer == before.input_buffer
            &&& after.phase == ControlPhase::Lines
        },
        ControlAction::Finish => {
            &&& idle && exited && before.deferred.is_empty()
            &&& after.deferred == before.deferred
            &&& if (at_top && closing) || lines.len() == 0 {
                &&& (at_top && closing) || before.input_closed
                &&& after == (ControlLoop { output: after.output, ..before })
            } else if is_eof_marker(lines[0]@, before.eof_marker) {
                &&& after.input_closed
                &&& after.queued_lines@ == Seq::<String>::empty()
                &&& after.input_buffer@ == Seq::<u8>::empty()
                &&& after.phase == ControlPhase::Lines
            } else {
                &&& lines[0]@.len() == 0
                &&& after.input_closed == before.input_closed
                &&& after.queued_lines@ == lines.subrange(1, lines.len() as int)
                &&& after.input_buffer == before.input_buffer
                &&& after.phase == ControlPhase::Lines
            }
        },
        ControlAction::Wait => {
            &&& !idle || (!before.input_closed && lines.len() == 0 && before.deferred.is_empty())
            &&& idle && at_top ==> !closing
            &&& after == (ControlLoop { phase: ControlPhase::Top, ..before })
        },
    }
}

/// A move of the loop.
pub enum LoopMove {
    Event(ControlServerEvent, ControlEventAction),
    Notify(String),
    PaneOutput(Seq<u8>),
    Exit(Option<Seq<char>>),
    Advance(bool, ControlAction),
    Begin { timestamp: i64 },
    Run(Seq<ParsedCommand>),
    ParseFailed(Seq<char>),
    CloseFailed,
    Read { bytes: Seq<u8>, result: Result<(), ControlError> },
    CommandOutput(Seq<u8>),
    CloseCommand(Option<Seq<char>>),
    EndOfInput,
}

/// `output` with text of a command behind it, ended by a line feed; no text is no
/// piece.
pub open spec fn with_text(output: Seq<BlockModel>, text: Seq<u8>) -> Seq<BlockModel> {
    if text.len() == 0 {
        output
    } else {
        output.push((control_output::newline_terminated(text), false))
    }
}

/// The kind of guard line that closes the block of a command that ended so.
pub open spec fn closing_kind(error: Option<Seq<char>>) -> ControlGuardKind {
    match error {
        Some(_) => ControlGuardKind::Error,
        None => ControlGuardKind::End,
    }
}

/// The loop went from `before` to `after` by a move.
pub open spec fn moved(before: ControlLoop, after: ControlLoop, step: LoopMove) -> bool {
    let out = before.output@;
    match step {
        LoopMove::Event(event, action) => {
            &&& after == (ControlLoop {
                deferred: after.deferred,
                session_name: after.session_name,
                ..before
            })
            &&& event_handled(before, after, event, action)
        },
        LoopMove::Notify(line) => {
            &&& after == (ControlLoop { output: after.output, ..before })
            &&& after.output@ == out.push(
                (control_output::newline_terminated(vstd::utf8::encode_utf8(line@)), false),
            )
        },
        LoopMove::PaneOutput(bytes) => {
            &&& after == (ControlLoop { output: after.output, ..before })
            &&& after.output@ == out.push((bytes, true))
        },
        LoopMove::Exit(reason) => {
            &&& after == (ControlLoop { output: after.output, ..before })
            &&& after.output@ == out.push(exit_block(reason))
        },
        LoopMove::Advance(closing, action) => {
            &&& before.opened is None
            &&& after == (ControlLoop {
                input_buffer: after.input_buffer,
                queued_lines: after.queued_lines,
                queued_input_bytes: after.queued_input_bytes,
                input_closed: after.input_closed,
                output: after.output,
                deferred: after.deferred,
                phase: after.phase,
                ..before
            })
            &&& loop_advanced(before, after, closing, action)
        },
        LoopMove::Begin { timestamp } => {
            let block = ControlBlock { timestamp, frame: before.numbering.frame() };
            &&& before.open_block() is None
            &&& after == (ControlLoop {
                output: after.output,
                numbering: before.numbering.advanced(),
                opened: Some(block),
                ..before
            })
            &&& after.output@ == out.push(block.line(ControlGuardKind::Begin))
        },
        LoopMove::Run(commands) => {
            &&& before.opened matches Some(block)
            &&& before.current is None
            &&& after == (ControlLoop {
                opened: None,
                phase: ControlPhase::Top,
                current: Some(
                    ActiveControlCommand {
                        timestamp: block.timestamp,
                        command_number: block.frame.number,
                        guard_flag: block.frame.guard_flag,
                        abort_on_eof: control_commands::commands_block(commands),
                    },
                ),
                ..before
            })
        },
        LoopMove::ParseFailed(error) => {
            &&& before.opened is Some
            &&& after == (ControlLoop { output: after.output, ..before })
            &&& after.output@ == with_text(
                out,
                vstd::utf8::encode_utf8("parse error: "@ + error),
            )
        },
        LoopMove::CloseFailed => {
            &&& before.opened matches Some(block)
            &&& before.current is None
            &&& after == (ControlLoop { output: after.output, opened: None, ..before })
            &&& after.output@ == out.push(block.line(ControlGuardKind::Error))
        },
        LoopMove::Read { bytes, result } => {
            &&& after == (ControlLoop {
                input_buffer: after.input_buffer,
                queued_lines: after.queued_lines,
                queued_input_bytes: after.queued_input_bytes,
                input_closed: after.input_closed,
                ..before
            })
            &&& if bytes.len() == 0 {
                result is Ok && after == (ControlLoop { input_closed: true, ..before })
            } else {
                read_appended(before, after, bytes, result)
            }
        },
        LoopMove::CommandOutput(stdout) => match before.current {
            Some(_) => {
                &&& after == (ControlLoop { output: after.output, ..before })
                &&& after.output@ == with_text(out, stdout)
            },
            None => after == before,
        },
        LoopMove::CloseCommand(error) => match before.current {
            Some(command) => {
                let told = match error {
                    Some(error) => with_text(out, vstd::utf8::encode_utf8(error)),
                    None => out,
                };
                &&& after == (ControlLoop { output: after.output, current: None, ..before })
                &&& after.output@ == told.push(command.block().line(closing_kind(error)))
            },
            None => after == before,
        },
        LoopMove::EndOfInput => match before.current {
            Some(command) => {
                &&& after == (ControlLoop { output: after.output, current: None, ..before })
                &&& after.output@ == out.push(command.block().line(ControlGuardKind::End)).push(
                    exit_block(None),
                )
            },
            None => after == before,
        },
    }
}

/// A guard line that was queued: its kind and its block.
pub type GuardMark = (ControlGuardKind, ControlBlock);

/// The guard line that a move queues.
pub open spec fn guard_of(before: ControlLoop, step: LoopMove) -> Option<GuardMark> {
    match step {
        LoopMove::Begin { timestamp } => Some(
            (
                ControlGuardKind::Begin,
                ControlBlock { timestamp, frame: before.numbering.frame() },
            ),
        ),
        LoopMove::CloseFailed => match before.opened {
            Some(block) => Some((ControlGuardKind::Error, block)),
            None => None,
        },
        LoopMove::CloseCommand(error) => match before.current {
            Some(command) => Some((closing_kind(error), command.block())),
            None => None,
        },
        LoopMove::EndOfInput => match before.current {
            Some(command) => Some((ControlGuardKind::End, command.block())),
            None => None,
        },
        _ => None,
    }
}

/// `states` are those of a loop that made `moves`, one after another.
pub open spec fn is_run(states: Seq<ControlLoop>, moves: Seq<LoopMove>) -> bool {
    &&& states.len() == moves.len() + 1
    &&& forall|i: int| 0 <= i < states.len() ==> (#[trigger] states[i]).wf()
    &&& forall|i: int|
        0 <= i < moves.len() ==> moved(states[i], states[i + 1], #[trigger] moves[i])
}

/// The guard lines that a run queued, in order.
pub open spec fn run_guards(states: Seq<ControlLoop>, moves: Seq<LoopMove>) -> Seq<GuardMark>
    decreases moves.len(),
{
    if moves.len() == 0 {
        Seq::empty()
    } else {
        let before = run_guards(states.drop_last(), moves.drop_last());
        match guard_of(states[moves.len() - 1], moves.last()) {
            Some(mark) => before.push(mark),
            None => before,
        }
    }
}

/// Begin lines, each with an end or error line of its block right behind it, but for
/// the last, which may still be open.
pub open spec fn guards_pair(guards: Seq<GuardMark>) -> bool {
    forall|i: int|
        0 <= i < guards.len() ==> if i % 2 == 0 {
            (#[trigger] guards[i]).0 == ControlGuardKind::Begin
        } else {
            guards[i].0 != ControlGuardKind::Begin && guards[i].1 == guards[i - 1].1
        }
}

/// Blocks do not overlap: in whatever order things happen to a loop that begins with
/// no block open, each block is closed, by a line with the time, number and flag of
/// the line that opened it, before another is opened. The last stays open only as
/// long as its command is parsed or runs.
pub proof fn blocks_do_not_overlap(states: Seq<ControlLoop>, moves: Seq<LoopMove>)
    requires
        is_run(states, moves),
        states[0].open_block() is None,
    ensures
        guards_pair(run_guards(states, moves)),
        match states.last().open_block() {
            Some(block) => run_guards(states, moves).len() % 2 == 1 && run_guards(
                states,
                moves,
            ).last() == (ControlGuardKind::Begin, block),
            None => run_guards(states, moves).len() % 2 == 0,
        },
    decreases moves.len(),
{
    if moves.len() > 0 {
        let n = moves.len() - 1;
        let earlier = states.drop_last();
        let made = moves.drop_last();
        assert forall|i: int| 0 <= i < made.len() implies moved(
            earlier[i],
            earlier[i + 1],
            #[trigger] made[i],
        ) by {
            assert(made[i] == moves[i]);
        }
        assert forall|i: int| 0 <= i < earlier.len() implies (#[trigger] earlier[i]).wf() by {
            assert(earlier[i] == states[i]);
        }
        blocks_do_not_overlap(earlier, made);
        assert(earlier.last() == states[n]);
        assert(states.last() == states[n + 1]);
        assert(moved(states[n], states[n + 1], moves[n]));
    }
}

/// What a move queues comes behind what waits already, and its guard line is among
/// it.
pub proof fn a_move_adds_its_guard_line(before: ControlLoop, after: ControlLoop, step: LoopMove)
    requires
        moved(before, after, step),
    ensures
        before.output@.len() <= after.output@.len(),
        before.output@ == after.output@.take(before.output@.len() as int),
        guard_of(before, step) matches Some((kind, block)) ==> after.output@.skip(
            before.output@.len() as int,
        ).contains(block.line(kind)),
{
    let n = before.output@.len() as int;
    let added = after.output@.skip(n);
    assert(before.output@ =~= after.output@.take(n));
    if let Some((kind, block)) = guard_of(before, step) {
        let line = block.line(kind);
        assert(added.len() > 0);
        if step is EndOfInput {
            assert(added[added.len() - 2] == line);
        } else {
            assert(added[added.len() - 1] == line);
        }
    }
}

/// Commands are numbered as they begin: a later block has a higher number, as long
/// as there are numbers left.
pub proof fn later_blocks_have_higher_numbers(
    states: Seq<ControlLoop>,
    moves: Seq<LoopMove>,
    i: int,
    j: int,
)
    requires
        is_run(states, moves),
        states[0].open_block() is None,
        states.last().numbering.next_number < u64::MAX,
        0 <= i < j < run_guards(states, moves).len(),
        run_guards(states, moves)[i].0 == ControlGuardKind::Begin,
        run_guards(states, moves)[j].0 == ControlGuardKind::Begin,
    ensures
        run_guards(states, moves)[i].1.frame.number < run_guards(
            states,
            moves,
        )[j].1.frame.number,
{
    lemma_numbers_grow(states, moves);
}

proof fn lemma_numbers_grow(states: Seq<ControlLoop>, moves: Seq<LoopMove>)
    requires
        is_run(states, moves),
        states.last().numbering.next_number < u64::MAX,
    ensures
        forall|i: int|
            0 <= i < run_guards(states, moves).len() && (#[trigger] run_guards(states, moves)[i]).0
                == ControlGuardKind::Begin ==> run_guards(states, moves)[i].1.frame.number
                < states.last().numbering.next_number,
        forall|i: int, j: int|
            0 <= i < j < run_guards(states, moves).len() && (#[trigger] run_guards(states, moves)[i]).0
                == ControlGuardKind::Begin && (#[trigger] run_guards(states, moves)[j]).0
                == ControlGuardKind::Begin ==> run_guards(states, moves)[i].1.frame.number
                < run_guards(states, moves)[j].1.frame.number,
    decreases moves.len(),
{
    if moves.len() > 0 {
        let n = moves.len() - 1;
        let earlier = states.drop_last();
        let made = moves.drop_last();
        assert forall|i: int| 0 <= i < made.len() implies moved(
            earlier[i],
            earlier[i + 1],
            #[trigger] made[i],
        ) by {
            assert(made[i] == moves[i]);
        }
        assert forall|i: int| 0 <= i < earlier.len() implies (#[trigger] earlier[i]).wf() by {
            assert(earlier[i] == states[i]);
        }
        assert(earlier.last() == states[n]);
        assert(states.last() == states[n + 1]);
        assert(moved(states[n], states[n + 1], moves[n]));
        lemma_numbers_grow(earlier, made);
    }
}

/// The events that moves `from..to` handed out to be handled, in order.
pub open spec fn handed_out(moves: Seq<LoopMove>, from: int, to: int) -> Seq<ControlServerEvent>
    decreases to - from,
{
    if to <= from {
        Seq::empty()
    } else {
        let earlier = handed_out(moves, from, to - 1);
        match moves[to - 1] {
            LoopMove::Advance(_, ControlAction::Event(event)) => earlier.push(event),
            _ => earlier,
        }
    }
}

/// By the move a command begins or the stream ends.
pub open spec fn moves_on(step: LoopMove) -> bool {
    step matches LoopMove::Advance(_, action) && (action is Begin || action is Finish)
}

/// By the move an exit came to wait behind notifications.
pub open spec fn defers_exit(step: LoopMove) -> bool {
    step matches LoopMove::Event(event, action) && event is Exit && action is Nothing
}

/// Nothing overtakes the events that wait: from a state with no command running to the
/// next move by which a command begins or the stream ends, all events that waited were
/// handed out, each once and in order. Only the exit may be another one by then, where a
/// later exit took its place.
pub proof fn waiting_events_are_handed_out_first(
    states: Seq<ControlLoop>,
    moves: Seq<LoopMove>,
    from: int,
    to: int,
)
    requires
        is_run(states, moves),
        0 <= from <= to < moves.len(),
        states[from].current is None,
        forall|i: int| from <= i < to ==> (#[trigger] moves[i]) !is Run,
        moves_on(moves[to]),
    ensures
        ({
            let first = states[from].deferred.before_exit();
            let handed = handed_out(moves, from, to);
            &&& first.len() <= handed.len() <= first.len() + 1
            &&& handed.take(first.len() as int) == first
            &&& handed.len() > first.len() ==> handed.last() is Exit
            &&& states[from].deferred.exit_reason is Some ==> handed.len() > first.len()
        }),
        (forall|i: int| from <= i < to ==> !defers_exit(#[trigger] moves[i])) ==> handed_out(
            moves,
            from,
            to,
        ) == states[from].deferred.waiting(),
{
    lemma_handed_out(states, moves, from, to);
    assert(moved(states[to], states[to + 1], moves[to]));
    let start = states[from].deferred;
    let handed = handed_out(moves, from, to);
    let end = states[to].deferred;
    assert(end.before_exit() =~= Seq::<ControlServerEvent>::empty());
    if !exit_was_handed_out(start, end, handed) {
        assert(handed =~= start.before_exit());
        assert(handed.take(handed.len() as int) =~= handed);
        assert(start.exit_reason is None);
        assert(start.waiting() =~= handed);
    }
}

/// All that waited was handed out, the exit last.
spec fn exit_was_handed_out(
    start: DeferredServerEvents,
    now: DeferredServerEvents,
    handed: Seq<ControlServerEvent>,
) -> bool {
    &&& now.is_empty()
    &&& handed.len() == start.before_exit().len() + 1
    &&& handed.drop_last() == start.before_exit()
    &&& handed.last() is Exit
}

/// What a move does to the events that wait while no command runs.
proof fn lemma_idle_move(before: ControlLoop, after: ControlLoop, step: LoopMove)
    requires
        moved(before, after, step),
        before.current is None,
        step !is Run,
    ensures
        after.current is None,
        match step {
            LoopMove::Advance(_, ControlAction::Event(event)) => control_events::took_event(
                before.deferred,
                after.deferred,
                event,
            ),
            _ => {
                &&& after.deferred.before_exit() == before.deferred.before_exit()
                &&& after.deferred.exit_reason == before.deferred.exit_reason || (defers_exit(step)
                    && after.deferred.exit_reason is Some && before.deferred.notifications@.len()
                    > 0)
            },
        },
{
}

proof fn lemma_handed_out(states: Seq<ControlLoop>, moves: Seq<LoopMove>, from: int, to: int)
    requires
        is_run(states, moves),
        0 <= from <= to < states.len(),
        states[from].current is None,
        forall|i: int| from <= i < to ==> (#[trigger] moves[i]) !is Run,
    ensures
        states[to].current is None,
        ({
            let start = states[from].deferred;
            let now = states[to].deferred;
            let handed = handed_out(moves, from, to);
            let same_exit = forall|i: int| from <= i < to ==> !defers_exit(#[trigger] moves[i]);
            if exit_was_handed_out(start, now, handed) {
                same_exit ==> handed == start.waiting()
            } else {
                &&& handed + now.before_exit() == start.before_exit()
                &&& start.exit_reason is Some ==> now.exit_reason is Some
                &&& same_exit ==> now.exit_reason == start.exit_reason
            }
        }),
    decreases to - from,
{
    let start = states[from].deferred;
    let now = states[to].deferred;
    let handed = handed_out(moves, from, to);
    if to == from {
        assert(handed + now.before_exit() =~= start.before_exit());
    } else {
        lemma_handed_out(states, moves, from, to - 1);
        let step = moves[to - 1];
        let before = states[to - 1].deferred;
        let earlier = handed_out(moves, from, to - 1);
        assert(moved(states[to - 1], states[to - 1 + 1], step));
        lemma_idle_move(states[to - 1], states[to], step);
        if let LoopMove::Advance(_, ControlAction::Event(event)) = step {
            control_events::waiting_events_come_in_order(before, now, event);
            assert(handed.drop_last() =~= earlier);
            if event is Exit {
                assert(before.before_exit() =~= Seq::<ControlServerEvent>::empty());
                assert(earlier =~= start.before_exit());
                assert(handed =~= earlier + seq![event]);
                assert(now.is_empty());
            } else {
                assert(before.before_exit() =~= seq![event] + now.before_exit());
                assert(handed + now.before_exit() =~= earlier + before.before_exit());
            }
        } else if exit_was_handed_out(start, before, earlier) {
            assert(now.is_empty()) by {
                assert(before.before_exit() =~= Seq::<ControlServerEvent>::empty());
                assert(now.before_exit().len() == 0);
            }
        }
    }
}

/// While a command runs, no server event adds to the output or ends the stream.
pub proof fn a_running_command_is_not_interrupted(
    before: ControlLoop,
    after: ControlLoop,
    event: ControlServerEvent,
    action: ControlEventAction,
)
    requires
        moved(before, after, LoopMove::Event(event, action)),
        before.current is Some,
    ensures
        action == ControlEventAction::Nothing || (action == ControlEventAction::Refresh && event
            == ControlServerEvent::Refresh),
        after.output == before.output,
        after.current == before.current,
{
}

/// Events that waited are handled, and commands begin, only while no command
/// runs; the stream ends by itself only then too.
pub proof fn only_an_idle_loop_moves_on(
    before: ControlLoop,
    after: ControlLoop,
    closing: bool,
    action: ControlAction,
)
    requires
        moved(before, after, LoopMove::Advance(closing, action)),
        before.current is Some,
    ensures
        action == ControlAction::Wait,
        after.output == before.output,
        after.queued_lines == before.queued_lines,
        after.deferred == before.deferred,
{
}

/// The guard lines of a block carry its own time, number and flag: it is opened by a
/// begin line and closed by an end line, or by an error line where its command failed.
pub proof fn a_block_is_opened_and_closed_by_its_lines(
    before: ControlLoop,
    after: ControlLoop,
    timestamp: i64,
)
    requires
        moved(before, after, LoopMove::Begin { timestamp }),
    ensures
        after.output@ == before.output@.push(
            (
                vstd::utf8::encode_utf8(
                    "%begin "@ + text::signed_decimal(timestamp as int) + " "@ + text::decimal(
                        before.numbering.next_number as nat,
                    ) + " "@ + text::decimal(
                        if before.numbering.initial_left > 0 {
                            0
                        } else {
                            1
                        },
                    ) + "\n"@,
                ),
                false,
            ),
        ),
        after.opened is Some,
        after.numbering.initial_left == if before.numbering.initial_left > 0 {
            before.numbering.initial_left - 1
        } else {
            0
        },
        before.numbering.next_number < u64::MAX ==> after.numbering.next_number
            == before.numbering.next_number + 1,
{
}

/// A command that ended well is closed by an end line alone; one that failed by its
/// error in words and an error line. Either way no command runs then.
pub proof fn a_command_is_closed_as_it_ended(
    before: ControlLoop,
    after: ControlLoop,
    command: ActiveControlCommand,
    error: Option<Seq<char>>,
)
    requires
        before.current == Some(command),
        moved(before, after, LoopMove::CloseCommand(error)),
    ensures
        ({
            let numbers = text::signed_decimal(command.timestamp as int) + " "@ + text::decimal(
                command.command_number as nat,
            ) + " "@ + text::decimal(command.guard_flag as nat) + "\n"@;
            &&& after.current is None
            &&& after.output@.last() == (
                vstd::utf8::encode_utf8(
                    match error {
                        Some(_) => "%error "@,
                        None => "%end "@,
                    } + text::signed_decimal(command.timestamp as int) + " "@ + text::decimal(
                        command.command_number as nat,
                    ) + " "@ + text::decimal(command.guard_flag as nat) + "\n"@,
                ),
                false,
            )
            &&& error is None ==> after.output@.len() == before.output@.len() + 1
            &&& error matches Some(error) ==> {
                let bytes = vstd::utf8::encode_utf8(error);
                &&& bytes.len() == 0 ==> after.output@.len() == before.output@.len() + 1
                &&& bytes.len() > 0 && bytes.last() != 0x0a ==> after.output@.len()
                    == before.output@.len() + 2 && after.output@[before.output@.len() as int] == (
                    bytes.push(0x0a),
                    false,
                )
            }
        }),
{
}

/// Where the input ends while a command runs, its block is closed by an end line, and
/// the exit line without a reason follows.
pub proof fn the_end_of_input_closes_the_block(
    before: ControlLoop,
    after: ControlLoop,
    command: ActiveControlCommand,
)
    requires
        before.current == Some(command),
        moved(before, after, LoopMove::EndOfInput),
    ensures
        after.current is None,
        after.output@.len() == before.output@.len() + 2,
        after.output@.last() == (vstd::utf8::encode_utf8("%exit\n"@), false),
        after.output@[before.output@.len() as int] == (
            vstd::utf8::encode_utf8(
                "%end "@ + text::signed_decimal(command.timestamp as int) + " "@ + text::decimal(
                    command.command_number as nat,
                ) + " "@ + text::decimal(command.guard_flag as nat) + "\n"@,
            ),
            false,
        ),
{
}

/// A line that cannot be parsed is answered with what is wrong with it, and its block
/// is closed by an error line.
pub proof fn an_unparsed_line_is_answered(
    before: ControlLoop,
    told: ControlLoop,
    after: ControlLoop,
    block: ControlBlock,
    error: Seq<char>,
)
    requires
        before.opened == Some(block),
        moved(before, told, LoopMove::ParseFailed(error)),
        moved(told, after, LoopMove::CloseFailed),
        vstd::utf8::encode_utf8("parse error: "@ + error).len() > 0,
        vstd::utf8::encode_utf8("parse error: "@ + error).last() != 0x0a,
    ensures
        after.opened is None,
        after.output@ == before.output@.push(
            (vstd::utf8::encode_utf8("parse error: "@ + error).push(0x0a), false),
        ).push(
            (
                vstd::utf8::encode_utf8(
                    "%error "@ + text::signed_decimal(block.timestamp as int) + " "@
                        + text::decimal(block.frame.number as nat) + " "@ + text::decimal(
                        block.frame.guard_flag as nat,
                    ) + "\n"@,
                ),
                false,
            ),
        ),
{
}

/// Output of a pane, of a command and notifications are queued behind what waits, pane
/// output as it is and marked as such, the others with a line feed at their end.
pub proof fn output_is_queued_as_what_it_is(
    before: ControlLoop,
    pane: ControlLoop,
    told: ControlLoop,
    output: ControlLoop,
    bytes: Seq<u8>,
    line: String,
)
    requires
        moved(before, pane, LoopMove::PaneOutput(bytes)),
        moved(before, told, LoopMove::Notify(line)),
        moved(before, output, LoopMove::CommandOutput(bytes)),
    ensures
        pane.output@ == before.output@.push((bytes, true)),
        ({
            let sent = vstd::utf8::encode_utf8(line@);
            told.output@ == before.output@.push(
                (
                    if sent.len() > 0 && sent.last() == 0x0a {
                        sent
                    } else {
                        sent.push(0x0a)
                    },
                    false,
                ),
            )
        }),
        before.current is Some && bytes.len() > 0 ==> output.output@ == before.output@.push(
            (
                if bytes.last() == 0x0a {
                    bytes
                } else {
                    bytes.push(0x0a)
                },
                false,
            ),
        ),
        before.current is Some && bytes.len() == 0 ==> output.output@ == before.output@,
{
}

/// The exit line gives its reason.
pub proof fn an_exit_is_told_with_its_reason(
    before: ControlLoop,
    after: ControlLoop,
    reason: Option<Seq<char>>,
)
    requires
        moved(before, after, LoopMove::Exit(reason)),
    ensures
        after.output@ == before.output@.push(
            (
                vstd::utf8::encode_utf8(
                    match reason {
                        Some(reason) => "%exit "@ + reason + "\n"@,
                        None => "%exit\n"@,
                    },
                ),
                false,
            ),
        ),
{
}

/// What an idle loop asks for next is settled by where it stands: an event that waits
/// comes first, then a closing client exits, then the next line begins; an empty line,
/// the end-of-input marker and drained input end the stream, and otherwise it waits.
pub proof fn an_idle_loop_knows_what_comes_next(
    before: ControlLoop,
    after: ControlLoop,
    closing: bool,
    action: ControlAction,
)
    requires
        before.wf(),
        before.current is None,
        before.phase is Top,
        moved(before, after, LoopMove::Advance(closing, action)),
    ensures
        !before.deferred.is_empty() ==> action is Event,
        before.deferred.is_empty() && closing ==> action is Finish,
        before.deferred.is_empty() && !closing && before.queued_lines@.len() == 0 ==> if before.input_closed {
            action is Finish
        } else {
            action is Wait
        },
        before.deferred.is_empty() && !closing && before.queued_lines@.len() > 0 ==> {
            let line = before.queued_lines@[0];
            if line@.len() == 0 || (before.eof_marker matches Some(marker) && line@ == marker@) {
                action is Finish
            } else {
                action == ControlAction::Begin(line)
            }
        },
        action is Finish ==> after.output@ == before.output@.push(
            (vstd::utf8::encode_utf8("%exit\n"@), false),
        ),
        action is Begin ==> after.output@ == before.output@ && after.queued_lines@
            == before.queued_lines@.subrange(1, before.queued_lines@.len() as int),
{
}

/// A command whose block was opened runs with the block's numbers, and is cancelled at
/// the end of input where it waits for something.
pub proof fn a_command_runs_with_its_block(
    before: ControlLoop,
    after: ControlLoop,
    block: ControlBlock,
    commands: Seq<ParsedCommand>,
)
    requires
        before.opened == Some(block),
        moved(before, after, LoopMove::Run(commands)),
    ensures
        after.opened is None,
        after.current matches Some(command) && command.timestamp == block.timestamp
            && command.command_number == block.frame.number && command.guard_flag
            == block.frame.guard_flag && command.abort_on_eof == control_commands::commands_block(
            commands,
        ),
        after.output@ == before.output@,
{
}

/// A read of nothing is the end of the input; a read of something never is, without a
/// marker.
pub proof fn reading_nothing_ends_the_input(
    before: ControlLoop,
    after: ControlLoop,
    bytes: Seq<u8>,
    result: Result<(), ControlError>,
)
    requires
        moved(before, after, LoopMove::Read { bytes, result }),
        before.eof_marker is None,
    ensures
        bytes.len() == 0 ==> after.input_closed && result is Ok && after.queued_lines
            == before.queued_lines,
        bytes.len() > 0 ==> after.input_closed == before.input_closed,
        bytes.len() > 0 ==> after.input_buffer@ == control_lines::unfinished_line(
            before.input_buffer@ + bytes,
        ),
{
}

/// While no command runs and nothing waits, a notification is sent at once, a change of
/// session refreshes and an exit ends; while one runs, each waits, but for a refresh.
pub proof fn events_wait_for_the_running_command(
    before: ControlLoop,
    after: ControlLoop,
    event: ControlServerEvent,
    action: ControlEventAction,
)
    requires
        moved(before, after, LoopMove::Event(event, action)),
        before.deferred.exit_reason is None,
    ensures
        event is Refresh ==> action is Refresh,
        before.current is None ==> match event {
            ControlServerEvent::Notification(line) => action == ControlEventAction::Notify(line),
            ControlServerEvent::SessionChanged(next) => action is Refresh && after.session_name
                == next,
            ControlServerEvent::Exit(reason) => if before.deferred.notifications@.len() == 0 {
                action == ControlEventAction::Exit(reason)
            } else {
                action is Nothing && after.deferred.exit_reason == Some(reason)
            },
            ControlServerEvent::Refresh => true,
        },
        before.current is Some ==> match event {
            ControlServerEvent::Notification(line) => action is Nothing && (
            before.deferred.has_room_for(line@) ==> after.deferred.notifications@
                == before.deferred.notifications@.push(line)) && (!before.deferred.has_room_for(
                line@,
            ) ==> after.deferred.notifications@.len() == 0 && (after.deferred.exit_reason
                matches Some(Some(reason)) && reason@ == "control notification queue exceeded"@)),
            ControlServerEvent::SessionChanged(next) => action is Nothing
                && after.deferred.session_change == Some(next) && after.session_name
                == before.session_name,
            ControlServerEvent::Exit(reason) => action is Nothing && after.deferred.exit_reason
                == Some(reason),
            ControlServerEvent::Refresh => true,
        },
{
}

/// A client is started with at most 1024 commands, and one with more is told how many
/// it had.
pub proof fn too_many_first_commands_are_refused(
    input: ControlUpgradeInput,
    eof_marker: Option<String>,
    result: Result<ControlLoop, ControlError>,
)
    requires
        call_ensures(ControlLoop::new, (input, eof_marker), result),
    ensures
        input.initial_command_count > 1024 ==> (result matches Err(error) && error@ == (
            ControlErrorKind::InvalidInput,
            "too many initial control-mode commands: "@ + text::decimal(
                input.initial_command_count as nat,
            ) + " (maximum 1024)"@,
        )),
        result matches Ok(state) ==> input.initial_command_count <= 1024,
{
}

/// A stream that ends too early says how many of its commands came.
pub proof fn an_early_end_says_how_far_it_came(had: nat, count: nat)
    ensures
        initial_commands_cut_off(had, count) == (
            ControlErrorKind::UnexpectedEof,
            "control-mode stream closed after "@ + text::decimal(had) + " of "@ + text::decimal(
                count,
            ) + " initial commands"@,
        ),
{
}

/// Input from the line on that ends with the client's end-of-input marker is dropped,
/// and the input is closed; without the marker nothing is.
pub proof fn the_marker_closes_the_input(
    before: ControlLoop,
    after: ControlLoop,
    marker: String,
    at: int,
)
    requires
        marker_consumed(before, after),
        before.eof_marker == Some(marker),
        control_lines::marker_line(control_lines::texts(before.queued_lines@), marker@) == Some(at),
    ensures
        after.input_closed,
        after.queued_lines@ == before.queued_lines@.take(at),
        after.input_buffer@.len() == 0,
{
}

/// Once lines are taken they are taken on, whether or not the client was told to close,
/// until none is left; a loop that waits, or whose command runs, is at its top again.
pub proof fn lines_are_taken_until_none_is_left(
    before: ControlLoop,
    after: ControlLoop,
    closing: bool,
    action: ControlAction,
)
    requires
        before.wf(),
        before.phase is Lines,
        moved(before, after, LoopMove::Advance(closing, action)),
    ensures
        before.queued_lines@.len() > 0 ==> {
            let line = before.queued_lines@[0];
            if line@.len() == 0 || (before.eof_marker matches Some(marker) && line@ == marker@) {
                action is Finish
            } else {
                action == ControlAction::Begin(line) && after.phase is Lines
            }
        },
        before.queued_lines@.len() == 0 ==> if before.input_closed {
            action is Finish
        } else {
            action is Wait && after.phase is Top
        },
{
}

/// From its top a loop begins a line by turning to its lines, and hands out an event by
/// staying there.
pub proof fn a_loop_turns_to_its_lines(
    before: ControlLoop,
    after: ControlLoop,
    closing: bool,
    action: ControlAction,
)
    requires
        moved(before, after, LoopMove::Advance(closing, action)),
    ensures
        action is Begin ==> after.phase is Lines,
        action is Wait ==> after.phase is Top,
        action is Event ==> after.phase == before.phase && after.queued_lines@
            == before.queued_lines@,
{
}

} // verus!
