//! The program of a popup.
use crate::control_lines;
use crate::control_lines::text_from_utf8_lossy;
use crate::error::{ErrorModel, RmuxError};
use crate::refresh_client::TerminalSize;
use crate::text;
use std::collections::VecDeque;
use vstd::prelude::*;

verus! {

/// The parts of `text` from `from` on that line feeds part, empty ones too.
pub open spec fn split_lines(text: Seq<char>, from: int) -> Seq<Seq<char>>
    decreases text.len() + 1 - from,
{
    if from < 0 || from > text.len() {
        Seq::empty()
    } else {
        match text::char_from(text, '\n', from) {
            Some(at) => if from <= at <= text.len() {
                seq![text.subrange(from, at)] + split_lines(text, at + 1)
            } else {
                Seq::empty()
            },
            None => seq![text.subrange(from, text.len() as int)],
        }
    }
}

/// `lines` without the empty ones at the end.
pub open spec fn without_trailing_empty(lines: Seq<Seq<char>>) -> Seq<Seq<char>>
    decreases lines.len(),
{
    if lines.len() > 0 && lines.last().len() == 0 {
        without_trailing_empty(lines.drop_last())
    } else {
        lines
    }
}

/// The lines of a screen, without empty ones at its end.
pub fn rendered_lines(rendered: &str) -> (lines: Vec<String>)
    ensures
        text::views(lines@) == without_trailing_empty(split_lines(rendered@, 0)),
{
    let len: usize = rendered.unicode_len();
    let mut lines: Vec<String> = Vec::new();
    let mut start: usize = 0;
    let mut at: usize = 0;
    assert(text::views(lines@) + split_lines(rendered@, 0) =~= split_lines(rendered@, 0));
    while at < len
        invariant
            len == rendered@.len(),
            start <= at <= len,
            forall|j: int| start <= j < at ==> #[trigger] rendered@[j] != '\n',
            text::views(lines@) + split_lines(rendered@, start as int) == split_lines(rendered@, 0),
        decreases len - at,
    {
        if rendered.get_char(at) == '\n' {
            proof {
                text::lemma_char_from(rendered@, '\n', start as int);
            }
            let line = rendered.substring_char(start, at).to_owned();
            let ghost before = text::views(lines@);
            lines.push(line);
            proof {
                assert(text::views(lines@) =~= before + seq![line@]);
                assert(before + (seq![line@] + split_lines(rendered@, at + 1)) =~= before + seq![
                    line@,
                ] + split_lines(rendered@, at + 1));
            }
            start = at + 1;
        }
        at = at + 1;
    }
    proof {
        text::lemma_char_from(rendered@, '\n', start as int);
    }
    let last = rendered.substring_char(start, len).to_owned();
    let ghost before = text::views(lines@);
    lines.push(last);
    assert(text::views(lines@) =~= before + seq![last@]);
    assert(text::views(lines@) =~= split_lines(rendered@, 0));
    while lines.len() > 0 && lines[lines.len() - 1].as_str().unicode_len() == 0
        invariant
            without_trailing_empty(text::views(lines@)) == without_trailing_empty(
                split_lines(rendered@, 0),
            ),
        decreases lines.len(),
    {
        let ghost whole = text::views(lines@);
        assert(whole.last() == lines@[lines@.len() - 1]@);
        let _ = lines.pop();
        assert(text::views(lines@) =~= whole.drop_last());
    }
    proof {
        let whole = text::views(lines@);
        if whole.len() > 0 {
            assert(whole.last() == lines@[lines@.len() - 1]@);
        }
    }
    lines
}

/// The lines of a popup, from what was captured of its screen.
pub fn popup_surface_lines(captured: &[u8]) -> (lines: Vec<String>)
    ensures
        text::views(lines@) == without_trailing_empty(
            split_lines(control_lines::text_of(captured@), 0),
        ),
{
    let rendered = text_from_utf8_lossy(captured);
    rendered_lines(rendered.as_str())
}

/// What is asked of a popup's terminal.
#[derive(Debug, PartialEq, Eq)]
pub enum PopupIoOperation {
    Write(Vec<u8>),
    Resize(TerminalSize),
}

/// A popup's terminal that nobody serves any longer, as a pipe that nobody reads.
#[derive(Debug, PartialEq, Eq)]
pub struct BrokenPipe {
    pub message: String,
}

/// What is still to be done to a popup's terminal. One worker does it, in the order
/// in which it was asked.
#[derive(Debug, PartialEq, Eq)]
pub struct PopupIoQueue {
    pub operations: VecDeque<PopupIoOperation>,
    pub stopped: bool,
}

impl PopupIoQueue {
    /// Nothing to do.
    pub fn new() -> (queue: Self)
        ensures
            queue.operations@.len() == 0,
            !queue.stopped,
    {
        PopupIoQueue { operations: VecDeque::new(), stopped: false }
    }

    /// Asks for an operation. Refused once the worker stopped.
    pub fn enqueue(&mut self, operation: PopupIoOperation) -> (result: Result<(), BrokenPipe>)
        ensures
            final(self).stopped == old(self).stopped,
            if old(self).stopped {
                &&& result matches Err(error)
                &&& error.message@ == "popup I/O worker stopped"@
                &&& final(self).operations@ == old(self).operations@
            } else {
                &&& result is Ok
                &&& final(self).operations@ == old(self).operations@.push(operation)
            },
    {
        if self.stopped {
            return Err(BrokenPipe { message: "popup I/O worker stopped".to_owned() });
        }
        self.operations.push_back(operation);
        Ok(())
    }

    /// The operation that the worker does next.
    pub fn next_operation(&mut self) -> (operation: Option<PopupIoOperation>)
        ensures
            final(self).stopped == old(self).stopped,
            if old(self).operations@.len() == 0 {
                operation is None && final(self).operations@ == old(self).operations@
            } else {
                &&& operation == Some(old(self).operations@[0])
                &&& final(self).operations@ == old(self).operations@.subrange(
                    1,
                    old(self).operations@.len() as int,
                )
            },
    {
        if self.operations.len() == 0 {
            return None;
        }
        self.operations.pop_front()
    }
}

/// A size with a row and a column at least.
pub open spec fn at_least_one(size: TerminalSize) -> TerminalSize {
    TerminalSize {
        cols: if size.cols == 0 {
            1
        } else {
            size.cols
        },
        rows: if size.rows == 0 {
            1
        } else {
            size.rows
        },
    }
}

/// The size that a popup's terminal gets: a row and a column at least.
pub fn popup_terminal_size(size: TerminalSize) -> (given: TerminalSize)
    ensures
        given == at_least_one(size),
{
    TerminalSize {
        cols: if size.cols == 0 {
            1
        } else {
            size.cols
        },
        rows: if size.rows == 0 {
            1
        } else {
            size.rows
        },
    }
}

/// The code that a popup ends with: the exit code of its program, else the signal
/// that ended it.
pub fn status_to_code(code: Option<i32>, signal: Option<i32>) -> (status: Option<i32>)
    ensures
        status == match code {
            Some(code) => Some(code),
            None => signal,
        },
{
    match code {
        Some(code) => Some(code),
        None => signal,
    }
}

/// What a look at a popup's program shows.
#[derive(Debug, Clone, Copy, PartialEq, Eq, Structural)]
pub enum PopupChildState {
    /// The program was taken away.
    Gone,
    Running,
    Exited { code: Option<i32>, signal: Option<i32> },
}

/// What follows a look at a popup's program.
#[derive(Debug, Clone, Copy, PartialEq, Eq, Structural)]
pub enum PopupWaitStep {
    Stop,
    LookAgain,
    Finished { status: i32 },
}

/// What follows a look at a popup's program.
pub fn popup_wait_step(child: PopupChildState) -> (step: PopupWaitStep)
    ensures
        step == match child {
            PopupChildState::Gone => PopupWaitStep::Stop,
            PopupChildState::Running => PopupWaitStep::LookAgain,
            PopupChildState::Exited { code: Some(status), .. } => PopupWaitStep::Finished {
                status,
            },
            PopupChildState::Exited { code: None, signal: Some(status) } => {
                PopupWaitStep::Finished { status }
            },
            PopupChildState::Exited { code: None, signal: None } => PopupWaitStep::LookAgain,
        },
{
    match child {
        PopupChildState::Gone => PopupWaitStep::Stop,
        PopupChildState::Running => PopupWaitStep::LookAgain,
        PopupChildState::Exited { code, signal } => match status_to_code(code, signal) {
            Some(status) => PopupWaitStep::Finished { status },
            None => PopupWaitStep::LookAgain,
        },
    }
}

/// How a popup's terminal is read.
#[derive(Debug, Clone, Copy, PartialEq, Eq, Structural)]
pub enum PopupReader {
    /// Once it is ready, as Unix does.
    WhenReady,
    /// By reads that block, as Windows does.
    Blocking,
}

/// What comes of one read of a popup's terminal.
#[derive(Debug, Clone, Copy, PartialEq, Eq, Structural)]
pub enum PopupRead {
    Bytes(usize),
    /// A signal came in between.
    Interrupted,
    Failed,
}

/// What follows a read of a popup's terminal.
#[derive(Debug, Clone, Copy, PartialEq, Eq, Structural)]
pub enum PopupReadStep {
    Stop,
    ReadAgain,
    /// The first `len` bytes that were read are shown.
    Show { len: usize },
}

/// What follows a read of a popup's terminal. Only a read that blocks is made again
/// where it was interrupted; any other failure ends the reading, as its end does.
pub fn popup_read_step(reader: PopupReader, read: PopupRead) -> (step: PopupReadStep)
    ensures
        step == match (reader, read) {
            (_, PopupRead::Bytes(len)) => if len == 0 {
                PopupReadStep::Stop
            } else {
                PopupReadStep::Show { len }
            },
            (PopupReader::Blocking, PopupRead::Interrupted) => PopupReadStep::ReadAgain,
            (PopupReader::WhenReady, PopupRead::Interrupted) => PopupReadStep::Stop,
            (_, PopupRead::Failed) => PopupReadStep::Stop,
        },
{
    match read {
        PopupRead::Bytes(len) => {
            if len == 0 {
                PopupReadStep::Stop
            } else {
                PopupReadStep::Show { len }
            }
        },
        PopupRead::Interrupted => match reader {
            PopupReader::WhenReady => PopupReadStep::Stop,
            PopupReader::Blocking => PopupReadStep::ReadAgain,
        },
        PopupRead::Failed => PopupReadStep::Stop,
    }
}

/// Settings of an environment: names and values.
pub open spec fn settings(environment: Seq<(String, String)>) -> Seq<(Seq<char>, Seq<char>)> {
    environment.map_values(|setting: (String, String)| (setting.0@, setting.1@))
}

/// The value of `name` after all settings were made, one after another.
pub open spec fn setting_of(made: Seq<(Seq<char>, Seq<char>)>, name: Seq<char>) -> Option<Seq<char>>
    decreases made.len(),
{
    if made.len() == 0 {
        None
    } else if made.last().0 == name {
        Some(made.last().1)
    } else {
        setting_of(made.drop_last(), name)
    }
}

/// The program of a popup as it is to be started, with nothing in its environment
/// but what is set here, one setting after another.
#[derive(Debug, PartialEq, Eq)]
pub struct PopupCommand {
    /// What the shell runs; `None` is an interactive shell.
    pub shell_command: Option<String>,
    pub size: TerminalSize,
    pub working_directory: String,
    pub environment: Vec<(String, String)>,
}

fn append_settings(environment: &mut Vec<(String, String)>, more: &Vec<(String, String)>)
    ensures
        settings(final(environment)@) == settings(old(environment)@) + settings(more@),
{
    let ghost before = settings(environment@);
    let mut i: usize = 0;
    assert(before + settings(more@.take(0)) =~= before);
    while i < more.len()
        invariant
            i <= more@.len(),
            settings(environment@) == before + settings(more@.take(i as int)),
        decreases more.len() - i,
    {
        let ghost so_far = settings(environment@);
        environment.push((more[i].0.clone(), more[i].1.clone()));
        proof {
            let done = settings(more@.take(i as int));
            let setting = (more@[i as int].0@, more@[i as int].1@);
            assert(settings(more@.take(i + 1)) =~= done.push(setting));
            assert(settings(environment@) =~= so_far.push(setting));
            assert(so_far.push(setting) =~= before + done.push(setting));
        }
        i = i + 1;
    }
    assert(more@.take(i as int) =~= more@);
}

/// The program of a popup of the size `size`. `working_directory` and `profile` are
/// the directory and the environment of the session, `assigned` what the popup sets
/// itself, or why that makes no sense.
pub fn popup_job_command(
    size: TerminalSize,
    shell_command: Option<String>,
    working_directory: String,
    profile: &Vec<(String, String)>,
    assigned: Result<Vec<(String, String)>, RmuxError>,
) -> (command: Result<PopupCommand, RmuxError>)
    ensures
        match assigned {
            Err(refusal) => command matches Err(error) && error@ == refusal@,
            Ok(assigned) => {
                &&& command matches Ok(command)
                &&& command.shell_command == shell_command
                &&& command.size == at_least_one(size)
                &&& command.working_directory == working_directory
                &&& settings(command.environment@) == settings(profile@) + settings(assigned@)
            },
        },
{
    let assigned = match assigned {
        Ok(assigned) => assigned,
        Err(error) => {
            return Err(error);
        },
    };
    let mut environment: Vec<(String, String)> = Vec::new();
    append_settings(&mut environment, profile);
    append_settings(&mut environment, &assigned);
    proof {
        assert(settings(Seq::<(String, String)>::empty()) + settings(profile@) =~= settings(
            profile@,
        ));
    }
    let size = popup_terminal_size(size);
    Ok(PopupCommand { shell_command, size, working_directory, environment })
}

/// What can go wrong while a popup is started.
#[derive(Debug, Clone, Copy, PartialEq, Eq, Structural)]
pub enum PopupStartFailure {
    Spawn,
    PreparePty,
    ClonePty,
    CloneChild,
    ReaderNonblocking,
    WatchPty,
}

/// What went wrong, in words.
pub open spec fn start_failure_text(failure: PopupStartFailure) -> Seq<char> {
    match failure {
        PopupStartFailure::Spawn => "failed to spawn popup process: "@,
        PopupStartFailure::PreparePty => "failed to prepare popup pty: "@,
        PopupStartFailure::ClonePty => "failed to clone popup pty fd: "@,
        PopupStartFailure::CloneChild => "failed to clone popup child for ConPTY teardown: "@,
        PopupStartFailure::ReaderNonblocking => "failed to make popup pty nonblocking: "@,
        PopupStartFailure::WatchPty => "failed to watch popup pty: "@,
    }
}

/// The refusal of a popup that could not be started for the reason `reason`.
pub fn popup_start_error(failure: PopupStartFailure, reason: &str) -> (error: RmuxError)
    ensures
        error@ == ErrorModel::Server(start_failure_text(failure) + reason@),
{
    let what = match failure {
        PopupStartFailure::Spawn => "failed to spawn popup process: ",
        PopupStartFailure::PreparePty => "failed to prepare popup pty: ",
        PopupStartFailure::ClonePty => "failed to clone popup pty fd: ",
        PopupStartFailure::CloneChild => "failed to clone popup child for ConPTY teardown: ",
        PopupStartFailure::ReaderNonblocking => "failed to make popup pty nonblocking: ",
        PopupStartFailure::WatchPty => "failed to watch popup pty: ",
    };
    RmuxError::Server(text::concat2(what, reason))
}

/// Why an operation on a popup's terminal failed.
#[derive(Debug, PartialEq, Eq)]
pub enum PopupIoFailure<E> {
    BrokenPipe(BrokenPipe),
    /// The terminal itself failed.
    Terminal(E),
}

/// The answer to an operation: what the worker replied, where it did.
pub fn popup_io_answer<E>(reply: Option<Result<(), E>>) -> (answer: Result<(), PopupIoFailure<E>>)
    ensures
        match reply {
            Some(Ok(())) => answer is Ok,
            Some(Err(failure)) => answer == Err::<(), PopupIoFailure<E>>(
                PopupIoFailure::Terminal(failure),
            ),
            None => answer matches Err(PopupIoFailure::BrokenPipe(error)) && error.message@
                == "popup I/O worker stopped before replying"@,
        },
{
    match reply {
        Some(Ok(())) => Ok(()),
        Some(Err(failure)) => Err(PopupIoFailure::Terminal(failure)),
        None => Err(
            PopupIoFailure::BrokenPipe(
                BrokenPipe { message: "popup I/O worker stopped before replying".to_owned() },
            ),
        ),
    }
}

/// Something that happens to what is to be done to a popup's terminal.
pub enum QueueEvent {
    /// An operation is asked for.
    Asked(PopupIoOperation),
    /// The worker takes the next operation.
    Taken,
}

/// What is left to do after `events`, with nothing to do at first.
pub open spec fn left_to_do(events: Seq<QueueEvent>) -> Seq<PopupIoOperation>
    decreases events.len(),
{
    if events.len() == 0 {
        Seq::empty()
    } else {
        let before = left_to_do(events.drop_last());
        match events.last() {
            QueueEvent::Asked(operation) => before.push(operation),
            QueueEvent::Taken => if before.len() == 0 {
                before
            } else {
                before.subrange(1, before.len() as int)
            },
        }
    }
}

/// What was taken in `events`, in this order.
pub open spec fn taken(events: Seq<QueueEvent>) -> Seq<PopupIoOperation>
    decreases events.len(),
{
    if events.len() == 0 {
        Seq::empty()
    } else {
        let before = left_to_do(events.drop_last());
        match events.last() {
            QueueEvent::Taken if before.len() > 0 => taken(events.drop_last()).push(before[0]),
            _ => taken(events.drop_last()),
        }
    }
}

/// What was asked for in `events`, in this order.
pub open spec fn asked_for(events: Seq<QueueEvent>) -> Seq<PopupIoOperation>
    decreases events.len(),
{
    if events.len() == 0 {
        Seq::empty()
    } else {
        match events.last() {
            QueueEvent::Asked(operation) => asked_for(events.drop_last()).push(operation),
            QueueEvent::Taken => asked_for(events.drop_last()),
        }
    }
}

/// Operations are done in the order in which they were asked for, each once: what
/// was done and what is left to do make up what was asked for, at any time.
pub proof fn operations_keep_their_order(events: Seq<QueueEvent>)
    ensures
        taken(events) + left_to_do(events) == asked_for(events),
    decreases events.len(),
{
    if events.len() == 0 {
        assert(taken(events) + left_to_do(events) =~= asked_for(events));
    } else {
        let rest = events.drop_last();
        operations_keep_their_order(rest);
        assert(taken(events) + left_to_do(events) =~= asked_for(events));
    }
}

/// What a popup sets itself counts before what its session sets; names that the
/// popup does not set are as in the session.
pub proof fn a_popup_overrides_its_session(
    profile: Seq<(Seq<char>, Seq<char>)>,
    assigned: Seq<(Seq<char>, Seq<char>)>,
    name: Seq<char>,
)
    ensures
        setting_of(profile + assigned, name) == match setting_of(assigned, name) {
            Some(value) => Some(value),
            None => setting_of(profile, name),
        },
    decreases assigned.len(),
{
    let all = profile + assigned;
    if assigned.len() == 0 {
        assert(all =~= profile);
    } else {
        assert(all.last() == assigned.last());
        assert(all.drop_last() =~= profile + assigned.drop_last());
        a_popup_overrides_its_session(profile, assigned.drop_last(), name);
    }
}

/// A screen comes apart into its lines at its line feeds, empty lines too.
pub proof fn a_screen_comes_apart_at_line_feeds(line: Seq<char>, rest: Seq<char>)
    requires
        forall|i: int| 0 <= i < line.len() ==> #[trigger] line[i] != '\n',
    ensures
        split_lines(line, 0) == seq![line],
        split_lines(line + seq!['\n'] + rest, 0) == seq![line] + split_lines(rest, 0),
{
    let all = line + seq!['\n'] + rest;
    let at = line.len() as int;
    text::lemma_char_from(line, '\n', 0);
    text::lemma_char_from(all, '\n', 0);
    assert(line.subrange(0, at) =~= line);
    assert(all[at] == '\n');
    let found = text::char_from(all, '\n', 0)->0;
    if found < at {
        assert(all[found] == line[found]);
    }
    assert(found == at);
    assert(all.subrange(0, at) =~= line);
    lemma_split_shift(line + seq!['\n'], rest, 0);
}

proof fn lemma_split_shift(before: Seq<char>, rest: Seq<char>, from: int)
    requires
        0 <= from,
    ensures
        split_lines(before + rest, before.len() + from) == split_lines(rest, from),
    decreases rest.len() + 1 - from,
{
    let all = before + rest;
    if from <= rest.len() {
        text::lemma_char_shift(before, rest, '\n', from);
        text::lemma_char_from(rest, '\n', from);
        match text::char_from(rest, '\n', from) {
            Some(at) => {
                assert(all.subrange(before.len() + from, before.len() + at) =~= rest.subrange(
                    from,
                    at,
                ));
                lemma_split_shift(before, rest, at + 1);
            },
            None => {
                assert(all.subrange(before.len() + from, all.len() as int) =~= rest.subrange(
                    from,
                    rest.len() as int,
                ));
            },
        }
    }
}

/// Empty lines go at the end of a screen and nowhere else.
pub proof fn only_empty_lines_at_the_end_go(lines: Seq<Seq<char>>, last: Seq<char>)
    ensures
        last.len() > 0 ==> without_trailing_empty(lines.push(last)) == lines.push(last),
        last.len() == 0 ==> without_trailing_empty(lines.push(last)) == without_trailing_empty(
            lines,
        ),
        without_trailing_empty(seq![]) == Seq::<Seq<char>>::empty(),
{
    assert(lines.push(last).drop_last() =~= lines);
}

/// A popup's terminal has the size that was asked for, with at least a row and a column.
pub proof fn a_popup_terminal_has_a_size(size: TerminalSize, given: TerminalSize)
    requires
        call_ensures(popup_terminal_size, (size,), given),
    ensures
        size.cols > 0 ==> given.cols == size.cols,
        size.rows > 0 ==> given.rows == size.rows,
        size.cols == 0 ==> given.cols == 1,
        size.rows == 0 ==> given.rows == 1,
{
}

/// A popup that could not be started says at what it failed, and why.
pub proof fn a_failed_start_says_at_what(
    failure: PopupStartFailure,
    reason: &str,
    error: RmuxError,
)
    requires
        call_ensures(popup_start_error, (failure, reason), error),
    ensures
        error@ == ErrorModel::Server(
            match failure {
                PopupStartFailure::Spawn => "failed to spawn popup process: "@,
                PopupStartFailure::PreparePty => "failed to prepare popup pty: "@,
                PopupStartFailure::ClonePty => "failed to clone popup pty fd: "@,
                PopupStartFailure::CloneChild => {
                    "failed to clone popup child for ConPTY teardown: "@
                },
                PopupStartFailure::ReaderNonblocking => "failed to make popup pty nonblocking: "@,
                PopupStartFailure::WatchPty => "failed to watch popup pty: "@,
            } + reason@,
        ),
{
}

/// Of several settings of one name the last counts; another name's does not.
pub proof fn the_last_setting_of_a_name_counts(
    made: Seq<(Seq<char>, Seq<char>)>,
    name: Seq<char>,
    value: Seq<char>,
    other: Seq<char>,
)
    ensures
        setting_of(made.push((name, value)), name) == Some(value),
        other != name ==> setting_of(made.push((name, value)), other) == setting_of(made, other),
        setting_of(seq![], name) is None,
{
    assert(made.push((name, value)).drop_last() =~= made);
}

/// The program of a popup is started as it was asked for: its command, its directory,
/// its size, and the settings of the session followed by its own.
pub proof fn a_popup_starts_what_was_asked_for(
    size: TerminalSize,
    shell_command: Option<String>,
    working_directory: String,
    profile: Vec<(String, String)>,
    assigned: Vec<(String, String)>,
    command: Result<PopupCommand, RmuxError>,
    i: int,
)
    requires
        call_ensures(
            popup_job_command,
            (size, shell_command, working_directory, &profile, Ok(assigned)),
            command,
        ),
        0 <= i < assigned@.len(),
    ensures
        command matches Ok(started) && {
            &&& started.shell_command == shell_command
            &&& started.working_directory == working_directory
            &&& size.cols > 0 && size.rows > 0 ==> started.size == size
            &&& started.environment@.len() == profile@.len() + assigned@.len()
            &&& started.environment@[profile@.len() + i].0@ == assigned@[i].0@
            &&& started.environment@[profile@.len() + i].1@ == assigned@[i].1@
        },
{
    if let Ok(started) = command {
        let made = settings(started.environment@);
        assert(made.len() == started.environment@.len());
        assert(settings(profile@).len() == profile@.len());
        assert(settings(assigned@).len() == assigned@.len());
        assert(made[profile@.len() + i] == settings(assigned@)[i]);
        assert(made[profile@.len() + i] == (
            started.environment@[profile@.len() + i].0@,
            started.environment@[profile@.len() + i].1@,
        ));
        assert(settings(assigned@)[i] == (assigned@[i].0@, assigned@[i].1@));
    }
}

} // verus!
