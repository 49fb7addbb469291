//! What a control-mode client is sent: guard lines round each command's output,
//! and the line that ends the stream.
use crate::text;
use vstd::prelude::*;

verus! {

/// What a guard line says of a command.
#[derive(Debug, Clone, Copy, PartialEq, Eq, Structural)]
pub enum ControlGuardKind {
    Begin,
    End,
    Error,
}

/// The word that a guard line begins with.
pub open spec fn guard_word(kind: ControlGuardKind) -> Seq<char> {
    match kind {
        ControlGuardKind::Begin => "%begin "@,
        ControlGuardKind::End => "%end "@,
        ControlGuardKind::Error => "%error "@,
    }
}

/// A guard line: its word, the time, the command's number and its flag.
pub open spec fn guard_line(kind: ControlGuardKind, timestamp: int, number: nat, flag: nat) -> Seq<
    char,
> {
    guard_word(kind) + text::signed_decimal(timestamp) + " "@ + text::decimal(number) + " "@
        + text::decimal(flag) + "\n"@
}

/// The line that ends the stream, with the reason where there is one.
pub open spec fn exit_line(reason: Option<Seq<char>>) -> Seq<char> {
    match reason {
        Some(reason) => "%exit "@ + reason + "\n"@,
        None => "%exit\n"@,
    }
}

/// A guard line.
pub fn format_guard_line(kind: ControlGuardKind, timestamp: i64, number: u64, flag: u8) -> (line:
    String)
    ensures
        line@ == guard_line(kind, timestamp as int, number as nat, flag as nat),
{
    let word = match kind {
        ControlGuardKind::Begin => "%begin ",
        ControlGuardKind::End => "%end ",
        ControlGuardKind::Error => "%error ",
    };
    let mut line = word.to_owned();
    text::push_signed_decimal(&mut line, timestamp);
    line.append(" ");
    text::push_decimal(&mut line, number);
    line.append(" ");
    text::push_decimal(&mut line, flag as u64);
    line.append("\n");
    line
}

/// The line that ends the stream.
pub fn format_exit_line(reason: Option<&str>) -> (line: String)
    ensures
        line@ == exit_line(
            match reason {
                Some(reason) => Some(reason@),
                None => None,
            },
        ),
{
    match reason {
        Some(reason) => text::concat3("%exit ", reason, "\n"),
        None => "%exit\n".to_owned(),
    }
}

/// `bytes` with a line feed at the end.
pub open spec fn newline_terminated(bytes: Seq<u8>) -> Seq<u8> {
    if bytes.len() > 0 && bytes.last() == 0x0a {
        bytes
    } else {
        bytes.push(0x0a)
    }
}

/// `bytes` with a line feed at the end, added where there was none.
pub fn ensure_control_newline(bytes: Vec<u8>) -> (line: Vec<u8>)
    ensures
        line@ == newline_terminated(bytes@),
{
    let mut line = bytes;
    if line.len() == 0 || line[line.len() - 1] != 0x0a {
        line.push(0x0a);
    }
    line
}

/// One piece of output.
#[derive(Debug, PartialEq, Eq)]
pub struct ControlOutputBlock {
    pub bytes: Vec<u8>,
    /// The piece is output of a pane.
    pub pane_output: bool,
}

/// A piece as a value.
pub type BlockModel = (Seq<u8>, bool);

impl View for ControlOutputBlock {
    type V = BlockModel;

    open spec fn view(&self) -> BlockModel {
        (self.bytes@, self.pane_output)
    }
}

/// Output that waits to be written.
#[derive(Debug, PartialEq, Eq)]
pub struct ControlOutputQueue {
    pub blocks: Vec<ControlOutputBlock>,
    /// How many bytes wait; the largest number where there are more.
    pub buffered_bytes: usize,
}

impl View for ControlOutputQueue {
    type V = Seq<BlockModel>;

    open spec fn view(&self) -> Seq<BlockModel> {
        self.blocks@.map_values(|block: ControlOutputBlock| block@)
    }
}

/// How many bytes `blocks` have together.
pub open spec fn block_bytes(blocks: Seq<BlockModel>) -> nat
    decreases blocks.len(),
{
    if blocks.len() == 0 {
        0
    } else {
        block_bytes(blocks.drop_last()) + blocks.last().0.len()
    }
}

/// A line of text as a piece of output.
pub open spec fn text_block(line: Seq<char>) -> BlockModel {
    (vstd::utf8::encode_utf8(line), false)
}

impl Default for ControlOutputQueue {
    fn default() -> (value: Self)
        ensures
            value.wf(),
            value@.len() == 0,
    {
        ControlOutputQueue::new()
    }
}

impl ControlOutputQueue {
    /// The byte count agrees with the pieces.
    pub open spec fn wf(&self) -> bool {
        self.buffered_bytes == if block_bytes(self@) <= usize::MAX {
            block_bytes(self@)
        } else {
            usize::MAX as nat
        }
    }

    /// A queue with nothing in it.
    pub fn new() -> (queue: Self)
        ensures
            queue.wf(),
            queue@ == Seq::<BlockModel>::empty(),
    {
        let queue = ControlOutputQueue { blocks: Vec::new(), buffered_bytes: 0 };
        assert(queue@ =~= Seq::<BlockModel>::empty());
        queue
    }

    /// Queues a piece.
    pub fn enqueue_line(&mut self, bytes: Vec<u8>, pane_output: bool)
        requires
            old(self).wf(),
        ensures
            final(self).wf(),
            final(self)@ == old(self)@.push((bytes@, pane_output)),
    {
        let ghost before = self@;
        self.buffered_bytes = self.buffered_bytes.saturating_add(bytes.len());
        self.blocks.push(ControlOutputBlock { bytes, pane_output });
        assert(self@ =~= before.push((bytes@, pane_output)));
        assert(self@.drop_last() =~= before);
    }

    /// Queues a line of text that no pane wrote.
    pub fn enqueue_text(&mut self, line: &str)
        requires
            old(self).wf(),
        ensures
            final(self).wf(),
            final(self)@ == old(self)@.push(text_block(line@)),
    {
        self.enqueue_line(line.as_bytes_vec(), false);
    }

    /// Queues output of a command, ended by a line feed; no output is no piece.
    pub fn enqueue_stdout(&mut self, bytes: Vec<u8>)
        requires
            old(self).wf(),
        ensures
            final(self).wf(),
            final(self)@ == if bytes@.len() == 0 {
                old(self)@
            } else {
                old(self)@.push((newline_terminated(bytes@), false))
            },
    {
        if bytes.len() > 0 {
            self.enqueue_line(ensure_control_newline(bytes), false);
        }
    }

    /// Takes all that waits, in order.
    pub fn take_all(&mut self) -> (blocks: Vec<ControlOutputBlock>)
        requires
            old(self).wf(),
        ensures
            final(self).wf(),
            final(self)@ == Seq::<BlockModel>::empty(),
            blocks@.map_values(|block: ControlOutputBlock| block@) == old(self)@,
    {
        let blocks = self.blocks.split_off(0);
        self.buffered_bytes = 0;
        assert(self@ =~= Seq::<BlockModel>::empty());
        assert(blocks@ =~= old(self).blocks@);
        blocks
    }
}

/// The number and flag that a command's guard lines carry.
#[derive(Debug, Clone, Copy, PartialEq, Eq, Structural)]
pub struct ControlCommandFrame {
    pub number: u64,
    /// 0 for a command that the client was started with, 1 for one that it sent.
    pub guard_flag: u8,
}

/// Numbers commands in the order in which they begin.
#[derive(Debug, Clone, Copy, PartialEq, Eq, Structural)]
pub struct ControlCommandNumbering {
    pub next_number: u64,
    /// How many of the commands that the client was started with are left.
    pub initial_left: usize,
}

impl ControlCommandNumbering {
    /// The numbering of a client started without commands, whose opening block
    /// took the first number.
    pub fn after_initial_ack() -> (numbering: Self)
        ensures
            numbering == (ControlCommandNumbering { next_number: 2, initial_left: 0 }),
    {
        ControlCommandNumbering { next_number: 2, initial_left: 0 }
    }

    /// The numbering of a client started with `count` commands.
    pub fn with_initial_commands(count: usize) -> (numbering: Self)
        ensures
            numbering == (ControlCommandNumbering { next_number: 1, initial_left: count }),
    {
        ControlCommandNumbering { next_number: 1, initial_left: count }
    }

    /// The frame of the next command.
    pub open spec fn frame(self) -> ControlCommandFrame {
        ControlCommandFrame {
            number: self.next_number,
            guard_flag: if self.initial_left > 0 {
                0
            } else {
                1
            },
        }
    }

    /// The numbering once the next command began.
    pub open spec fn advanced(self) -> ControlCommandNumbering {
        ControlCommandNumbering {
            next_number: if self.next_number < u64::MAX {
                (self.next_number + 1) as u64
            } else {
                u64::MAX
            },
            initial_left: if self.initial_left > 0 {
                (self.initial_left - 1) as usize
            } else {
                0
            },
        }
    }

    /// The frame of the command that begins now.
    pub fn next_frame(&mut self) -> (frame: ControlCommandFrame)
        ensures
            frame == old(self).frame(),
            *final(self) == old(self).advanced(),
    {
        let frame = ControlCommandFrame {
            number: self.next_number,
            guard_flag: if self.initial_left > 0 {
                0
            } else {
                1
            },
        };
        self.next_number = self.next_number.saturating_add(1);
        self.initial_left = self.initial_left.saturating_sub(1);
        frame
    }
}

/// The numbering after `n` commands.
pub open spec fn numbering_after(numbering: ControlCommandNumbering, n: nat) -> ControlCommandNumbering
    decreases n,
{
    if n == 0 {
        numbering
    } else {
        numbering_after(numbering, (n - 1) as nat).advanced()
    }
}

/// The commands that a client was started with are numbered from one with flag
/// 0, and those that it sends go on from there with flag 1.
pub proof fn initial_commands_are_numbered_first(count: usize, n: nat)
    requires
        n + 1 < u64::MAX,
    ensures
        ({
            let start = ControlCommandNumbering { next_number: 1, initial_left: count };
            numbering_after(start, n).frame() == (ControlCommandFrame {
                number: (n + 1) as u64,
                guard_flag: if n < count {
                    0
                } else {
                    1
                },
            })
        }),
{
    lemma_numbering_after(ControlCommandNumbering { next_number: 1, initial_left: count }, n);
}

proof fn lemma_numbering_after(start: ControlCommandNumbering, n: nat)
    requires
        start.next_number + n < u64::MAX,
    ensures
        numbering_after(start, n).next_number == start.next_number + n,
        numbering_after(start, n).initial_left == if n < start.initial_left {
            start.initial_left - n
        } else {
            0
        },
    decreases n,
{
    if n > 0 {
        lemma_numbering_after(start, (n - 1) as nat);
    }
}

/// A guard line names its kind, and then gives the time, the command's number and its
/// flag, in that order.
pub proof fn a_guard_line_says_what_it_guards(
    kind: ControlGuardKind,
    timestamp: i64,
    number: u64,
    flag: u8,
    line: String,
)
    requires
        call_ensures(format_guard_line, (kind, timestamp, number, flag), line),
    ensures
        line@ == match kind {
            ControlGuardKind::Begin => "%begin "@,
            ControlGuardKind::End => "%end "@,
            ControlGuardKind::Error => "%error "@,
        } + text::signed_decimal(timestamp as int) + " "@ + text::decimal(number as nat) + " "@
            + text::decimal(flag as nat) + "\n"@,
{
}

/// The line that ends a stream gives its reason where it has one.
pub proof fn an_exit_line_gives_its_reason(reason: &str, with_reason: String, bare: String)
    requires
        call_ensures(format_exit_line, (Some(reason),), with_reason),
        call_ensures(format_exit_line, (None,), bare),
    ensures
        with_reason@ == "%exit "@ + reason@ + "\n"@,
        bare@ == "%exit\n"@,
{
}

/// Output ends in exactly the line feed that it had, or in one that was added; nothing
/// else of it changes.
pub proof fn output_ends_in_a_line_feed(bytes: Vec<u8>, line: Vec<u8>)
    requires
        call_ensures(ensure_control_newline, (bytes,), line),
    ensures
        line@.len() > 0 && line@.last() == 0x0a,
        bytes@.len() > 0 && bytes@.last() == 0x0a ==> line@ == bytes@,
        bytes@.len() == 0 || bytes@.last() != 0x0a ==> line@ == bytes@ + seq![0x0au8],
{
}

/// A line of text is sent as UTF-8, and is no output of a pane.
pub proof fn a_text_is_no_pane_output(line: Seq<char>)
    ensures
        text_block(line) == (vstd::utf8::encode_utf8(line), false),
{
}

/// The commands of a client that was started without any are numbered from two, all as
/// sent by the client.
pub proof fn commands_after_the_greeting_are_numbered_from_two(n: nat)
    requires
        n + 2 < u64::MAX,
    ensures
        numbering_after(
            ControlCommandNumbering { next_number: 2, initial_left: 0 },
            n,
        ).frame() == (ControlCommandFrame { number: (n + 2) as u64, guard_flag: 1 }),
{
    lemma_numbered_from_two(n);
}

proof fn lemma_numbered_from_two(n: nat)
    requires
        n + 2 < u64::MAX,
    ensures
        numbering_after(ControlCommandNumbering { next_number: 2, initial_left: 0 }, n) == (
        ControlCommandNumbering { next_number: (n + 2) as u64, initial_left: 0 }),
    decreases n,
{
    if n > 0 {
        lemma_numbered_from_two((n - 1) as nat);
    }
}

/// What waits has as many bytes as its pieces have together.
pub proof fn waiting_bytes_are_those_of_the_pieces(blocks: Seq<BlockModel>, block: BlockModel)
    ensures
        block_bytes(blocks.push(block)) == block_bytes(blocks) + block.0.len(),
        block_bytes(seq![]) == 0,
{
    assert(blocks.push(block).drop_last() =~= blocks);
}

} // verus!
