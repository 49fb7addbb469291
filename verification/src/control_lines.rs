//! The command lines that a control-mode client sends.
use crate::bytes;
use crate::text;
use std::collections::VecDeque;
use vstd::prelude::*;

verus! {

/// The longest line, in bytes.
pub const MAX_CONTROL_LINE_BYTES: usize = 1_048_576;

/// How many lines may wait.
pub const MAX_QUEUED_CONTROL_LINES: usize = 1024;

/// How many bytes the waiting lines may have together.
pub const MAX_QUEUED_CONTROL_BYTES: usize = 4_194_304;

/// What kind of failure ended a control-mode stream.
#[derive(Debug, Clone, Copy, PartialEq, Eq, Structural)]
pub enum ControlErrorKind {
    InvalidInput,
    InvalidData,
    UnexpectedEof,
}

/// Why a control-mode stream was ended.
#[derive(Debug, PartialEq, Eq)]
pub struct ControlError {
    pub kind: ControlErrorKind,
    pub message: String,
}

/// A failure as a value.
pub type ControlErrorModel = (ControlErrorKind, Seq<char>);

impl View for ControlError {
    type V = ControlErrorModel;

    open spec fn view(&self) -> ControlErrorModel {
        (self.kind, self.message@)
    }
}

impl ControlError {
    /// What kind of failure it is.
    pub fn kind(&self) -> (kind: ControlErrorKind)
        ensures
            kind == self.kind,
    {
        self.kind
    }
}

/// The offset of the first line feed at or after `from`.
pub open spec fn newline_from(s: Seq<u8>, from: int) -> Option<int>
    decreases s.len() - from,
{
    if from < 0 || from >= s.len() {
        None
    } else if s[from] == 0x0a {
        Some(from)
    } else {
        newline_from(s, from + 1)
    }
}

/// `line` without a carriage return at its end.
pub open spec fn without_carriage_return(line: Seq<u8>) -> Seq<u8> {
    if line.len() > 0 && line.last() == 0x0d {
        line.drop_last()
    } else {
        line
    }
}

/// The complete lines of `s`, without their line ends.
pub open spec fn complete_lines(s: Seq<u8>) -> Seq<Seq<u8>>
    decreases s.len(),
{
    match newline_from(s, 0) {
        Some(at) => if 0 <= at < s.len() {
            seq![without_carriage_return(s.take(at))] + complete_lines(s.skip(at + 1))
        } else {
            Seq::empty()
        },
        None => Seq::empty(),
    }
}

/// What follows the last complete line of `s`.
pub open spec fn unfinished_line(s: Seq<u8>) -> Seq<u8>
    decreases s.len(),
{
    match newline_from(s, 0) {
        Some(at) => if 0 <= at < s.len() {
            unfinished_line(s.skip(at + 1))
        } else {
            s
        },
        None => s,
    }
}

proof fn lemma_newline_from(s: Seq<u8>, from: int)
    requires
        0 <= from,
    ensures
        match newline_from(s, from) {
            Some(at) => from <= at < s.len() && s[at] == 0x0a && forall|j: int|
                from <= j < at ==> #[trigger] s[j] != 0x0a,
            None => forall|j: int| from <= j < s.len() ==> #[trigger] s[j] != 0x0a,
        },
    decreases s.len() - from,
{
    if from < s.len() && s[from] != 0x0a {
        lemma_newline_from(s, from + 1);
    }
}

proof fn lemma_newline_from_is(s: Seq<u8>, from: int, at: int)
    requires
        0 <= from <= at < s.len(),
        s[at] == 0x0a,
        forall|j: int| from <= j < at ==> #[trigger] s[j] != 0x0a,
    ensures
        newline_from(s, from) == Some(at),
{
    lemma_newline_from(s, from);
}

/// What is left after the complete lines were taken holds no line end.
pub proof fn unfinished_line_has_no_line_end(s: Seq<u8>)
    ensures
        !unfinished_line(s).contains(0x0a),
    decreases s.len(),
{
    lemma_newline_from(s, 0);
    match newline_from(s, 0) {
        Some(at) => unfinished_line_has_no_line_end(s.skip(at + 1)),
        None => {},
    }
}

/// Lines come out the same however the input was cut into reads: taking the
/// lines of `first`, and then those of what it left followed by `second`, gives
/// the lines of both together.
pub proof fn lines_do_not_depend_on_reads(first: Seq<u8>, second: Seq<u8>)
    ensures
        complete_lines(first + second) == complete_lines(first) + complete_lines(
            unfinished_line(first) + second,
        ),
        unfinished_line(first + second) == unfinished_line(unfinished_line(first) + second),
    decreases first.len(),
{
    let both = first + second;
    lemma_newline_from(first, 0);
    match newline_from(first, 0) {
        Some(at) => {
            assert forall|j: int| 0 <= j < at implies #[trigger] both[j] != 0x0a by {
                assert(both[j] == first[j]);
            }
            lemma_newline_from_is(both, 0, at);
            assert(both.take(at) =~= first.take(at));
            assert(both.skip(at + 1) =~= first.skip(at + 1) + second);
            lines_do_not_depend_on_reads(first.skip(at + 1), second);
            let head = seq![without_carriage_return(first.take(at))];
            let middle = complete_lines(first.skip(at + 1));
            let last = complete_lines(unfinished_line(first.skip(at + 1)) + second);
            assert(head + (middle + last) =~= (head + middle) + last);
        },
        None => {
            assert(Seq::<Seq<u8>>::empty() + complete_lines(both) =~= complete_lines(both));
        },
    }
}

/// Takes the complete lines out of `buffer`, without their line ends.
pub fn take_complete_lines(buffer: &mut Vec<u8>) -> (lines: Vec<Vec<u8>>)
    ensures
        byte_lines(lines@) == complete_lines(old(buffer)@),
        final(buffer)@ == unfinished_line(old(buffer)@),
{
    let mut lines: Vec<Vec<u8>> = Vec::new();
    let mut start: usize = 0;
    let mut at: usize = 0;
    let len: usize = buffer.len();
    assert(buffer@.skip(0) =~= buffer@);
    assert(byte_lines(lines@) + complete_lines(buffer@) =~= complete_lines(buffer@));
    while at < len
        invariant
            start <= at <= len,
            len == buffer@.len(),
            buffer@ == old(buffer)@,
            forall|j: int| start <= j < at ==> #[trigger] buffer@[j] != 0x0a,
            byte_lines(lines@) + complete_lines(buffer@.skip(start as int)) == complete_lines(
                buffer@,
            ),
            unfinished_line(buffer@.skip(start as int)) == unfinished_line(buffer@),
        decreases len - at,
    {
        if buffer[at] == 0x0a {
            let ghost s = buffer@.skip(start as int);
            let ghost n = at - start;
            proof {
                assert(s[n] == 0x0a);
                assert forall|j: int| 0 <= j < n implies #[trigger] s[j] != 0x0a by {
                    assert(s[j] == buffer@[start + j]);
                }
                lemma_newline_from_is(s, 0, n);
                assert(s.take(n) =~= buffer@.subrange(start as int, at as int));
                assert(s.skip(n + 1) =~= buffer@.skip(at + 1));
            }
            let end: usize = if at > start && buffer[at - 1] == 0x0d {
                at - 1
            } else {
                at
            };
            let line = bytes::copy_range(buffer.as_slice(), start, end);
            assert(line@ =~= without_carriage_return(s.take(n)));
            let ghost before = byte_lines(lines@);
            lines.push(line);
            proof {
                assert(byte_lines(lines@) =~= before + seq![without_carriage_return(s.take(n))]);
                assert(before + (seq![without_carriage_return(s.take(n))] + complete_lines(
                    s.skip(n + 1),
                )) =~= before + seq![without_carriage_return(s.take(n))] + complete_lines(
                    s.skip(n + 1),
                ));
            }
            start = at + 1;
        }
        at = at + 1;
    }
    proof {
        let s = buffer@.skip(start as int);
        assert forall|j: int| 0 <= j < s.len() implies #[trigger] s[j] != 0x0a by {
            assert(s[j] == buffer@[start + j]);
        }
        lemma_newline_from(s, 0);
        assert(byte_lines(lines@) + complete_lines(s) =~= byte_lines(lines@));
    }
    let rest: Vec<u8> = bytes::copy_range(buffer.as_slice(), start, len);
    assert(rest@ =~= buffer@.skip(start as int));
    *buffer = rest;
    lines
}

/// `lines` as values.
pub open spec fn byte_lines(lines: Seq<Vec<u8>>) -> Seq<Seq<u8>> {
    lines.map_values(|line: Vec<u8>| line@)
}

/// Text as `String::from_utf8_lossy` reads it from bytes.
pub uninterp spec fn utf8_lossy(bytes: Seq<u8>) -> Seq<char>;

/// Calls `String::from_utf8_lossy`. The result depends on the bytes alone, and
/// is the text that they encode where they are UTF-8; with which replacement
/// characters other bytes come out is not stated.
#[verifier::external_body]
pub(crate) fn text_from_utf8_lossy(bytes: &[u8]) -> (text: String)
    ensures
        text@ == utf8_lossy(bytes@),
        vstd::utf8::valid_utf8(bytes@) ==> text@ == vstd::utf8::decode_utf8(bytes@),
{
    String::from_utf8_lossy(bytes).into_owned()
}

/// The text of bytes that were read: what they encode where they are UTF-8, and what
/// `String::from_utf8_lossy` makes of them where they are not.
pub open spec fn text_of(bytes: Seq<u8>) -> Seq<char> {
    if vstd::utf8::valid_utf8(bytes) {
        vstd::utf8::decode_utf8(bytes)
    } else {
        utf8_lossy(bytes)
    }
}

/// Text that was sent as UTF-8 is read as it was sent.
pub proof fn text_is_read_as_it_was_sent(text: Seq<char>)
    ensures
        text_of(vstd::utf8::encode_utf8(text)) == text,
{
    vstd::utf8::encode_utf8_valid_utf8(text);
    vstd::utf8::encode_utf8_decode_utf8(text);
}

/// `lines` as texts.
pub open spec fn lines_text(lines: Seq<Seq<u8>>) -> Seq<Seq<char>> {
    lines.map_values(|line: Seq<u8>| text_of(line))
}

/// `lines` as values.
pub open spec fn texts(lines: Seq<String>) -> Seq<Seq<char>> {
    lines.map_values(|line: String| line@)
}

/// Takes the complete lines out of `buffer`, as text, without their line ends.
pub fn extract_complete_control_lines(buffer: &mut Vec<u8>) -> (lines: Vec<String>)
    ensures
        texts(lines@) == lines_text(complete_lines(old(buffer)@)),
        lines@.len() == complete_lines(old(buffer)@).len(),
        forall|i: int|
            0 <= i < lines@.len() && vstd::utf8::valid_utf8(
                #[trigger] complete_lines(old(buffer)@)[i],
            ) ==> lines@[i]@ == vstd::utf8::decode_utf8(complete_lines(old(buffer)@)[i]),
        final(buffer)@ == unfinished_line(old(buffer)@),
{
    let raw = take_complete_lines(buffer);
    let mut lines: Vec<String> = Vec::new();
    let mut i: usize = 0;
    while i < raw.len()
        invariant
            i <= raw@.len(),
            texts(lines@) == lines_text(byte_lines(raw@).take(i as int)),
        decreases raw.len() - i,
    {
        let line = text_from_utf8_lossy(raw[i].as_slice());
        lines.push(line);
        i = i + 1;
        proof {
            let before = byte_lines(raw@).take(i - 1);
            assert(byte_lines(raw@).take(i as int) =~= before.push(raw@[i - 1]@));
            assert(lines_text(before.push(raw@[i - 1]@)) =~= lines_text(before).push(
                text_of(raw@[i - 1]@),
            ));
            assert(texts(lines@) =~= texts(lines@.drop_last()).push(line@));
        }
    }
    assert(byte_lines(raw@).take(i as int) =~= byte_lines(raw@));
    proof {
        lemma_lines_text(lines@, complete_lines(old(buffer)@));
    }
    lines
}

proof fn lemma_lines_text(lines: Seq<String>, raw: Seq<Seq<u8>>)
    requires
        texts(lines) == lines_text(raw),
    ensures
        lines.len() == raw.len(),
        forall|i: int|
            0 <= i < lines.len() && vstd::utf8::valid_utf8(#[trigger] raw[i]) ==> lines[i]@
                == vstd::utf8::decode_utf8(raw[i]),
{
    assert(texts(lines).len() == lines.len());
    assert(lines_text(raw).len() == raw.len());
    assert forall|i: int|
        0 <= i < lines.len() && vstd::utf8::valid_utf8(#[trigger] raw[i]) implies lines[i]@
        == vstd::utf8::decode_utf8(raw[i]) by {
        assert(texts(lines)[i] == lines[i]@);
        assert(lines_text(raw)[i] == text_of(raw[i]));
    }
}

/// How many bytes `line` has as UTF-8.
pub open spec fn byte_len(line: Seq<char>) -> nat {
    vstd::utf8::encode_utf8(line).len()
}

/// How many bytes `line` has.
pub fn line_byte_len(line: &str) -> (len: usize)
    ensures
        len == byte_len(line@),
{
    line.as_bytes().len()
}

/// How many bytes `lines` have together.
pub open spec fn total_bytes(lines: Seq<Seq<char>>) -> nat
    decreases lines.len(),
{
    if lines.len() == 0 {
        0
    } else {
        total_bytes(lines.drop_last()) + byte_len(lines.last())
    }
}

/// How many of `lines` find room after `count` lines of `bytes` bytes.
pub open spec fn lines_accepted(lines: Seq<Seq<char>>, count: int, bytes: int) -> int
    decreases lines.len(),
{
    if lines.len() == 0 || byte_len(lines[0]) > MAX_CONTROL_LINE_BYTES || count + 1
        > MAX_QUEUED_CONTROL_LINES || bytes + byte_len(lines[0]) > MAX_QUEUED_CONTROL_BYTES {
        0
    } else {
        1 + lines_accepted(
            lines.subrange(1, lines.len() as int),
            count + 1,
            bytes + byte_len(lines[0]),
        )
    }
}

/// Why the first line that finds no room is refused.
pub open spec fn line_refusal(line: Seq<char>) -> ControlErrorModel {
    if byte_len(line) > MAX_CONTROL_LINE_BYTES {
        (ControlErrorKind::InvalidData, "control input line exceeds 1048576 bytes"@)
    } else {
        (
            ControlErrorKind::InvalidData,
            "control input queue exceeds 1024 lines or 4194304 bytes"@,
        )
    }
}

/// Why appending `bytes` to `buffer` is refused, with `count` lines of
/// `queued_bytes` bytes waiting: what is left without a line end is too long, or
/// a line finds no room.
pub open spec fn append_refusal(
    buffer: Seq<u8>,
    bytes: Seq<u8>,
    count: int,
    queued_bytes: int,
) -> Option<ControlErrorModel> {
    let lines = lines_text(complete_lines(buffer + bytes));
    let accepted = lines_accepted(lines, count, queued_bytes);
    if unfinished_line(buffer + bytes).len() > MAX_CONTROL_LINE_BYTES {
        Some(
            (
                ControlErrorKind::InvalidData,
                "control input line exceeds 1048576 bytes without a newline"@,
            ),
        )
    } else if accepted < lines.len() {
        Some(line_refusal(lines[accepted]))
    } else {
        None
    }
}

/// How many of the lines that `bytes` completes are queued.
pub open spec fn append_accepted(
    buffer: Seq<u8>,
    bytes: Seq<u8>,
    count: int,
    queued_bytes: int,
) -> int {
    if unfinished_line(buffer + bytes).len() > MAX_CONTROL_LINE_BYTES {
        0
    } else {
        lines_accepted(lines_text(complete_lines(buffer + bytes)), count, queued_bytes)
    }
}

/// The waiting lines and their byte count agree, and keep to the limits.
pub open spec fn queue_is_accounted(queued: Seq<String>, queued_bytes: usize) -> bool {
    &&& queued_bytes == total_bytes(texts(queued))
    &&& queued.len() <= MAX_QUEUED_CONTROL_LINES
    &&& queued_bytes <= MAX_QUEUED_CONTROL_BYTES
}

proof fn lemma_total_bytes_push(lines: Seq<Seq<char>>, line: Seq<char>)
    ensures
        total_bytes(lines.push(line)) == total_bytes(lines) + byte_len(line),
{
    assert(lines.push(line).drop_last() =~= lines);
}

/// Bytes of the first line and of the others add up.
pub proof fn lemma_total_bytes_front(lines: Seq<Seq<char>>)
    requires
        lines.len() > 0,
    ensures
        total_bytes(lines) == byte_len(lines[0]) + total_bytes(
            lines.subrange(1, lines.len() as int),
        ),
    decreases lines.len(),
{
    let tail = lines.subrange(1, lines.len() as int);
    if lines.len() == 1 {
        assert(lines.drop_last() =~= Seq::<Seq<char>>::empty());
        assert(tail =~= Seq::<Seq<char>>::empty());
    } else {
        lemma_total_bytes_front(lines.drop_last());
        assert(lines.drop_last().subrange(1, lines.len() - 1) =~= tail.drop_last());
    }
}

fn refuse(message: &str) -> (error: ControlError)
    ensures
        error@ == (ControlErrorKind::InvalidData, message@),
{
    ControlError { kind: ControlErrorKind::InvalidData, message: message.to_owned() }
}

/// Queues `lines` behind the waiting ones while there is room. The first line
/// that finds none is refused, and those after it are dropped.
pub fn queue_control_lines(
    queued_lines: &mut VecDeque<String>,
    queued_input_bytes: &mut usize,
    lines: Vec<String>,
) -> (result: Result<(), ControlError>)
    requires
        queue_is_accounted(old(queued_lines)@, *old(queued_input_bytes)),
    ensures
        queue_is_accounted(final(queued_lines)@, *final(queued_input_bytes)),
        ({
            let accepted = lines_accepted(
                texts(lines@),
                old(queued_lines)@.len() as int,
                *old(queued_input_bytes) as int,
            );
            &&& 0 <= accepted <= lines@.len()
            &&& texts(final(queued_lines)@) == texts(old(queued_lines)@) + texts(lines@).take(
                accepted,
            )
            &&& match result {
                Ok(()) => accepted == lines@.len(),
                Err(error) => accepted < lines@.len() && error@ == line_refusal(
                    texts(lines@)[accepted],
                ),
            }
        }),
{
    let ghost all = texts(lines@);
    let ghost before = queued_lines@;
    let mut i: usize = 0;
    let ghost accepted = lines_accepted(
        all,
        before.len() as int,
        *queued_input_bytes as int,
    );
    assert(all.subrange(0, all.len() as int) =~= all);
    assert(texts(queued_lines@) =~= texts(before) + all.take(0));
    while i < lines.len()
        invariant
            i <= lines@.len(),
            all == texts(lines@),
            before == old(queued_lines)@,
            queue_is_accounted(queued_lines@, *queued_input_bytes),
            texts(queued_lines@) == texts(before) + all.take(i as int),
            queued_lines@.len() == before.len() + i,
            accepted == lines_accepted(
                all,
                before.len() as int,
                *old(queued_input_bytes) as int,
            ),
            accepted == i + lines_accepted(
                all.subrange(i as int, all.len() as int),
                queued_lines@.len() as int,
                *queued_input_bytes as int,
            ),
        decreases lines.len() - i,
    {
        let ghost rest = all.subrange(i as int, all.len() as int);
        assert(rest[0] == all[i as int]);
        let len: usize = line_byte_len(lines[i].as_str());
        if len > MAX_CONTROL_LINE_BYTES {
            return Err(refuse("control input line exceeds 1048576 bytes"));
        }
        if queued_lines.len() + 1 > MAX_QUEUED_CONTROL_LINES || *queued_input_bytes + len
            > MAX_QUEUED_CONTROL_BYTES {
            return Err(refuse("control input queue exceeds 1024 lines or 4194304 bytes"));
        }
        let ghost waiting = queued_lines@;
        let line = lines[i].clone();
        *queued_input_bytes = *queued_input_bytes + len;
        queued_lines.push_back(line);
        proof {
            assert(texts(queued_lines@) =~= texts(waiting).push(all[i as int]));
            lemma_total_bytes_push(texts(waiting), all[i as int]);
            assert(rest.subrange(1, rest.len() as int) =~= all.subrange(
                i + 1,
                all.len() as int,
            ));
            assert(all.take(i + 1) =~= all.take(i as int).push(all[i as int]));
            assert(texts(before) + all.take(i + 1) =~= (texts(before) + all.take(i as int)).push(
                all[i as int],
            ));
        }
        i = i + 1;
    }
    assert(all.take(i as int) =~= all);
    Ok(())
}

/// Takes in `bytes` of the stream: complete lines are queued, the rest waits in
/// `input_buffer`. An overlong rest, or a line that finds no room, is refused.
pub fn append_control_input(
    input_buffer: &mut Vec<u8>,
    queued_lines: &mut VecDeque<String>,
    queued_input_bytes: &mut usize,
    bytes: &[u8],
) -> (result: Result<(), ControlError>)
    requires
        queue_is_accounted(old(queued_lines)@, *old(queued_input_bytes)),
    ensures
        queue_is_accounted(final(queued_lines)@, *final(queued_input_bytes)),
        final(input_buffer)@ == unfinished_line(old(input_buffer)@ + bytes@),
        ({
            let count = old(queued_lines)@.len() as int;
            let queued = *old(queued_input_bytes) as int;
            let lines = lines_text(complete_lines(old(input_buffer)@ + bytes@));
            let accepted = append_accepted(old(input_buffer)@, bytes@, count, queued);
            &&& 0 <= accepted <= lines.len()
            &&& texts(final(queued_lines)@) == texts(old(queued_lines)@) + lines.take(accepted)
            &&& forall|i: int|
                0 <= i < accepted && vstd::utf8::valid_utf8(
                    #[trigger] complete_lines(old(input_buffer)@ + bytes@)[i],
                ) ==> final(queued_lines)@[count + i]@ == vstd::utf8::decode_utf8(
                    complete_lines(old(input_buffer)@ + bytes@)[i],
                )
            &&& append_refusal(old(input_buffer)@, bytes@, count, queued) == match result {
                Ok(()) => None,
                Err(error) => Some(error@),
            }
        }),
{
    bytes::push_all(input_buffer, bytes);
    let lines = extract_complete_control_lines(input_buffer);
    if input_buffer.len() > MAX_CONTROL_LINE_BYTES {
        assert(texts(queued_lines@) + lines_text(
            complete_lines(old(input_buffer)@ + bytes@),
        ).take(0) =~= texts(queued_lines@));
        return Err(refuse("control input line exceeds 1048576 bytes without a newline"));
    }
    let result = queue_control_lines(queued_lines, queued_input_bytes, lines);
    proof {
        let raw = complete_lines(old(input_buffer)@ + bytes@);
        let count = old(queued_lines)@.len() as int;
        let accepted = append_accepted(
            old(input_buffer)@,
            bytes@,
            count,
            *old(queued_input_bytes) as int,
        );
        assert forall|i: int|
            0 <= i < accepted && vstd::utf8::valid_utf8(#[trigger] raw[i]) implies queued_lines@[
        count + i]@ == vstd::utf8::decode_utf8(raw[i]) by {
            let queued = texts(old(queued_lines)@) + lines_text(raw).take(accepted);
            assert(texts(queued_lines@)[count + i] == queued[count + i]);
            assert(queued[count + i] == lines_text(raw)[i]);
            assert(lines_text(raw)[i] == text_of(raw[i]));
        }
    }
    result
}

/// `line` ends with `marker`.
pub open spec fn ends_with(line: Seq<char>, marker: Seq<char>) -> bool {
    marker.len() <= line.len() && line.skip(line.len() - marker.len()) == marker
}

fn text_ends_with(line: &str, marker: &str) -> (ends: bool)
    ensures
        ends == ends_with(line@, marker@),
{
    let line_len: usize = line.unicode_len();
    let marker_len: usize = marker.unicode_len();
    if marker_len > line_len {
        return false;
    }
    let tail = line.substring_char(line_len - marker_len, line_len);
    assert(tail@ =~= line@.skip(line@.len() - marker@.len()));
    text::same_text(tail, marker)
}

/// The first waiting line that ends with `marker`.
pub open spec fn marker_line(lines: Seq<Seq<char>>, marker: Seq<char>) -> Option<int>
    decreases lines.len(),
{
    if lines.len() == 0 {
        None
    } else if ends_with(lines[0], marker) {
        Some(0)
    } else {
        match marker_line(lines.subrange(1, lines.len() as int), marker) {
            Some(at) => Some(at + 1),
            None => None,
        }
    }
}

fn queue_byte_count(queued_lines: &VecDeque<String>) -> (bytes: usize)
    requires
        total_bytes(texts(queued_lines@)) <= usize::MAX,
    ensures
        bytes == total_bytes(texts(queued_lines@)),
{
    let ghost all = texts(queued_lines@);
    let mut sum: usize = 0;
    let mut i: usize = 0;
    assert(all.take(0) =~= Seq::<Seq<char>>::empty());
    while i < queued_lines.len()
        invariant
            i <= queued_lines@.len(),
            all == texts(queued_lines@),
            sum == total_bytes(all.take(i as int)),
            total_bytes(all) <= usize::MAX,
        decreases queued_lines.len() - i,
    {
        proof {
            assert(all.take(i + 1) =~= all.take(i as int).push(all[i as int]));
            lemma_total_bytes_push(all.take(i as int), all[i as int]);
            lemma_total_bytes_monotonic(all, i + 1);
        }
        sum = sum + line_byte_len(queued_lines[i].as_str());
        i = i + 1;
    }
    assert(all.take(i as int) =~= all);
    sum
}

/// A part of the lines has no more bytes than all.
pub proof fn lemma_total_bytes_monotonic(lines: Seq<Seq<char>>, n: int)
    requires
        0 <= n <= lines.len(),
    ensures
        total_bytes(lines.take(n)) <= total_bytes(lines),
    decreases lines.len() - n,
{
    if n < lines.len() {
        lemma_total_bytes_monotonic(lines, n + 1);
        assert(lines.take(n + 1).drop_last() =~= lines.take(n));
    } else {
        assert(lines.take(n) =~= lines);
    }
}

/// Looks for the marker with which a client announces that its input ends. From
/// the line that ends with it on, all input is dropped, a command cut off by it
/// included.
pub fn consume_control_eof_marker(
    input_buffer: &mut Vec<u8>,
    queued_lines: &mut VecDeque<String>,
    queued_input_bytes: &mut usize,
    marker: &str,
) -> (found: bool)
    requires
        queue_is_accounted(old(queued_lines)@, *old(queued_input_bytes)),
    ensures
        queue_is_accounted(final(queued_lines)@, *final(queued_input_bytes)),
        match marker_line(texts(old(queued_lines)@), marker@) {
            Some(at) => {
                &&& found
                &&& 0 <= at < old(queued_lines)@.len()
                &&& final(queued_lines)@ == old(queued_lines)@.take(at)
                &&& final(input_buffer)@ == Seq::<u8>::empty()
            },
            None => {
                &&& !found
                &&& final(queued_lines)@ == old(queued_lines)@
                &&& *final(queued_input_bytes) == *old(queued_input_bytes)
                &&& final(input_buffer)@ == old(input_buffer)@
            },
        },
{
    let ghost all = texts(queued_lines@);
    let mut i: usize = 0;
    assert(all.subrange(0, all.len() as int) =~= all);
    while i < queued_lines.len()
        invariant
            i <= queued_lines@.len(),
            queued_lines@ == old(queued_lines)@,
            *queued_input_bytes == *old(queued_input_bytes),
            input_buffer@ == old(input_buffer)@,
            queue_is_accounted(queued_lines@, *queued_input_bytes),
            all == texts(queued_lines@),
            ({
                let rest = marker_line(all.subrange(i as int, all.len() as int), marker@);
                marker_line(all, marker@) == match rest {
                    Some(at) => Some(at + i),
                    None => None,
                }
            }),
        decreases queued_lines.len() - i,
    {
        let ghost rest = all.subrange(i as int, all.len() as int);
        assert(rest[0] == all[i as int]);
        if text_ends_with(queued_lines[i].as_str(), marker) {
            queued_lines.truncate(i);
            assert(queued_lines@ =~= old(queued_lines)@.take(i as int));
            proof {
                assert(texts(queued_lines@) =~= all.take(i as int));
                lemma_total_bytes_monotonic(all, i as int);
            }
            *queued_input_bytes = queue_byte_count(queued_lines);
            input_buffer.clear();
            return true;
        }
        assert(rest.subrange(1, rest.len() as int) =~= all.subrange(i + 1, all.len() as int));
        i = i + 1;
    }
    false
}

/// Bytes come apart into lines at their line feeds, with a carriage return before one
/// taken off; what stands behind the last waits.
pub proof fn lines_come_apart_at_line_feeds(line: Seq<u8>, rest: Seq<u8>)
    requires
        forall|i: int| 0 <= i < line.len() ==> #[trigger] line[i] != 0x0a,
        line.len() == 0 || line.last() != 0x0d,
    ensures
        complete_lines(line + seq![0x0au8] + rest) == seq![line] + complete_lines(rest),
        complete_lines(line + seq![0x0du8, 0x0au8] + rest) == seq![line] + complete_lines(rest),
        unfinished_line(line + seq![0x0au8] + rest) == unfinished_line(rest),
        complete_lines(line) == Seq::<Seq<u8>>::empty(),
        unfinished_line(line) == line,
{
    assert((line + seq![0x0au8]).drop_last() =~= line);
    lemma_first_line(line, line + seq![0x0au8], rest);
    assert((line + seq![0x0du8, 0x0au8]).drop_last() =~= line.push(0x0d));
    assert(line.push(0x0d).drop_last() =~= line);
    lemma_first_line(line, line + seq![0x0du8, 0x0au8], rest);
    lemma_newline_from(line, 0);
}

proof fn lemma_first_line(line: Seq<u8>, ended: Seq<u8>, rest: Seq<u8>)
    requires
        ended.len() > 0,
        ended.last() == 0x0a,
        forall|i: int| 0 <= i < ended.len() - 1 ==> #[trigger] ended[i] != 0x0a,
        ended.drop_last() == line && (line.len() == 0 || line.last() != 0x0d) || (ended.drop_last()
            == line.push(0x0d) && ended.drop_last().drop_last() == line),
    ensures
        complete_lines(ended + rest) == seq![line] + complete_lines(rest),
        unfinished_line(ended + rest) == unfinished_line(rest),
{
    let all = ended + rest;
    let at = ended.len() - 1;
    lemma_newline_from(all, 0);
    assert(all[at] == 0x0a);
    let found = newline_from(all, 0)->0;
    if found < at {
        assert(all[found] == ended[found]);
    }
    assert(found == at);
    assert(all.take(at) =~= ended.drop_last());
    assert(all.skip(at + 1) =~= rest);
}

/// A line is queued while it has no more than 1048576 bytes, fewer than 1024 lines wait,
/// and it makes no more than 4194304 bytes of them; otherwise it is refused, and says
/// which it was.
pub proof fn a_line_is_queued_within_the_limits(line: Seq<char>, count: int, bytes: int)
    ensures
        ({
            let len = vstd::utf8::encode_utf8(line).len();
            let fits = len <= 1048576 && count + 1 <= 1024 && bytes + len <= 4194304;
            &&& lines_accepted(seq![line], count, bytes) == if fits {
                1int
            } else {
                0
            }
            &&& line_refusal(line) == if len > 1048576 {
                (ControlErrorKind::InvalidData, "control input line exceeds 1048576 bytes"@)
            } else {
                (
                    ControlErrorKind::InvalidData,
                    "control input queue exceeds 1024 lines or 4194304 bytes"@,
                )
            }
        }),
{
    assert(seq![line][0] == line);
    let none = seq![line].subrange(1, 1);
    assert(none.len() == 0);
    assert(lines_accepted(none, count + 1, bytes + byte_len(line)) == 0);
    assert(seq![line].subrange(1, seq![line].len() as int) =~= none);
}

/// Lines are queued one after another while each finds room, and from the first that
/// does not on none is: room is counted with those that were queued before.
pub proof fn lines_are_queued_until_one_finds_no_room(
    line: Seq<char>,
    rest: Seq<Seq<char>>,
    count: int,
    bytes: int,
)
    ensures
        lines_accepted(seq![line] + rest, count, bytes) == if lines_accepted(
            seq![line],
            count,
            bytes,
        ) == 1 {
            1 + lines_accepted(rest, count + 1, bytes + vstd::utf8::encode_utf8(line).len())
        } else {
            0
        },
        lines_accepted(seq![], count, bytes) == 0,
{
    let all = seq![line] + rest;
    assert(all[0] == line);
    assert(all.subrange(1, all.len() as int) =~= rest);
    assert(seq![line][0] == line);
    let none = seq![line].subrange(1, 1);
    assert(none.len() == 0);
    assert(lines_accepted(none, count + 1, bytes + byte_len(line)) == 0);
    assert(seq![line].subrange(1, seq![line].len() as int) =~= none);
}

/// Input that goes on for more than 1048576 bytes without a line feed is refused, and
/// none of its lines is queued; shorter input without one is not.
pub proof fn an_endless_line_is_refused(
    buffer: Seq<u8>,
    bytes: Seq<u8>,
    count: int,
    queued_bytes: int,
)
    requires
        forall|i: int| 0 <= i < buffer.len() ==> #[trigger] buffer[i] != 0x0a,
        forall|i: int| 0 <= i < bytes.len() ==> #[trigger] bytes[i] != 0x0a,
    ensures
        append_refusal(buffer, bytes, count, queued_bytes) == if buffer.len() + bytes.len()
            > 1048576 {
            Some(
                (
                    ControlErrorKind::InvalidData,
                    "control input line exceeds 1048576 bytes without a newline"@,
                ),
            )
        } else {
            None::<ControlErrorModel>
        },
        append_accepted(buffer, bytes, count, queued_bytes) == 0,
{
    let all = buffer + bytes;
    lemma_newline_from(all, 0);
    match newline_from(all, 0) {
        Some(at) => {
            if at < buffer.len() {
                assert(all[at] == buffer[at]);
            } else {
                assert(all[at] == bytes[at - buffer.len()]);
            }
        },
        None => {},
    }
    assert(complete_lines(all) =~= Seq::<Seq<u8>>::empty());
    assert(lines_text(complete_lines(all)).len() == 0);
}

/// Input is dropped from the first line on that ends with the marker, whatever stands
/// before the marker on that line; without such a line none is.
pub proof fn the_first_line_with_the_marker_ends_the_input(
    lines: Seq<Seq<char>>,
    marker: Seq<char>,
)
    ensures
        match marker_line(lines, marker) {
            Some(at) => 0 <= at < lines.len() && ends_with(lines[at], marker) && forall|j: int|
                0 <= j < at ==> !ends_with(#[trigger] lines[j], marker),
            None => forall|j: int| 0 <= j < lines.len() ==> !ends_with(#[trigger] lines[j], marker),
        },
    decreases lines.len(),
{
    if lines.len() > 0 && !ends_with(lines[0], marker) {
        let rest = lines.subrange(1, lines.len() as int);
        the_first_line_with_the_marker_ends_the_input(rest, marker);
        match marker_line(rest, marker) {
            Some(at) => {
                assert(rest[at] == lines[at + 1]);
                assert forall|j: int| 0 <= j < at + 1 implies !ends_with(
                    #[trigger] lines[j],
                    marker,
                ) by {
                    if j > 0 {
                        assert(rest[j - 1] == lines[j]);
                    }
                }
            },
            None => {
                assert forall|j: int| 0 <= j < lines.len() implies !ends_with(
                    #[trigger] lines[j],
                    marker,
                ) by {
                    if j > 0 {
                        assert(rest[j - 1] == lines[j]);
                    }
                }
            },
        }
    }
}

/// A line ends with a marker exactly where the marker is its last part.
pub proof fn a_line_ends_with_its_last_part(before: Seq<char>, marker: Seq<char>, line: Seq<char>)
    ensures
        ends_with(before + marker, marker),
        ends_with(line, marker) ==> line == line.take(line.len() - marker.len()) + marker,
{
    let all = before + marker;
    assert(all.skip(all.len() - marker.len()) =~= marker);
    if ends_with(line, marker) {
        let at = line.len() - marker.len();
        assert(line =~= line.take(at) + line.skip(at));
    }
}

/// Where nothing is refused, every line that was completed is queued; where what is left
/// without a line feed is too long, none is; else those before the line that is refused.
pub proof fn accepted_input_is_queued_whole(
    buffer: Seq<u8>,
    bytes: Seq<u8>,
    count: int,
    queued_bytes: int,
)
    ensures
        append_refusal(buffer, bytes, count, queued_bytes) is None ==> append_accepted(
            buffer,
            bytes,
            count,
            queued_bytes,
        ) == complete_lines(buffer + bytes).len(),
        unfinished_line(buffer + bytes).len() > 1048576 ==> append_accepted(
            buffer,
            bytes,
            count,
            queued_bytes,
        ) == 0 && append_refusal(buffer, bytes, count, queued_bytes) is Some,
        unfinished_line(buffer + bytes).len() <= 1048576 ==> append_accepted(
            buffer,
            bytes,
            count,
            queued_bytes,
        ) == lines_accepted(lines_text(complete_lines(buffer + bytes)), count, queued_bytes),
{
    let lines = lines_text(complete_lines(buffer + bytes));
    assert(lines.len() == complete_lines(buffer + bytes).len());
    lemma_accepted_are_among_the_lines(lines, count, queued_bytes);
}

proof fn lemma_accepted_are_among_the_lines(lines: Seq<Seq<char>>, count: int, bytes: int)
    ensures
        0 <= lines_accepted(lines, count, bytes) <= lines.len(),
    decreases lines.len(),
{
    if lines.len() > 0 {
        lemma_accepted_are_among_the_lines(
            lines.subrange(1, lines.len() as int),
            count + 1,
            bytes + byte_len(lines[0]),
        );
    }
}

} // verus!
