//! Palette replies among the input of a modal surface.
//!
//! A client's terminal answers a pane's palette query with an operating system
//! command 4. While a menu, popup or prompt is open the answer must not reach
//! the modal key decoder, so the input is split into segments first.
use crate::bracketed_paste;
use crate::bytes;
use crate::terminal_response;
use crate::terminal_response::TerminalResponseDecode;
use vstd::prelude::*;

verus! {

/// The palette entry that a reply is about.
#[derive(Debug, Clone, Copy, PartialEq, Eq, Structural)]
pub struct TerminalPaletteIndex(pub u8);

/// How far a frame whose inside must not be searched reaches.
#[derive(Debug, Clone, Copy, PartialEq, Eq, Structural)]
pub enum OpaqueInputSpan {
    /// The frame is whole and has this many bytes.
    Complete(usize),
    /// The frame is not closed yet.
    Partial,
}

/// One piece of modal input, in wire order.
#[derive(Debug, PartialEq, Eq)]
pub enum ModalPaletteInputSegment {
    Input(Vec<u8>),
    Response { index: TerminalPaletteIndex, bytes: Vec<u8> },
}

/// Modal input with the palette replies set apart.
#[derive(Debug, PartialEq, Eq)]
pub struct ModalPaletteInput {
    pub segments: Vec<ModalPaletteInputSegment>,
    /// An unfinished reply, to be looked at again with the next bytes.
    pub retained: Vec<u8>,
}

/// A segment as a value: the palette entry, where it is a reply, and its bytes.
pub type SegmentModel = (Option<TerminalPaletteIndex>, Seq<u8>);

impl View for ModalPaletteInputSegment {
    type V = SegmentModel;

    open spec fn view(&self) -> SegmentModel {
        match self {
            ModalPaletteInputSegment::Input(bytes) => (None, bytes@),
            ModalPaletteInputSegment::Response { index, bytes } => (Some(*index), bytes@),
        }
    }
}

impl ModalPaletteInputSegment {
    /// The bytes of the segment, whatever its kind.
    pub fn into_bytes(self) -> (bytes: Vec<u8>)
        ensures
            bytes@ == self@.1,
    {
        match self {
            ModalPaletteInputSegment::Input(bytes) => bytes,
            ModalPaletteInputSegment::Response { index: _, bytes } => bytes,
        }
    }
}

/// `segments` as values.
pub open spec fn segment_models(segments: Seq<ModalPaletteInputSegment>) -> Seq<SegmentModel> {
    segments.map_values(|segment: ModalPaletteInputSegment| segment@)
}

/// `ESC ] 4 ;`.
pub open spec fn palette_prefix() -> Seq<u8> {
    seq![0x1bu8, 0x5du8, 0x34u8, 0x3bu8]
}

/// The end of a terminator of an opaque frame that stands at `at`: BEL where
/// the frame allows it, the C1 string terminator, or `ESC \`.
pub open spec fn opaque_end_at(s: Seq<u8>, at: int, bell_terminated: bool) -> Option<int> {
    if !(0 <= at < s.len()) {
        None
    } else if s[at] == 0x07 && bell_terminated {
        Some(at + 1)
    } else if s[at] == 0x9c {
        Some(at + 1)
    } else if s[at] == 0x1b && at + 1 < s.len() && s[at + 1] == 0x5c {
        Some(at + 2)
    } else {
        None
    }
}

/// The end of the first terminator at or after `from`.
pub open spec fn opaque_end_from(s: Seq<u8>, from: int, bell_terminated: bool) -> Option<int>
    decreases s.len() - from,
{
    if from < 0 || from >= s.len() {
        None
    } else if opaque_end_at(s, from, bell_terminated) is Some {
        opaque_end_at(s, from, bell_terminated)
    } else {
        opaque_end_from(s, from + 1, bell_terminated)
    }
}

/// What introduces a string control at the front of `s`: the length of the
/// introducer, and whether BEL closes the control.
pub open spec fn string_control_introducer(s: Seq<u8>) -> Option<(int, bool)> {
    if s.len() >= 2 && s[0] == 0x1b && s[1] == 0x5d {
        Some((2, true))
    } else if s.len() >= 2 && s[0] == 0x1b && (s[1] == 0x50 || s[1] == 0x5f || s[1] == 0x5e || s[1]
        == 0x58) {
        Some((2, false))
    } else if s.len() >= 1 && s[0] == 0x9d {
        Some((1, true))
    } else if s.len() >= 1 && (s[0] == 0x90 || s[0] == 0x98 || s[0] == 0x9e || s[0] == 0x9f) {
        Some((1, false))
    } else {
        None
    }
}

/// What `opaque_input_span` answers: the bracketed paste or string control at
/// the front of `s`.
pub open spec fn opaque_span(s: Seq<u8>) -> Option<OpaqueInputSpan> {
    if bytes::has_prefix(s, bracketed_paste::paste_start()) {
        match bytes::find_from(s, bracketed_paste::paste_end(), 6) {
            Some(at) => Some(OpaqueInputSpan::Complete((at + 6) as usize)),
            None => Some(OpaqueInputSpan::Partial),
        }
    } else if 3 <= s.len() < 6 && bytes::has_prefix(bracketed_paste::paste_start(), s) {
        Some(OpaqueInputSpan::Partial)
    } else {
        match string_control_introducer(s) {
            Some((body_start, bell_terminated)) => match opaque_end_from(
                s,
                body_start,
                bell_terminated,
            ) {
                Some(end) => Some(OpaqueInputSpan::Complete(end as usize)),
                None => Some(OpaqueInputSpan::Partial),
            },
            None => None,
        }
    }
}

/// What stands at the front of modal input that is not empty.
pub enum InputFrame {
    /// An unfinished palette reply: wait for more bytes.
    Unfinished,
    /// A closed palette reply of this many bytes.
    Reply(int),
    /// Ordinary input of this many bytes.
    Plain(int),
    /// An opaque frame that is not closed: all the rest is ordinary input.
    PlainRest,
}

/// The frame at the front of `s`.
pub open spec fn frame_of(s: Seq<u8>) -> InputFrame {
    if s.len() < 4 && bytes::has_prefix(palette_prefix(), s) {
        InputFrame::Unfinished
    } else if bytes::has_prefix(s, palette_prefix()) {
        match terminal_response::osc_end_from(s, 2) {
            Some(end) => InputFrame::Reply(end),
            None => InputFrame::Unfinished,
        }
    } else {
        match opaque_span(s) {
            Some(OpaqueInputSpan::Complete(size)) => InputFrame::Plain(size as int),
            Some(OpaqueInputSpan::Partial) => InputFrame::PlainRest,
            None => InputFrame::Plain(1),
        }
    }
}

/// `held` as a segment of its own, where it is not empty.
pub open spec fn flush_held(held: Seq<u8>) -> Seq<SegmentModel> {
    if held.len() == 0 {
        Seq::empty()
    } else {
        seq![(None::<TerminalPaletteIndex>, held)]
    }
}

/// The entry that the first of the remaining replies names. A reply that names
/// none is malformed.
pub open spec fn head_index(indices: Seq<Option<TerminalPaletteIndex>>) -> Option<
    TerminalPaletteIndex,
> {
    if indices.len() > 0 {
        indices[0]
    } else {
        None
    }
}

/// The remaining entries without the first.
pub open spec fn tail_indices(indices: Seq<Option<TerminalPaletteIndex>>) -> Seq<
    Option<TerminalPaletteIndex>,
> {
    if indices.len() > 0 {
        indices.subrange(1, indices.len() as int)
    } else {
        indices
    }
}

/// The segments of `held + s` and what is retained of it, where `held` is
/// ordinary input not yet handed out and `indices` has, for each palette reply
/// in `s`, the entry it names. A malformed reply is ordinary input.
pub open spec fn split_input(
    s: Seq<u8>,
    held: Seq<u8>,
    indices: Seq<Option<TerminalPaletteIndex>>,
) -> (Seq<SegmentModel>, Seq<u8>)
    decreases s.len(),
{
    if s.len() == 0 {
        (flush_held(held), Seq::empty())
    } else {
        match frame_of(s) {
            InputFrame::Unfinished => (flush_held(held), s),
            InputFrame::PlainRest => (flush_held(held + s), Seq::empty()),
            InputFrame::Plain(n) => if 0 < n <= s.len() {
                split_input(s.skip(n), held + s.take(n), indices)
            } else {
                (flush_held(held + s), Seq::empty())
            },
            InputFrame::Reply(n) => if 0 < n <= s.len() {
                match head_index(indices) {
                    Some(index) => {
                        let rest = split_input(s.skip(n), Seq::empty(), tail_indices(indices));
                        (flush_held(held) + seq![(Some(index), s.take(n))] + rest.0, rest.1)
                    },
                    None => split_input(s.skip(n), held + s.take(n), tail_indices(indices)),
                }
            } else {
                (flush_held(held + s), Seq::empty())
            },
        }
    }
}

/// The closed palette replies of `s`, in wire order.
pub open spec fn replies_of(s: Seq<u8>) -> Seq<Seq<u8>>
    decreases s.len(),
{
    if s.len() == 0 {
        Seq::empty()
    } else {
        match frame_of(s) {
            InputFrame::Unfinished => Seq::empty(),
            InputFrame::PlainRest => Seq::empty(),
            InputFrame::Plain(n) => if 0 < n <= s.len() {
                replies_of(s.skip(n))
            } else {
                Seq::empty()
            },
            InputFrame::Reply(n) => if 0 < n <= s.len() {
                seq![s.take(n)] + replies_of(s.skip(n))
            } else {
                Seq::empty()
            },
        }
    }
}

/// A split that sets nothing apart: one ordinary segment at most.
pub open spec fn sets_something_apart(split: (Seq<SegmentModel>, Seq<u8>)) -> bool {
    split.1.len() > 0 || exists|i: int|
        0 <= i < split.0.len() && (#[trigger] split.0[i]).0 is Some
}

proof fn lemma_opaque_end_fits(s: Seq<u8>, from: int, bell_terminated: bool)
    requires
        0 <= from,
    ensures
        opaque_end_from(s, from, bell_terminated) matches Some(end) ==> from < end <= s.len(),
    decreases s.len() - from,
{
    if from < s.len() && opaque_end_at(s, from, bell_terminated) is None {
        lemma_opaque_end_fits(s, from + 1, bell_terminated);
    }
}

proof fn lemma_osc_end_fits(s: Seq<u8>, from: int)
    requires
        0 <= from,
    ensures
        terminal_response::osc_end_from(s, from) matches Some(end) ==> from < end <= s.len(),
    decreases s.len() - from,
{
    if from < s.len() && terminal_response::osc_end_at(s, from) is None {
        lemma_osc_end_fits(s, from + 1);
    }
}

/// A frame is not empty and lies within the input.
pub proof fn lemma_frame_fits(s: Seq<u8>)
    requires
        0 < s.len() <= usize::MAX,
    ensures
        match frame_of(s) {
            InputFrame::Reply(n) => 4 <= n <= s.len(),
            InputFrame::Plain(n) => 0 < n <= s.len(),
            _ => true,
        },
{
    lemma_osc_end_fits(s, 2);
    bytes::lemma_find_from(s, bracketed_paste::paste_end(), 6);
    match string_control_introducer(s) {
        Some((body_start, bell_terminated)) => {
            lemma_opaque_end_fits(s, body_start, bell_terminated);
        },
        None => {},
    }
    if bytes::has_prefix(s, palette_prefix()) {
        assert(s.subrange(0, 4)[2] == s[2] && s.subrange(0, 4)[3] == s[3]);
        lemma_osc_end_fits(s, 4);
        assert(terminal_response::osc_end_from(s, 3) == terminal_response::osc_end_from(s, 4));
        assert(terminal_response::osc_end_from(s, 2) == terminal_response::osc_end_from(s, 3));
    }
}

/// The bracketed paste or string control at the front of `input`.
pub fn opaque_input_span(input: &[u8]) -> (span: Option<OpaqueInputSpan>)
    ensures
        span == opaque_span(input@),
{
    match bracketed_paste::decode_bracketed_paste(input) {
        bracketed_paste::BracketedPasteDecode::Matched { size, .. } => {
            return Some(OpaqueInputSpan::Complete(size));
        },
        bracketed_paste::BracketedPasteDecode::Partial => {
            proof {
                if input@.len() == 6 {
                    assert(bracketed_paste::paste_start().subrange(0, 6)
                        =~= bracketed_paste::paste_start());
                    assert(input@.subrange(0, 6) =~= input@);
                }
            }
            return Some(OpaqueInputSpan::Partial);
        },
        bracketed_paste::BracketedPasteDecode::NotPaste => {},
    }
    let (body_start, bell_terminated): (usize, bool) = if input.len() >= 2 && input[0] == 0x1b
        && input[1] == 0x5d {
        (2, true)
    } else if input.len() >= 2 && input[0] == 0x1b && (input[1] == 0x50 || input[1] == 0x5f
        || input[1] == 0x5e || input[1] == 0x58) {
        (2, false)
    } else if input.len() >= 1 && input[0] == 0x9d {
        (1, true)
    } else if input.len() >= 1 && (input[0] == 0x90 || input[0] == 0x98 || input[0] == 0x9e
        || input[0] == 0x9f) {
        (1, false)
    } else {
        return None;
    };
    match find_opaque_terminator(input, body_start, bell_terminated) {
        Some(end) => Some(OpaqueInputSpan::Complete(end)),
        None => Some(OpaqueInputSpan::Partial),
    }
}

/// The end of the first terminator of an opaque frame at or after `offset`.
pub fn find_opaque_terminator(input: &[u8], offset: usize, bell_terminated: bool) -> (end: Option<
    usize,
>)
    ensures
        match end {
            Some(end) => opaque_end_from(input@, offset as int, bell_terminated) == Some(
                end as int,
            ),
            None => opaque_end_from(input@, offset as int, bell_terminated) is None,
        },
{
    let mut at: usize = offset;
    while at < input.len()
        invariant
            offset <= at,
            opaque_end_from(input@, offset as int, bell_terminated) == opaque_end_from(
                input@,
                at as int,
                bell_terminated,
            ),
        decreases input.len() - at,
    {
        let byte: u8 = input[at];
        if byte == 0x07 && bell_terminated {
            return Some(at + 1);
        }
        if byte == 0x9c {
            return Some(at + 1);
        }
        if byte == 0x1b && input.len() - at > 1 && input[at + 1] == 0x5c {
            return Some(at + 2);
        }
        at = at + 1;
    }
    None
}

/// How many bytes the frame at the front of `candidate` takes, by kind.
enum FrameSize {
    Unfinished,
    Reply(usize),
    Plain(usize),
    PlainRest,
}

proof fn lemma_palette_reply_decode(s: Seq<u8>)
    requires
        bytes::has_prefix(s, palette_prefix()),
        s.len() <= usize::MAX,
    ensures
        terminal_response::attached_control_decode(s, false, 0) == match
            terminal_response::osc_end_from(s, 2) {
            Some(end) => TerminalResponseDecode::Matched { size: end as usize, event: None },
            None => TerminalResponseDecode::Partial,
        },
{
    assert(s.subrange(0, 4)[2] == s[2]);
    assert(s.subrange(0, 2) =~= s.subrange(0, 4).subrange(0, 2));
    assert(s.subrange(0, 4).subrange(0, 2) =~= terminal_response::osc_introducer());
    assert(terminal_response::is_consumed_osc_prefix(palette_prefix()));
    assert(!terminal_response::begins_consumed_osc(s)) by {
        if terminal_response::begins_consumed_osc(s) {
            let p = choose|p: Seq<u8>| #[trigger]
                terminal_response::is_consumed_osc_prefix(p) && s.len() < p.len()
                    && bytes::has_prefix(p, s);
            assert(p.subrange(0, s.len() as int)[2] == s[2]);
            assert(p[2] == 0x34);
            assert(p.len() == 5);
        }
    }
}

fn frame_size(candidate: &[u8]) -> (frame: FrameSize)
    requires
        candidate@.len() > 0,
    ensures
        match frame {
            FrameSize::Unfinished => frame_of(candidate@) == InputFrame::Unfinished,
            FrameSize::Reply(n) => frame_of(candidate@) == InputFrame::Reply(n as int) && 4 <= n
                <= candidate@.len(),
            FrameSize::Plain(n) => frame_of(candidate@) == InputFrame::Plain(n as int) && 0 < n
                <= candidate@.len(),
            FrameSize::PlainRest => frame_of(candidate@) == InputFrame::PlainRest,
        },
{
    let prefix: [u8; 4] = [0x1b, 0x5d, 0x34, 0x3b];
    assert(prefix@ =~= palette_prefix());
    let len: usize = candidate.len();
    proof {
        lemma_frame_fits(candidate@);
    }
    if len < 4 && bytes::starts_with(prefix.as_slice(), candidate) {
        return FrameSize::Unfinished;
    }
    if bytes::starts_with(candidate, prefix.as_slice()) {
        proof {
            lemma_palette_reply_decode(candidate@);
        }
        return match terminal_response::decode_attached_terminal_control_after_append(
            candidate,
            false,
            0,
        ) {
            TerminalResponseDecode::Matched { size, .. } => FrameSize::Reply(size),
            TerminalResponseDecode::PaneBound { size } => FrameSize::Plain(size),
            TerminalResponseDecode::Partial => FrameSize::Unfinished,
            TerminalResponseDecode::NotResponse => FrameSize::Plain(1),
        };
    }
    match opaque_input_span(candidate) {
        Some(OpaqueInputSpan::Complete(size)) => FrameSize::Plain(size),
        Some(OpaqueInputSpan::Partial) => FrameSize::PlainRest,
        None => FrameSize::Plain(1),
    }
}

/// `strings` as values.
pub open spec fn byte_strings(strings: Seq<Vec<u8>>) -> Seq<Seq<u8>> {
    strings.map_values(|string: Vec<u8>| string@)
}

fn joined(pending_input: &[u8], bytes: &[u8]) -> (input: Vec<u8>)
    ensures
        input@ == pending_input@ + bytes@,
{
    let mut input: Vec<u8> = Vec::new();
    bytes::push_all(&mut input, pending_input);
    bytes::push_all(&mut input, bytes);
    assert(input@ =~= pending_input@ + bytes@);
    input
}

/// The closed palette replies in `pending_input` followed by `bytes`, in wire
/// order: what a palette decoder is asked about.
pub fn modal_palette_replies(pending_input: &[u8], bytes: &[u8]) -> (replies: Vec<Vec<u8>>)
    ensures
        byte_strings(replies@) == replies_of(pending_input@ + bytes@),
{
    let input: Vec<u8> = joined(pending_input, bytes);
    let mut replies: Vec<Vec<u8>> = Vec::new();
    let mut offset: usize = 0;
    assert(input@.skip(0) =~= input@);
    assert(byte_strings(replies@) + replies_of(input@.skip(0)) =~= replies_of(input@));
    while offset < input.len()
        invariant
            offset <= input@.len(),
            input@ == pending_input@ + bytes@,
            byte_strings(replies@) + replies_of(input@.skip(offset as int)) == replies_of(
                input@,
            ),
        decreases input.len() - offset,
    {
        let candidate = vstd::slice::slice_subrange(input.as_slice(), offset, input.len());
        assert(candidate@ =~= input@.skip(offset as int));
        let ghost rest = input@.skip(offset as int);
        match frame_size(candidate) {
            FrameSize::Reply(n) => {
                let ghost before = byte_strings(replies@);
                let reply = bytes::copy_range(candidate, 0, n);
                assert(reply@ =~= rest.take(n as int));
                replies.push(reply);
                assert(byte_strings(replies@) =~= before.push(rest.take(n as int)));
                assert(input@.skip(offset + n) =~= rest.skip(n as int));
                assert(before.push(rest.take(n as int)) + replies_of(rest.skip(n as int))
                    =~= before + (seq![rest.take(n as int)] + replies_of(rest.skip(n as int))));
                offset = offset + n;
            },
            FrameSize::Plain(n) => {
                assert(input@.skip(offset + n) =~= rest.skip(n as int));
                offset = offset + n;
            },
            _ => {
                assert(byte_strings(replies@) + replies_of(rest) =~= byte_strings(replies@));
                return replies;
            },
        }
    }
    assert(byte_strings(replies@) + replies_of(input@.skip(offset as int))
        =~= byte_strings(replies@));
    replies
}

proof fn lemma_split_without_escape(
    s: Seq<u8>,
    held: Seq<u8>,
    indices: Seq<Option<TerminalPaletteIndex>>,
)
    requires
        !s.contains(0x1b),
    ensures
        !sets_something_apart(split_input(s, held, indices)),
    decreases s.len(),
{
    if s.len() > 0 {
        assert(s[0] != 0x1b) by {
            assert(s.contains(s[0]));
        }
        assert(frame_of(s) is Plain || frame_of(s) is PlainRest) by {
            if bytes::has_prefix(palette_prefix(), s) {
                assert(palette_prefix().subrange(0, s.len() as int)[0] == s[0]);
            }
            if bytes::has_prefix(s, palette_prefix()) {
                assert(s.subrange(0, 4)[0] == s[0]);
            }
        }
        match frame_of(s) {
            InputFrame::Plain(n) => {
                if 0 < n <= s.len() {
                    assert(!s.skip(n).contains(0x1b)) by {
                        if s.skip(n).contains(0x1b) {
                            let i = choose|i: int|
                                0 <= i < s.skip(n).len() && s.skip(n)[i] == 0x1b;
                            assert(s[i + n] == 0x1b);
                        }
                    }
                    lemma_split_without_escape(s.skip(n), held + s.take(n), indices);
                }
            },
            _ => {},
        }
    }
}

fn contains_escape(input: &[u8]) -> (found: bool)
    ensures
        found == input@.contains(0x1b),
{
    let mut i: usize = 0;
    while i < input.len()
        invariant
            i <= input@.len(),
            forall|k: int| 0 <= k < i ==> input@[k] != 0x1b,
        decreases input.len() - i,
    {
        if input[i] == 0x1b {
            return true;
        }
        i = i + 1;
    }
    false
}

fn push_held(segments: &mut Vec<ModalPaletteInputSegment>, input: &Vec<u8>, from: usize, to: usize)
    requires
        from <= to <= input@.len(),
    ensures
        segment_models(final(segments)@) == segment_models(old(segments)@) + flush_held(
            input@.subrange(from as int, to as int),
        ),
{
    if from < to {
        segments.push(
            ModalPaletteInputSegment::Input(bytes::copy_range(input.as_slice(), from, to)),
        );
    }
    assert(segment_models(segments@) =~= segment_models(old(segments)@) + flush_held(
        input@.subrange(from as int, to as int),
    ));
}

/// Splits closed palette replies out of input about to enter a modal surface.
/// `indices` has the entry that each of `modal_palette_replies` names, `None`
/// where it is malformed. Every other byte stays in ordinary segments, in wire
/// order. `None` where there is nothing to set apart.
#[verifier::rlimit(40)]
pub fn split_attached_modal_palette_input(
    pending_input: &[u8],
    bytes: &[u8],
    indices: &[Option<TerminalPaletteIndex>],
) -> (split: Option<ModalPaletteInput>)
    ensures
        match split {
            Some(split) => {
                &&& sets_something_apart(
                    split_input(pending_input@ + bytes@, Seq::empty(), indices@),
                )
                &&& (segment_models(split.segments@), split.retained@) == split_input(
                    pending_input@ + bytes@,
                    Seq::empty(),
                    indices@,
                )
            },
            None => !sets_something_apart(
                split_input(pending_input@ + bytes@, Seq::empty(), indices@),
            ),
        },
{
    let ghost whole = pending_input@ + bytes@;
    let ghost answer = split_input(whole, Seq::empty(), indices@);
    if !contains_escape(pending_input) && !contains_escape(bytes) {
        proof {
            assert(!whole.contains(0x1b)) by {
                if whole.contains(0x1b) {
                    let i = choose|i: int| 0 <= i < whole.len() && whole[i] == 0x1b;
                    if i < pending_input@.len() {
                        assert(pending_input@[i] == 0x1b);
                    } else {
                        assert(bytes@[i - pending_input@.len()] == 0x1b);
                    }
                }
            }
            lemma_split_without_escape(whole, Seq::empty(), indices@);
        }
        return None;
    }
    let input: Vec<u8> = joined(pending_input, bytes);
    let mut segments: Vec<ModalPaletteInputSegment> = Vec::new();
    let mut copy_from: usize = 0;
    let mut offset: usize = 0;
    let mut next_index: usize = 0;
    let mut changed = false;
    let ghost left = indices@;
    proof {
        assert(input@.skip(0) =~= input@);
        assert(input@.subrange(0, 0) =~= Seq::<u8>::empty());
        assert(segment_models(segments@) =~= Seq::<SegmentModel>::empty());
        assert(Seq::<SegmentModel>::empty() + answer.0 =~= answer.0);
    }
    while offset < input.len()
        invariant
            input@ == whole,
            whole == pending_input@ + bytes@,
            answer == split_input(whole, Seq::empty(), indices@),
            copy_from <= offset <= input@.len(),
            next_index <= indices@.len(),
            left == indices@.subrange(next_index as int, indices@.len() as int),
            changed == (exists|i: int|
                0 <= i < segment_models(segments@).len() && (#[trigger] segment_models(
                    segments@,
                )[i]).0 is Some),
            ({
                let rest = split_input(
                    input@.skip(offset as int),
                    input@.subrange(copy_from as int, offset as int),
                    left,
                );
                answer == (segment_models(segments@) + rest.0, rest.1)
            }),
        decreases input.len() - offset,
    {
        let candidate = vstd::slice::slice_subrange(input.as_slice(), offset, input.len());
        assert(candidate@ =~= input@.skip(offset as int));
        let ghost s = input@.skip(offset as int);
        let ghost held = input@.subrange(copy_from as int, offset as int);
        let ghost before = segment_models(segments@);
        match frame_size(candidate) {
            FrameSize::Unfinished => {
                push_held(&mut segments, &input, copy_from, offset);
                let retained = bytes::copy_range(candidate, 0, candidate.len());
                assert(retained@ =~= s);
                return Some(ModalPaletteInput { segments, retained });
            },
            FrameSize::Reply(n) => {
                let named: Option<TerminalPaletteIndex> = if next_index < indices.len() {
                    indices[next_index]
                } else {
                    None
                };
                assert(named == head_index(left));
                assert(input@.skip(offset + n) =~= s.skip(n as int));
                match named {
                    Some(index) => {
                        push_held(&mut segments, &input, copy_from, offset);
                        let ghost flushed = segment_models(segments@);
                        let reply = bytes::copy_range(candidate, 0, n);
                        assert(reply@ =~= s.take(n as int));
                        segments.push(ModalPaletteInputSegment::Response { index, bytes: reply });
                        assert(segment_models(segments@) =~= flushed + seq![
                            (Some(index), s.take(n as int)),
                        ]);
                        assert(segment_models(segments@)[flushed.len() as int].0 is Some);
                        offset = offset + n;
                        copy_from = offset;
                        changed = true;
                        assert(input@.subrange(copy_from as int, offset as int)
                            =~= Seq::<u8>::empty());
                        proof {
                            let rest = split_input(
                                s.skip(n as int),
                                Seq::empty(),
                                tail_indices(left),
                            );
                            assert(segment_models(segments@) + rest.0 =~= before + (flush_held(held)
                                + seq![(Some(index), s.take(n as int))] + rest.0));
                        }
                    },
                    None => {
                        offset = offset + n;
                        assert(input@.subrange(copy_from as int, offset as int) =~= held + s.take(
                            n as int,
                        ));
                    },
                }
                if next_index < indices.len() {
                    next_index = next_index + 1;
                }
                proof {
                    assert(indices@.subrange(next_index as int, indices@.len() as int)
                        =~= tail_indices(left));
                    left = tail_indices(left);
                }
            },
            FrameSize::Plain(n) => {
                assert(input@.skip(offset + n) =~= s.skip(n as int));
                offset = offset + n;
                assert(input@.subrange(copy_from as int, offset as int) =~= held + s.take(
                    n as int,
                ));
            },
            FrameSize::PlainRest => {
                assert(held + s =~= input@.subrange(copy_from as int, input@.len() as int));
                return finish_split(segments, input, copy_from, changed);
            },
        }
    }
    assert(input@.subrange(copy_from as int, offset as int) =~= input@.subrange(
        copy_from as int,
        input@.len() as int,
    ));
    finish_split(segments, input, copy_from, changed)
}

fn finish_split(
    segments: Vec<ModalPaletteInputSegment>,
    input: Vec<u8>,
    copy_from: usize,
    changed: bool,
) -> (split: Option<ModalPaletteInput>)
    requires
        copy_from <= input@.len(),
        changed == (exists|i: int|
            0 <= i < segment_models(segments@).len() && (#[trigger] segment_models(
                segments@,
            )[i]).0 is Some),
    ensures
        ({
            let answer = (
                segment_models(segments@) + flush_held(
                    input@.subrange(copy_from as int, input@.len() as int),
                ),
                Seq::<u8>::empty(),
            );
            match split {
                Some(split) => {
                    &&& sets_something_apart(answer)
                    &&& (segment_models(split.segments@), split.retained@) == answer
                },
                None => !sets_something_apart(answer),
            }
        }),
{
    let ghost before = segment_models(segments@);
    let ghost tail = flush_held(input@.subrange(copy_from as int, input@.len() as int));
    let ghost answer = (before + tail, Seq::<u8>::empty());
    assert(changed ==> sets_something_apart(answer)) by {
        if changed {
            let i = choose|i: int| 0 <= i < before.len() && (#[trigger] before[i]).0 is Some;
            assert(answer.0[i] == before[i]);
        }
    }
    assert(!changed ==> !sets_something_apart(answer)) by {
        assert forall|i: int| !changed && 0 <= i < answer.0.len() implies !((
        #[trigger] answer.0[i]).0 is Some) by {
            if i < before.len() {
                assert(answer.0[i] == before[i]);
            } else {
                assert(answer.0[i] == tail[i - before.len()]);
            }
        }
    }
    if !changed {
        return None;
    }
    let mut segments = segments;
    push_held(&mut segments, &input, copy_from, input.len());
    let retained: Vec<u8> = Vec::new();
    Some(ModalPaletteInput { segments, retained })
}

/// All bytes of `segments`, in order.
pub open spec fn segment_bytes(segments: Seq<SegmentModel>) -> Seq<u8>
    decreases segments.len(),
{
    if segments.len() == 0 {
        Seq::empty()
    } else {
        segments[0].1 + segment_bytes(segments.subrange(1, segments.len() as int))
    }
}

proof fn lemma_segment_bytes_concat(a: Seq<SegmentModel>, b: Seq<SegmentModel>)
    ensures
        segment_bytes(a + b) == segment_bytes(a) + segment_bytes(b),
    decreases a.len(),
{
    if a.len() == 0 {
        assert(a + b =~= b);
        assert(segment_bytes(a) + segment_bytes(b) =~= segment_bytes(b));
    } else {
        let tail = a.subrange(1, a.len() as int);
        lemma_segment_bytes_concat(tail, b);
        assert((a + b).subrange(1, (a + b).len() as int) =~= tail + b);
        assert(a[0].1 + (segment_bytes(tail) + segment_bytes(b)) =~= a[0].1 + segment_bytes(tail)
            + segment_bytes(b));
    }
}

proof fn lemma_flush_held_bytes(held: Seq<u8>)
    ensures
        segment_bytes(flush_held(held)) == held,
{
    reveal_with_fuel(segment_bytes, 2);
    let flushed = flush_held(held);
    if held.len() > 0 {
        assert(flushed.subrange(1, 1) =~= Seq::<SegmentModel>::empty());
        assert(held + Seq::<u8>::empty() =~= held);
    } else {
        assert(held =~= Seq::<u8>::empty());
    }
}

/// Splitting loses no byte and changes none: the segments and what is retained
/// are the input, in order.
pub proof fn splitting_keeps_every_byte(
    s: Seq<u8>,
    held: Seq<u8>,
    indices: Seq<Option<TerminalPaletteIndex>>,
)
    ensures
        ({
            let split = split_input(s, held, indices);
            segment_bytes(split.0) + split.1 == held + s
        }),
    decreases s.len(),
{
    let split = split_input(s, held, indices);
    lemma_flush_held_bytes(held);
    lemma_flush_held_bytes(held + s);
    assert(held + s + Seq::<u8>::empty() =~= held + s);
    if s.len() == 0 {
        assert(held + s =~= held);
    } else {
        match frame_of(s) {
            InputFrame::Plain(n) => {
                if 0 < n <= s.len() {
                    splitting_keeps_every_byte(s.skip(n), held + s.take(n), indices);
                    assert(held + s.take(n) + s.skip(n) =~= held + s);
                }
            },
            InputFrame::Reply(n) => {
                if 0 < n <= s.len() {
                    match head_index(indices) {
                        Some(index) => {
                            let rest = split_input(s.skip(n), Seq::empty(), tail_indices(indices));
                            splitting_keeps_every_byte(
                                s.skip(n),
                                Seq::empty(),
                                tail_indices(indices),
                            );
                            let one = seq![(Some(index), s.take(n))];
                            lemma_segment_bytes_concat(flush_held(held) + one, rest.0);
                            lemma_segment_bytes_concat(flush_held(held), one);
                            assert(segment_bytes(one) == s.take(n)) by {
                                reveal_with_fuel(segment_bytes, 2);
                                assert(one.subrange(1, 1) =~= Seq::<SegmentModel>::empty());
                                assert(s.take(n) + Seq::<u8>::empty() =~= s.take(n));
                            }
                            assert(held + s.take(n) + segment_bytes(rest.0) + rest.1 =~= held
                                + s.take(n) + (segment_bytes(rest.0) + rest.1));
                            assert(Seq::<u8>::empty() + s.skip(n) =~= s.skip(n));
                            assert(held + s.take(n) + s.skip(n) =~= held + s);
                        },
                        None => {
                            splitting_keeps_every_byte(
                                s.skip(n),
                                held + s.take(n),
                                tail_indices(indices),
                            );
                            assert(held + s.take(n) + s.skip(n) =~= held + s);
                        },
                    }
                }
            },
            _ => {},
        }
    }
}

/// A whole palette reply: `ESC ] 4 ;`, and a terminator at the very end only.
pub open spec fn is_palette_reply(s: Seq<u8>) -> bool {
    bytes::has_prefix(s, palette_prefix()) && terminal_response::osc_end_from(s, 2) == Some(
        s.len() as int,
    )
}

proof fn lemma_osc_end_of_take(s: Seq<u8>, from: int, n: int)
    requires
        0 <= from,
        n <= s.len(),
        terminal_response::osc_end_from(s, from) == Some(n),
    ensures
        terminal_response::osc_end_from(s.take(n), from) == Some(n),
    decreases s.len() - from,
{
    lemma_osc_end_fits(s, from);
    if terminal_response::osc_end_at(s, from) is None {
        lemma_osc_end_fits(s, from + 1);
        lemma_osc_end_of_take(s, from + 1, n);
    }
}

/// Only whole palette replies are set apart, and only an unfinished one is
/// retained.
pub proof fn only_palette_replies_are_set_apart(
    s: Seq<u8>,
    held: Seq<u8>,
    indices: Seq<Option<TerminalPaletteIndex>>,
)
    ensures
        ({
            let split = split_input(s, held, indices);
            &&& forall|i: int|
                0 <= i < split.0.len() && (#[trigger] split.0[i]).0 is Some ==> is_palette_reply(
                    split.0[i].1,
                )
            &&& split.1.len() > 0 ==> frame_of(split.1) == InputFrame::Unfinished
        }),
    decreases s.len(),
{
    if s.len() > 0 {
        match frame_of(s) {
            InputFrame::Plain(n) => {
                if 0 < n <= s.len() {
                    only_palette_replies_are_set_apart(s.skip(n), held + s.take(n), indices);
                }
            },
            InputFrame::Reply(n) => {
                if 0 < n <= s.len() {
                    match head_index(indices) {
                        Some(index) => {
                            let rest = split_input(s.skip(n), Seq::empty(), tail_indices(indices));
                            only_palette_replies_are_set_apart(
                                s.skip(n),
                                Seq::empty(),
                                tail_indices(indices),
                            );
                            lemma_osc_end_of_take(s, 2, n);
                            lemma_osc_end_fits(s, 2);
                            lemma_osc_end_fits(s, 4);
                            assert(s.subrange(0, 4)[2] == s[2] && s.subrange(0, 4)[3] == s[3]);
                            assert(terminal_response::osc_end_from(s, 3)
                                == terminal_response::osc_end_from(s, 4));
                            assert(terminal_response::osc_end_from(s, 2)
                                == terminal_response::osc_end_from(s, 3));
                            assert(s.take(n).subrange(0, 4) =~= s.subrange(0, 4));
                            let split = split_input(s, held, indices);
                            let head = flush_held(held) + seq![(Some(index), s.take(n))];
                            assert(split.0 == head + rest.0);
                            assert forall|i: int|
                                0 <= i < split.0.len() && (#[trigger] split.0[i]).0 is Some implies
                                is_palette_reply(split.0[i].1) by {
                                if i >= head.len() {
                                    assert(split.0[i] == rest.0[i - head.len()]);
                                }
                            }
                        },
                        None => {
                            only_palette_replies_are_set_apart(
                                s.skip(n),
                                held + s.take(n),
                                tail_indices(indices),
                            );
                        },
                    }
                }
            },
            _ => {},
        }
    }
}

/// Whether a palette reply is written to the pane of an attached client: never for
/// a client that may only look, and only where the pane asked for it. `asked` is
/// whether an outstanding query was found for the reply, and taken; it is missing
/// where the client does not show the pane any more.
pub fn write_attached_palette_response_for_identity(read_only: bool, asked: Option<bool>) -> (
writes: bool)
    ensures
        writes == (!read_only && asked == Some(true)),
{
    if read_only {
        return false;
    }
    match asked {
        Some(asked) => asked,
        None => false,
    }
}

/// `ESC ] 4 ;`, a text without BEL and escape bytes, and BEL or `ESC \`.
pub open spec fn palette_reply(body: Seq<u8>, bell: bool) -> Seq<u8> {
    seq![0x1bu8, 0x5du8, 0x34u8, 0x3bu8] + body + if bell {
        seq![0x07u8]
    } else {
        seq![0x1bu8, 0x5cu8]
    }
}

proof fn lemma_palette_reply(body: Seq<u8>, bell: bool, rest: Seq<u8>)
    requires
        forall|i: int| 0 <= i < body.len() ==> #[trigger] body[i] != 0x07 && body[i] != 0x1b,
    ensures
        frame_of(palette_reply(body, bell) + rest) == InputFrame::Reply(
            palette_reply(body, bell).len() as int,
        ),
{
    let reply = palette_reply(body, bell);
    let s = reply + rest;
    assert(s.subrange(0, 4) =~= palette_prefix());
    let at = 4 + body.len() as int;
    assert forall|j: int| 2 <= j < at implies #[trigger] terminal_response::osc_end_at(s, j)
        is None by {
        if j >= 4 {
            assert(s[j] == body[j - 4]);
        }
    }
    lemma_osc_end_skips(s, 2, at);
    assert(s[at] == reply[at]);
    if !bell {
        assert(s[at + 1] == reply[at + 1]);
    }
    assert(terminal_response::osc_end_at(s, at) == Some(reply.len() as int));
}

proof fn lemma_osc_end_skips(s: Seq<u8>, from: int, later: int)
    requires
        0 <= from <= later <= s.len(),
        forall|j: int| from <= j < later ==> #[trigger] terminal_response::osc_end_at(s, j) is None,
    ensures
        terminal_response::osc_end_from(s, from) == terminal_response::osc_end_from(s, later),
    decreases later - from,
{
    if from < later {
        assert(terminal_response::osc_end_at(s, from) is None);
        lemma_osc_end_skips(s, from + 1, later);
    }
}

/// A reply about a palette entry is set apart whole, with the entry it names, between
/// what stands before and behind it; one that names none stays with the input.
pub proof fn a_palette_reply_is_set_apart(
    body: Seq<u8>,
    bell: bool,
    rest: Seq<u8>,
    held: Seq<u8>,
    index: TerminalPaletteIndex,
    more: Seq<Option<TerminalPaletteIndex>>,
)
    requires
        forall|i: int| 0 <= i < body.len() ==> #[trigger] body[i] != 0x07 && body[i] != 0x1b,
    ensures
        ({
            let reply = palette_reply(body, bell);
            let named = split_input(reply + rest, held, seq![Some(index)] + more);
            let after = split_input(rest, Seq::empty(), more);
            let before = if held.len() == 0 {
                seq![]
            } else {
                seq![(None::<TerminalPaletteIndex>, held)]
            };
            &&& named.0 == before + seq![(Some(index), reply)] + after.0
            &&& named.1 == after.1
            &&& split_input(
                reply + rest,
                held,
                seq![None::<TerminalPaletteIndex>] + more,
            ) == split_input(rest, held + reply, more)
        }),
{
    let reply = palette_reply(body, bell);
    let s = reply + rest;
    lemma_palette_reply(body, bell, rest);
    assert(s.skip(reply.len() as int) =~= rest);
    assert(s.take(reply.len() as int) =~= reply);
    let named = seq![Some(index)] + more;
    let unnamed = seq![None::<TerminalPaletteIndex>] + more;
    assert(named.subrange(1, named.len() as int) =~= more);
    assert(unnamed.subrange(1, unnamed.len() as int) =~= more);
}

/// A reply that has not ended yet is kept for the next bytes, and what stands before it
/// is handed out; so is what may still become one.
pub proof fn an_unended_palette_reply_is_kept(
    body: Seq<u8>,
    cut: int,
    held: Seq<u8>,
    indices: Seq<Option<TerminalPaletteIndex>>,
)
    requires
        forall|i: int| 0 <= i < body.len() ==> #[trigger] body[i] != 0x07 && body[i] != 0x1b,
        1 <= cut <= 4 + body.len(),
    ensures
        ({
            let s = (seq![0x1bu8, 0x5du8, 0x34u8, 0x3bu8] + body).subrange(0, cut);
            split_input(s, held, indices) == (
                if held.len() == 0 {
                    seq![]
                } else {
                    seq![(None::<TerminalPaletteIndex>, held)]
                },
                s,
            )
        }),
{
    let whole = seq![0x1bu8, 0x5du8, 0x34u8, 0x3bu8] + body;
    let s = whole.subrange(0, cut);
    if cut < 4 {
        assert(palette_prefix().subrange(0, cut) =~= s);
    } else {
        assert(s.subrange(0, 4) =~= palette_prefix());
        assert forall|j: int| 2 <= j < cut implies #[trigger] terminal_response::osc_end_at(s, j)
            is None by {
            if j >= 4 {
                assert(s[j] == body[j - 4]);
            }
        }
        lemma_osc_end_skips(s, 2, cut);
    }
}

/// A byte that begins no control is ordinary input of one byte.
pub proof fn an_ordinary_byte_stays_with_the_input(
    byte: u8,
    rest: Seq<u8>,
    held: Seq<u8>,
    indices: Seq<Option<TerminalPaletteIndex>>,
)
    requires
        byte != 0x1b && byte != 0x90 && byte != 0x98 && byte != 0x9d && byte != 0x9e && byte
            != 0x9f,
    ensures
        split_input(seq![byte] + rest, held, indices) == split_input(
            rest,
            held + seq![byte],
            indices,
        ),
{
    let s = seq![byte] + rest;
    assert(s[0] == byte);
    assert(s.skip(1) =~= rest);
    assert(s.take(1) =~= seq![byte]);
    if s.len() < 4 {
        assert(palette_prefix().subrange(0, s.len() as int)[0] == 0x1b);
    } else {
        assert(s.subrange(0, 4)[0] == byte);
    }
    if s.len() >= 6 {
        assert(s.subrange(0, 6)[0] == byte);
    } else if s.len() >= 3 {
        assert(bracketed_paste::paste_start().subrange(0, s.len() as int)[0] == 0x1b);
    }
    assert(opaque_span(s) is None);
}

/// What stands inside of a paste is not looked at: the paste is ordinary input as a
/// whole, palette replies in it and all.
pub proof fn a_paste_is_not_searched_for_replies(
    body: Seq<u8>,
    tail: Seq<u8>,
    held: Seq<u8>,
    indices: Seq<Option<TerminalPaletteIndex>>,
)
    requires
        forall|at: int| !#[trigger] bytes::occurs_at(body, bracketed_paste::paste_end(), at),
        body.len() + 12 <= usize::MAX,
    ensures
        ({
            let paste = bracketed_paste::encoded_paste(body, true);
            split_input(paste + tail, held, indices) == split_input(tail, held + paste, indices)
        }),
{
    let paste = bracketed_paste::encoded_paste(body, true);
    let s = paste + tail;
    bracketed_paste::an_encoded_paste_decodes_before_any_tail(body, tail);
    assert(s.subrange(0, 4)[1] == 0x5b);
    assert(bytes::has_prefix(s, bracketed_paste::paste_start()));
    assert(s.skip(paste.len() as int) =~= tail);
    assert(s.take(paste.len() as int) =~= paste);
}

/// What stands inside of a device control, application, privacy or start-of-string
/// control is not looked at either, up to the terminator of the control.
pub proof fn a_string_control_is_not_searched_for_replies(
    kind: u8,
    body: Seq<u8>,
    tail: Seq<u8>,
    held: Seq<u8>,
    indices: Seq<Option<TerminalPaletteIndex>>,
)
    requires
        kind == 0x50 || kind == 0x5f || kind == 0x5e || kind == 0x58,
        forall|i: int|
            0 <= i < body.len() ==> #[trigger] body[i] != 0x9c && (body[i] == 0x1b ==> i + 1
                < body.len() && body[i + 1] != 0x5c),
        body.len() + 4 <= usize::MAX,
    ensures
        ({
            let control = seq![0x1bu8, kind] + body + seq![0x1bu8, 0x5cu8];
            split_input(control + tail, held, indices) == split_input(
                tail,
                held + control,
                indices,
            )
        }),
{
    let control = seq![0x1bu8, kind] + body + seq![0x1bu8, 0x5cu8];
    let s = control + tail;
    let at = 2 + body.len() as int;
    assert(s.subrange(0, 4)[1] == kind);
    assert(s[1] == kind);
    if s.len() >= 6 {
        assert(s.subrange(0, 6)[1] == kind);
    } else {
        assert(bracketed_paste::paste_start().subrange(0, s.len() as int)[1] == 0x5b);
    }
    assert forall|j: int| 2 <= j < at implies #[trigger] opaque_end_at(s, j, false) is None by {
        assert(s[j] == body[j - 2]);
        if body[j - 2] == 0x1b {
            assert(s[j + 1] == body[j - 1]);
        }
    }
    lemma_opaque_end_skips(s, 2, at, false);
    assert(s[at] == 0x1b && s[at + 1] == 0x5c);
    assert(opaque_end_at(s, at, false) == Some(at + 2));
    assert(s.skip(control.len() as int) =~= tail);
    assert(s.take(control.len() as int) =~= control);
}

proof fn lemma_opaque_end_skips(s: Seq<u8>, from: int, later: int, bell: bool)
    requires
        0 <= from <= later <= s.len(),
        forall|j: int| from <= j < later ==> #[trigger] opaque_end_at(s, j, bell) is None,
    ensures
        opaque_end_from(s, from, bell) == opaque_end_from(s, later, bell),
    decreases later - from,
{
    if from < later {
        assert(opaque_end_at(s, from, bell) is None);
        lemma_opaque_end_skips(s, from + 1, later, bell);
    }
}

/// A string control in its one-byte form is not searched either; like an operating
/// system command of any other number, it ends at its terminator, which may be the
/// one-byte form, and for a command also BEL.
pub proof fn one_byte_controls_are_not_searched_for_replies(
    kind: u8,
    body: Seq<u8>,
    ending: u8,
    tail: Seq<u8>,
    held: Seq<u8>,
    indices: Seq<Option<TerminalPaletteIndex>>,
)
    requires
        kind == 0x90 || kind == 0x98 || kind == 0x9d || kind == 0x9e || kind == 0x9f,
        ending == 0x9c || (ending == 0x07 && kind == 0x9d),
        forall|i: int|
            0 <= i < body.len() ==> #[trigger] body[i] != 0x9c && body[i] != 0x07 && body[i] != 0x1b,
        body.len() + 2 <= usize::MAX,
    ensures
        ({
            let control = seq![kind] + body + seq![ending];
            split_input(control + tail, held, indices) == split_input(
                tail,
                held + control,
                indices,
            )
        }),
{
    let control = seq![kind] + body + seq![ending];
    let s = control + tail;
    let bell = kind == 0x9d;
    let at = 1 + body.len() as int;
    assert(s[0] == kind);
    if s.len() < 4 {
        assert(palette_prefix().subrange(0, s.len() as int)[0] == 0x1b);
    } else {
        assert(s.subrange(0, 4)[0] == kind);
    }
    if s.len() >= 6 {
        assert(s.subrange(0, 6)[0] == kind);
    } else if s.len() >= 3 {
        assert(bracketed_paste::paste_start().subrange(0, s.len() as int)[0] == 0x1b);
    }
    assert forall|j: int| 1 <= j < at implies #[trigger] opaque_end_at(s, j, bell) is None by {
        assert(s[j] == body[j - 1]);
    }
    lemma_opaque_end_skips(s, 1, at, bell);
    assert(s[at] == ending);
    assert(opaque_end_at(s, at, bell) == Some(at + 1));
    assert(s.skip(control.len() as int) =~= tail);
    assert(s.take(control.len() as int) =~= control);
}

/// BEL ends no device control: what stands behind it belongs to the control still.
pub proof fn bel_ends_no_device_control(body: Seq<u8>, held: Seq<u8>)
    requires
        forall|i: int| 0 <= i < body.len() ==> #[trigger] body[i] != 0x9c && body[i] != 0x1b,
        body.len() > 2,
    ensures
        split_input(seq![0x1bu8, 0x50u8] + body, held, seq![]) == (
            seq![(None::<TerminalPaletteIndex>, held + (seq![0x1bu8, 0x50u8] + body))],
            Seq::<u8>::empty(),
        ),
{
    let s = seq![0x1bu8, 0x50u8] + body;
    assert(s.subrange(0, 4)[1] == 0x50);
    if s.len() >= 6 {
        assert(s.subrange(0, 6)[1] == 0x50);
    } else {
        assert(bracketed_paste::paste_start().subrange(0, s.len() as int)[1] == 0x5b);
    }
    assert forall|j: int| 2 <= j < s.len() implies #[trigger] opaque_end_at(s, j, false) is None by {
        assert(s[j] == body[j - 2]);
    }
    lemma_opaque_end_skips(s, 2, s.len() as int, false);
}

/// Nothing is set apart of input without a reply and without an unfinished one.
pub proof fn ordinary_input_sets_nothing_apart(input: Seq<u8>)
    requires
        forall|i: int| 0 <= i < input.len() ==> 0x20 <= #[trigger] input[i] < 0x7f,
    ensures
        !sets_something_apart(split_input(input, Seq::empty(), Seq::empty())),
        replies_of(input).len() == 0,
{
    lemma_plain_input(input, Seq::empty());
}

proof fn lemma_plain_input(input: Seq<u8>, held: Seq<u8>)
    requires
        forall|i: int| 0 <= i < input.len() ==> 0x20 <= #[trigger] input[i] < 0x7f,
    ensures
        split_input(input, held, Seq::empty()) == (flush_held(held + input), Seq::<u8>::empty()),
        replies_of(input).len() == 0,
    decreases input.len(),
{
    if input.len() > 0 {
        let rest = input.skip(1);
        assert forall|i: int| 0 <= i < rest.len() implies 0x20 <= #[trigger] rest[i] < 0x7f by {
            assert(rest[i] == input[i + 1]);
        }
        lemma_plain_input(rest, held + seq![input[0]]);
        assert(input =~= seq![input[0]] + rest);
        an_ordinary_byte_stays_with_the_input(input[0], rest, held, Seq::empty());
        assert(held + seq![input[0]] + rest =~= held + input);
        assert(frame_of(input) == InputFrame::Plain(1)) by {
            if input.len() < 4 {
                assert(palette_prefix().subrange(0, input.len() as int)[0] == 0x1b);
            } else {
                assert(input.subrange(0, 4)[0] == input[0]);
            }
            if input.len() >= 6 {
                assert(input.subrange(0, 6)[0] == input[0]);
            } else if input.len() >= 3 {
                assert(bracketed_paste::paste_start().subrange(0, input.len() as int)[0] == 0x1b);
            }
        }
    } else {
        assert(held + input =~= held);
    }
}

/// The replies that a palette decoder is asked about are the closed ones, whole and in
/// order.
pub proof fn closed_replies_are_asked_about(body: Seq<u8>, bell: bool, rest: Seq<u8>)
    requires
        forall|i: int| 0 <= i < body.len() ==> #[trigger] body[i] != 0x07 && body[i] != 0x1b,
    ensures
        replies_of(palette_reply(body, bell) + rest) == seq![palette_reply(body, bell)]
            + replies_of(rest),
        sets_something_apart(
            split_input(
                palette_reply(body, bell) + rest,
                Seq::empty(),
                seq![Some(TerminalPaletteIndex(0))],
            ),
        ),
{
    let reply = palette_reply(body, bell);
    let s = reply + rest;
    lemma_palette_reply(body, bell, rest);
    assert(s.skip(reply.len() as int) =~= rest);
    assert(s.take(reply.len() as int) =~= reply);
    let index = TerminalPaletteIndex(0);
    let none = Seq::<Option<TerminalPaletteIndex>>::empty();
    assert(seq![Some(index)] + none =~= seq![Some(index)]);
    a_palette_reply_is_set_apart(body, bell, rest, Seq::empty(), index, none);
    let split = split_input(s, Seq::empty(), seq![Some(index)]);
    assert(split.0[0].0 is Some);
}

} // verus!
