//! Bracketed paste: the `ESC [ 200 ~` / `ESC [ 201 ~` delimiters round pasted text.
use crate::bytes;
use vstd::prelude::*;

verus! {

/// The opening delimiter, `ESC [ 200 ~`.
pub open spec fn paste_start() -> Seq<u8> {
    seq![0x1bu8, 0x5bu8, 0x32u8, 0x30u8, 0x30u8, 0x7eu8]
}

/// The closing delimiter, `ESC [ 201 ~`.
pub open spec fn paste_end() -> Seq<u8> {
    seq![0x1bu8, 0x5bu8, 0x32u8, 0x30u8, 0x31u8, 0x7eu8]
}

/// What a decoder finds at the front of its input.
#[derive(Debug, Clone, Copy, PartialEq, Eq, Structural)]
pub enum BracketedPasteDecode {
    /// The input does not begin a paste.
    NotPaste,
    /// The input may become a paste once more bytes arrive.
    Partial,
    /// A whole paste of `size` bytes whose text is `input[body_start..body_end]`.
    Matched { size: usize, body_start: usize, body_end: usize },
}

/// The bytes sent to a pane for a paste of `body`.
pub open spec fn encoded_paste(body: Seq<u8>, bracketed: bool) -> Seq<u8> {
    if bracketed {
        paste_start() + body + paste_end()
    } else {
        body
    }
}

/// Where the search for the closing delimiter begins when the first
/// `new_input_at` bytes were searched before.
pub open spec fn paste_search_at(len: int, new_input_at: int) -> int {
    let backed_up = if new_input_at < 5 {
        0
    } else {
        new_input_at - 5
    };
    let past_start = if backed_up < 6 {
        6
    } else {
        backed_up
    };
    if past_start < len {
        past_start
    } else {
        len
    }
}

/// What `decode_bracketed_paste_after_append` answers.
pub open spec fn paste_decode(input: Seq<u8>, new_input_at: int) -> BracketedPasteDecode {
    if bytes::has_prefix(input, paste_start()) {
        match bytes::find_from(
            input,
            paste_end(),
            paste_search_at(input.len() as int, new_input_at),
        ) {
            Some(at) => BracketedPasteDecode::Matched {
                size: (at + 6) as usize,
                body_start: 6,
                body_end: at as usize,
            },
            None => BracketedPasteDecode::Partial,
        }
    } else if input.len() >= 3 && bytes::has_prefix(paste_start(), input) {
        BracketedPasteDecode::Partial
    } else {
        BracketedPasteDecode::NotPaste
    }
}

fn start_marker() -> (marker: [u8; 6])
    ensures
        marker@ == paste_start(),
{
    let marker: [u8; 6] = [0x1b, 0x5b, 0x32, 0x30, 0x30, 0x7e];
    assert(marker@ =~= paste_start());
    marker
}

fn end_marker() -> (marker: [u8; 6])
    ensures
        marker@ == paste_end(),
{
    let marker: [u8; 6] = [0x1b, 0x5b, 0x32, 0x30, 0x31, 0x7e];
    assert(marker@ =~= paste_end());
    marker
}

/// The bytes to write to a pane for a paste of `body`: `body` between the
/// delimiters where the pane asked for bracketed paste, else `body` alone.
pub fn encode_bracketed_paste_for_mode(body: &[u8], bracketed: bool) -> (encoded: Vec<u8>)
    ensures
        encoded@ == encoded_paste(body@, bracketed),
{
    let mut encoded: Vec<u8> = Vec::new();
    if !bracketed {
        bytes::push_all(&mut encoded, body);
        assert(encoded@ =~= body@);
        return encoded;
    }
    let start = start_marker();
    let end = end_marker();
    bytes::push_all(&mut encoded, start.as_slice());
    bytes::push_all(&mut encoded, body);
    bytes::push_all(&mut encoded, end.as_slice());
    assert(encoded@ =~= paste_start() + body@ + paste_end());
    encoded
}

/// Decodes a paste at the front of `input`.
pub fn decode_bracketed_paste(input: &[u8]) -> (decoded: BracketedPasteDecode)
    ensures
        decoded == paste_decode(input@, 0),
{
    decode_bracketed_paste_after_append(input, 0)
}

/// Decodes a paste at the front of `input`, whose first `new_input_at` bytes
/// were retained as a partial paste and hold no whole closing delimiter. The
/// search resumes close enough before that boundary to catch a delimiter that
/// was split across two reads.
pub fn decode_bracketed_paste_after_append(input: &[u8], new_input_at: usize) -> (decoded:
    BracketedPasteDecode)
    ensures
        decoded == paste_decode(input@, new_input_at as int),
{
    let start = start_marker();
    let end = end_marker();
    if bytes::starts_with(input, start.as_slice()) {
        let backed_up: usize = new_input_at.saturating_sub(5);
        let past_start: usize = if backed_up < 6 {
            6
        } else {
            backed_up
        };
        let search_at: usize = if past_start < input.len() {
            past_start
        } else {
            input.len()
        };
        proof {
            bytes::lemma_find_from(input@, paste_end(), search_at as int);
        }
        match bytes::find_subslice_from(input, end.as_slice(), search_at) {
            Some(body_end) => {
                return BracketedPasteDecode::Matched {
                    size: body_end + 6,
                    body_start: 6,
                    body_end,
                };
            },
            None => {
                return BracketedPasteDecode::Partial;
            },
        }
    }
    if input.len() >= 3 && bytes::starts_with(start.as_slice(), input) {
        return BracketedPasteDecode::Partial;
    }
    BracketedPasteDecode::NotPaste
}

/// A decoded paste lies within the input, its text between the delimiters.
pub proof fn lemma_matched_paste_fits(input: Seq<u8>, new_input_at: int)
    requires
        input.len() <= usize::MAX,
        0 <= new_input_at,
    ensures
        paste_decode(input, new_input_at) matches BracketedPasteDecode::Matched {
            size,
            body_start,
            body_end,
        } ==> 6 == body_start <= body_end && body_end + 6 == size <= input.len(),
{
    bytes::lemma_find_from(
        input,
        paste_end(),
        paste_search_at(input.len() as int, new_input_at),
    );
}

/// A delimiter, opening or closing, stands in `s` at `at`.
pub open spec fn marker_at(s: Seq<u8>, at: int) -> bool {
    bytes::occurs_at(s, paste_start(), at) || bytes::occurs_at(s, paste_end(), at)
}

/// No delimiter stands anywhere in `s`.
pub open spec fn marker_free(s: Seq<u8>) -> bool {
    forall|at: int| !#[trigger] marker_at(s, at)
}

/// `s` from `from` on, without the delimiters that a left-to-right scan meets.
pub open spec fn strip_pass(s: Seq<u8>, from: int) -> Seq<u8>
    decreases s.len() - from,
{
    if from < 0 || from >= s.len() {
        Seq::empty()
    } else if marker_at(s, from) {
        strip_pass(s, from + 6)
    } else {
        seq![s[from]] + strip_pass(s, from + 1)
    }
}

/// `s` with scans repeated until no delimiter is left.
pub open spec fn stripped(s: Seq<u8>) -> Seq<u8>
    decreases s.len(),
    via stripped_decreases
{
    if marker_free(s) {
        s
    } else {
        stripped(strip_pass(s, 0))
    }
}

#[via_fn]
proof fn stripped_decreases(s: Seq<u8>) {
    if !marker_free(s) {
        lemma_strip_pass_progress(s);
    }
}

proof fn lemma_strip_pass_progress(s: Seq<u8>)
    requires
        !marker_free(s),
    ensures
        strip_pass(s, 0).len() < s.len(),
{
    let at = choose|at: int| #[trigger] marker_at(s, at);
    lemma_strip_pass_shortens(s, 0, at);
}

proof fn lemma_strip_pass_len(s: Seq<u8>, from: int)
    requires
        0 <= from <= s.len(),
    ensures
        strip_pass(s, from).len() <= s.len() - from,
    decreases s.len() - from,
{
    if from < s.len() {
        if marker_at(s, from) {
            lemma_strip_pass_len(s, from + 6);
        } else {
            lemma_strip_pass_len(s, from + 1);
        }
    }
}

proof fn lemma_strip_pass_shortens(s: Seq<u8>, from: int, at: int)
    requires
        0 <= from <= at,
        marker_at(s, at),
    ensures
        strip_pass(s, from).len() < s.len() - from,
    decreases s.len() - from,
{
    if marker_at(s, from) {
        lemma_strip_pass_len(s, from + 6);
    } else {
        lemma_strip_pass_shortens(s, from + 1, at);
    }
}

proof fn lemma_strip_pass_keeps(s: Seq<u8>, from: int)
    requires
        0 <= from <= s.len(),
        forall|at: int| from <= at ==> !#[trigger] marker_at(s, at),
    ensures
        strip_pass(s, from) == s.subrange(from, s.len() as int),
    decreases s.len() - from,
{
    if from < s.len() {
        assert(!marker_at(s, from));
        lemma_strip_pass_keeps(s, from + 1);
        assert(seq![s[from]] + s.subrange(from + 1, s.len() as int) =~= s.subrange(
            from,
            s.len() as int,
        ));
    } else {
        assert(s.subrange(from, s.len() as int) =~= Seq::<u8>::empty());
    }
}

/// One left-to-right scan: what is left, and whether a delimiter was removed.
fn strip_once(current: &Vec<u8>) -> (pass: (Vec<u8>, bool))
    ensures
        pass.0@ == strip_pass(current@, 0),
        pass.1 == !marker_free(current@),
        pass.1 ==> pass.0@.len() < current@.len(),
{
    let start = start_marker();
    let end = end_marker();
    let mut out: Vec<u8> = Vec::new();
    let mut index: usize = 0;
    let mut removed = false;
    while index < current.len()
        invariant
            index <= current@.len(),
            start@ == paste_start(),
            end@ == paste_end(),
            out@ + strip_pass(current@, index as int) == strip_pass(current@, 0),
            removed ==> !marker_free(current@),
            !removed ==> forall|at: int| 0 <= at < index ==> !#[trigger] marker_at(current@, at),
        decreases current.len() - index,
    {
        let ghost before = out@;
        if bytes::matches_at(current.as_slice(), start.as_slice(), index) || bytes::matches_at(
            current.as_slice(),
            end.as_slice(),
            index,
        ) {
            assert(marker_at(current@, index as int));
            index = index + 6;
            removed = true;
        } else {
            out.push(current[index]);
            assert(out@ + strip_pass(current@, index + 1) =~= before + (seq![
                current@[index as int],
            ] + strip_pass(current@, index + 1)));
            index = index + 1;
        }
    }
    proof {
        assert(out@ + strip_pass(current@, index as int) =~= out@);
        if removed {
            lemma_strip_pass_progress(current@);
        }
    }
    (out, removed)
}

/// Removes whole delimiters from `input` and keeps every other byte, control
/// characters of the pasted text included. Scans are repeated until none is
/// left, so fragments that close up into a live delimiter go as well.
pub fn strip_bracketed_paste_markers(input: &[u8]) -> (text: Vec<u8>)
    ensures
        text@ == stripped(input@),
{
    let mut current: Vec<u8> = bytes::copy_range(input, 0, input.len());
    assert(current@ =~= input@);
    loop
        invariant
            stripped(current@) == stripped(input@),
        decreases current@.len(),
    {
        let (out, removed) = strip_once(&current);
        if !removed {
            proof {
                lemma_strip_pass_keeps(current@, 0);
                assert(current@.subrange(0, current@.len() as int) =~= current@);
            }
            return out;
        }
        current = out;
    }
}

/// Stripped text holds no whole delimiter.
pub proof fn stripped_is_marker_free(input: Seq<u8>)
    ensures
        marker_free(stripped(input)),
    decreases input.len(),
{
    if !marker_free(input) {
        lemma_strip_pass_progress(input);
        stripped_is_marker_free(strip_pass(input, 0));
    }
}

/// Stripping stripped text changes nothing.
pub proof fn stripping_is_idempotent(input: Seq<u8>)
    ensures
        stripped(stripped(input)) == stripped(input),
{
    stripped_is_marker_free(input);
}

/// Text without a whole delimiter is kept byte for byte.
pub proof fn stripping_keeps_marker_free_text(input: Seq<u8>)
    requires
        marker_free(input),
    ensures
        stripped(input) == input,
{
}

proof fn lemma_marker_bytes(s: Seq<u8>, at: int)
    requires
        marker_at(s, at),
    ensures
        0 <= at,
        at + 6 <= s.len(),
        s[at] == 0x1b,
        forall|j: int| at < j < at + 6 ==> #[trigger] s[j] != 0x1b,
{
    let m = s.subrange(at, at + 6);
    assert(m[0] == 0x1b);
    assert forall|j: int| at < j < at + 6 implies #[trigger] s[j] != 0x1b by {
        assert(s[j] == m[j - at]);
    }
}

proof fn lemma_marker_in_wrapped_body(body: Seq<u8>, at: int)
    requires
        marker_at(encoded_paste(body, true), at),
    ensures
        at == 0 || at == 6 + body.len() || (6 <= at && marker_at(body, at - 6)),
        at == 0 ==> !bytes::occurs_at(encoded_paste(body, true), paste_end(), at),
        at == 6 + body.len() ==> bytes::occurs_at(encoded_paste(body, true), paste_end(), at),
{
    let s = encoded_paste(body, true);
    lemma_marker_bytes(s, at);
    assert(s.len() == 12 + body.len());
    assert(s.subrange(6 + body.len() as int, 12 + body.len() as int) =~= paste_end());
    assert(s[6 + body.len() as int] == 0x1b);
    if at == 0 {
        assert(s.subrange(0, 6) =~= paste_start());
        assert(paste_start()[4] != paste_end()[4]);
    } else if at < 6 {
        assert(s[at] == paste_start()[at]);
    } else if at + 6 <= 6 + body.len() {
        assert(s.subrange(at, at + 6) =~= body.subrange(at - 6, at));
    } else if at < 6 + body.len() {
        assert(s[6 + body.len() as int] == 0x1b);
    }
}

/// A bracketed paste of text without the closing delimiter decodes to the whole
/// encoding, with exactly that text between the delimiters.
pub proof fn decoding_an_encoded_paste_gives_its_body(body: Seq<u8>)
    requires
        forall|at: int| !#[trigger] bytes::occurs_at(body, paste_end(), at),
        body.len() + 12 <= usize::MAX,
    ensures
        paste_decode(encoded_paste(body, true), 0) == (BracketedPasteDecode::Matched {
            size: (body.len() + 12) as usize,
            body_start: 6,
            body_end: (body.len() + 6) as usize,
        }),
        encoded_paste(body, true).subrange(6, 6 + body.len() as int) == body,
{
    let s = encoded_paste(body, true);
    assert(s.subrange(0, 6) =~= paste_start());
    assert(s.subrange(6, 6 + body.len() as int) =~= body);
    assert(s.subrange(6 + body.len() as int, 12 + body.len() as int) =~= paste_end());
    assert forall|j: int| 6 <= j < 6 + body.len() implies !#[trigger] bytes::occurs_at(
        s,
        paste_end(),
        j,
    ) by {
        if bytes::occurs_at(s, paste_end(), j) {
            assert(marker_at(s, j));
            lemma_marker_in_wrapped_body(body, j);
            assert(s.subrange(j, j + 6) =~= body.subrange(j - 6, j));
            assert(bytes::occurs_at(body, paste_end(), j - 6));
        }
    }
    bytes::lemma_find_from_is(s, paste_end(), 6, 6 + body.len() as int);
}

/// What comes after a whole paste does not change how it is decoded.
pub proof fn a_decoded_paste_stands_whatever_follows(
    input: Seq<u8>,
    tail: Seq<u8>,
    new_input_at: int,
)
    requires
        0 <= new_input_at,
        paste_decode(input, new_input_at) is Matched,
    ensures
        paste_decode(input + tail, new_input_at) == paste_decode(input, new_input_at),
{
    let all = input + tail;
    let from = paste_search_at(input.len() as int, new_input_at);
    assert(all.subrange(0, 6) =~= input.subrange(0, 6));
    bytes::lemma_find_from(input, paste_end(), from);
    let at = bytes::find_from(input, paste_end(), from)->0;
    assert(paste_search_at(all.len() as int, new_input_at) == from);
    assert(all.subrange(at, at + 6) =~= input.subrange(at, at + 6));
    assert forall|j: int| from <= j < at implies !#[trigger] bytes::occurs_at(
        all,
        paste_end(),
        j,
    ) by {
        assert(all.subrange(j, j + 6) =~= input.subrange(j, j + 6));
        assert(!bytes::occurs_at(input, paste_end(), j));
    }
    bytes::lemma_find_from_is(all, paste_end(), from, at);
}

/// A bracketed paste of text without the closing delimiter decodes to exactly that
/// text, whatever follows it in the input.
pub proof fn an_encoded_paste_decodes_before_any_tail(body: Seq<u8>, tail: Seq<u8>)
    requires
        forall|at: int| !#[trigger] bytes::occurs_at(body, paste_end(), at),
        body.len() + 12 <= usize::MAX,
    ensures
        paste_decode(encoded_paste(body, true) + tail, 0) == (BracketedPasteDecode::Matched {
            size: (body.len() + 12) as usize,
            body_start: 6,
            body_end: (body.len() + 6) as usize,
        }),
        (encoded_paste(body, true) + tail).subrange(6, 6 + body.len() as int) == body,
{
    decoding_an_encoded_paste_gives_its_body(body);
    a_decoded_paste_stands_whatever_follows(encoded_paste(body, true), tail, 0);
    assert((encoded_paste(body, true) + tail).subrange(6, 6 + body.len() as int) =~= body);
}

proof fn lemma_strip_pass_of_encoded(body: Seq<u8>)
    requires
        marker_free(body),
    ensures
        strip_pass(encoded_paste(body, true), 0) == body,
        marker_at(encoded_paste(body, true), 0),
{
    let s = encoded_paste(body, true);
    let end = 6 + body.len() as int;
    assert(s.subrange(0, 6) =~= paste_start());
    assert(s.subrange(end, end + 6) =~= paste_end());
    assert(marker_at(s, 0));
    assert(marker_at(s, end));
    assert forall|at: int| 6 <= at < end implies !#[trigger] marker_at(s, at) by {
        if marker_at(s, at) {
            lemma_marker_in_wrapped_body(body, at);
            assert(marker_at(body, at - 6));
        }
    }
    assert(strip_pass(s, end) == Seq::<u8>::empty()) by {
        assert(strip_pass(s, end) == strip_pass(s, end + 6));
        assert(strip_pass(s, end + 6) == Seq::<u8>::empty());
    }
    lemma_strip_pass_until(s, 6, end);
    assert(s.subrange(6, end) + Seq::<u8>::empty() =~= body);
    assert(strip_pass(s, 0) == strip_pass(s, 6));
}

/// Stripping a bracketed paste of marker-free text gives the text back.
pub proof fn stripping_an_encoded_paste_gives_its_body(body: Seq<u8>)
    requires
        marker_free(body),
    ensures
        stripped(encoded_paste(body, true)) == body,
{
    let s = encoded_paste(body, true);
    lemma_strip_pass_of_encoded(body);
    assert(!marker_free(s));
    assert(stripped(s) == stripped(strip_pass(s, 0)));
    stripping_keeps_marker_free_text(body);
}

proof fn lemma_strip_pass_until(s: Seq<u8>, from: int, to: int)
    requires
        0 <= from <= to <= s.len(),
        forall|at: int| from <= at < to ==> !#[trigger] marker_at(s, at),
    ensures
        strip_pass(s, from) == s.subrange(from, to) + strip_pass(s, to),
    decreases to - from,
{
    if from < to {
        assert(!marker_at(s, from));
        lemma_strip_pass_until(s, from + 1, to);
        assert(seq![s[from]] + (s.subrange(from + 1, to) + strip_pass(s, to)) =~= s.subrange(
            from,
            to,
        ) + strip_pass(s, to));
    } else {
        assert(s.subrange(from, to) + strip_pass(s, to) =~= strip_pass(s, to));
    }
}

/// Decoding resumed after an append agrees with decoding from scratch, where
/// what was retained had decoded to a partial paste.
pub proof fn resumed_paste_decode_agrees(retained: Seq<u8>, appended: Seq<u8>)
    requires
        paste_decode(retained, 0) == BracketedPasteDecode::Partial,
    ensures
        paste_decode(retained + appended, retained.len() as int) == paste_decode(
            retained + appended,
            0,
        ),
{
    let input = retained + appended;
    if bytes::has_prefix(input, paste_start()) {
        let full = paste_search_at(input.len() as int, 0);
        let resumed = paste_search_at(input.len() as int, retained.len() as int);
        assert forall|j: int| full <= j < resumed implies !#[trigger] bytes::occurs_at(
            input,
            paste_end(),
            j,
        ) by {
            if bytes::occurs_at(input, paste_end(), j) {
                assert(j + 6 <= retained.len());
                assert(retained.subrange(0, 6) =~= input.subrange(0, 6));
                assert(retained.subrange(j, j + 6) =~= input.subrange(j, j + 6));
                bytes::lemma_find_from(
                    retained,
                    paste_end(),
                    paste_search_at(retained.len() as int, 0),
                );
                assert(bytes::occurs_at(retained, paste_end(), j));
            }
        }
        bytes::lemma_find_from_skip(input, paste_end(), full, resumed);
    }
}

/// A bracketed paste is its text between `ESC [ 200 ~` and `ESC [ 201 ~`; without
/// brackets it is its text.
pub proof fn a_paste_stands_between_its_delimiters(body: Seq<u8>)
    ensures
        encoded_paste(body, true) == seq![0x1bu8, 0x5bu8, 0x32u8, 0x30u8, 0x30u8, 0x7eu8] + body
            + seq![0x1bu8, 0x5bu8, 0x32u8, 0x30u8, 0x31u8, 0x7eu8],
        encoded_paste(body, false) == body,
{
}

/// A paste that is open is waited for, and so is the opening delimiter once three of
/// its bytes stand; one byte or two of it may be a key, and are none.
pub proof fn an_open_paste_is_waited_for(body: Seq<u8>, cut: int)
    requires
        forall|at: int| !#[trigger] bytes::occurs_at(body, paste_end(), at),
        1 <= cut <= body.len() + 6,
        forall|i: int| 0 <= i < body.len() ==> #[trigger] body[i] != 0x1b,
    ensures
        ({
            let opened = seq![0x1bu8, 0x5bu8, 0x32u8, 0x30u8, 0x30u8, 0x7eu8] + body;
            paste_decode(opened.subrange(0, cut), 0) == if cut >= 3 {
                BracketedPasteDecode::Partial
            } else {
                BracketedPasteDecode::NotPaste
            }
        }),
{
    let start = seq![0x1bu8, 0x5bu8, 0x32u8, 0x30u8, 0x30u8, 0x7eu8];
    let opened = start + body;
    let input = opened.subrange(0, cut);
    if cut >= 6 {
        assert(input.subrange(0, 6) =~= start);
        bytes::lemma_find_from(input, paste_end(), paste_search_at(cut, 0));
        match bytes::find_from(input, paste_end(), paste_search_at(cut, 0)) {
            Some(at) => {
                assert(bytes::occurs_at(input, paste_end(), at));
                assert(input.subrange(at, at + 6)[0] == 0x1b);
                assert(input[at] == 0x1b);
                assert(input[at] == body[at - 6]);
            },
            None => {},
        }
    } else {
        assert(start.subrange(0, cut) =~= input);
        assert(paste_start().subrange(0, cut) =~= input);
    }
}

/// Input that no escape byte begins is no paste.
pub proof fn typed_text_is_no_paste(input: Seq<u8>, new_input_at: int)
    requires
        input.len() == 0 || input[0] != 0x1b,
    ensures
        paste_decode(input, new_input_at) is NotPaste,
{
    if input.len() >= 6 {
        assert(input.subrange(0, 6)[0] == input[0]);
    }
    if 3 <= input.len() <= 6 {
        assert(paste_start().subrange(0, input.len() as int)[0] == 0x1b);
    }
}

} // verus!
