//! Replies and reports that an attached terminal sends among its keys.
use crate::bytes;
use vstd::prelude::*;

verus! {

/// What a decoder finds at the front of its input.
#[derive(Debug, Clone, Copy, PartialEq, Eq, Structural)]
pub enum TerminalResponseDecode {
    /// The input does not begin a terminal control.
    NotResponse,
    /// The input may become a terminal control once more bytes arrive.
    Partial,
    /// A reply of `size` bytes that the pane asked for.
    PaneBound { size: usize },
    /// A control of `size` bytes that the server consumes.
    Matched { size: usize, event: Option<TerminalControlEvent> },
}

/// What a consumed control tells of the client's terminal.
#[derive(Debug, Clone, Copy, PartialEq, Eq, Structural)]
pub enum TerminalControlEvent {
    FocusIn,
    FocusOut,
    ClientLightTheme,
    ClientDarkTheme,
}

/// `ESC ]`.
pub open spec fn osc_introducer() -> Seq<u8> {
    seq![0x1bu8, 0x5du8]
}

/// `ESC [`.
pub open spec fn csi_introducer() -> Seq<u8> {
    seq![0x1bu8, 0x5bu8]
}

/// `p` is one of the operating system commands that the server consumes:
/// 4, 10, 11, 12 and 52.
pub open spec fn is_consumed_osc_prefix(p: Seq<u8>) -> bool {
    ||| p == seq![0x1bu8, 0x5du8, 0x34u8, 0x3bu8]
    ||| p == seq![0x1bu8, 0x5du8, 0x31u8, 0x30u8, 0x3bu8]
    ||| p == seq![0x1bu8, 0x5du8, 0x31u8, 0x31u8, 0x3bu8]
    ||| p == seq![0x1bu8, 0x5du8, 0x31u8, 0x32u8, 0x3bu8]
    ||| p == seq![0x1bu8, 0x5du8, 0x35u8, 0x32u8, 0x3bu8]
}

/// `s` stops short of a consumed prefix.
pub open spec fn begins_consumed_osc(s: Seq<u8>) -> bool {
    exists|p: Seq<u8>| #[trigger]
        is_consumed_osc_prefix(p) && s.len() < p.len() && bytes::has_prefix(p, s)
}

/// `s` begins with a consumed prefix.
pub open spec fn has_consumed_osc(s: Seq<u8>) -> bool {
    exists|p: Seq<u8>| #[trigger] is_consumed_osc_prefix(p) && bytes::has_prefix(s, p)
}

/// The end of a terminator of an operating system command that stands at `at`:
/// BEL, or `ESC \`.
pub open spec fn osc_end_at(s: Seq<u8>, at: int) -> Option<int> {
    if !(0 <= at < s.len()) {
        None
    } else if s[at] == 0x07 {
        Some(at + 1)
    } else if s[at] == 0x1b && at + 1 < s.len() && s[at + 1] == 0x5c {
        Some(at + 2)
    } else {
        None
    }
}

/// The end of the first terminator at or after `from`.
pub open spec fn osc_end_from(s: Seq<u8>, from: int) -> Option<int>
    decreases s.len() - from,
{
    if from < 0 || from >= s.len() {
        None
    } else if osc_end_at(s, from) is Some {
        osc_end_at(s, from)
    } else {
        osc_end_from(s, from + 1)
    }
}

/// The byte closes a control sequence.
pub open spec fn csi_final(byte: u8) -> bool {
    0x40 <= byte <= 0x7e
}

/// The first offset at or after `from` of a byte that closes a control sequence.
pub open spec fn csi_final_from(s: Seq<u8>, from: int) -> Option<int>
    decreases s.len() - from,
{
    if from < 0 || from >= s.len() {
        None
    } else if csi_final(s[from]) {
        Some(from)
    } else {
        csi_final_from(s, from + 1)
    }
}

/// `at` moved into `low..=len`; `len` wins where `low` is past it.
pub open spec fn clamp_search(at: int, low: int, len: int) -> int {
    let raised = if at < low {
        low
    } else {
        at
    };
    if raised < len {
        raised
    } else {
        len
    }
}

/// What `decode_osc_sequence` answers.
pub open spec fn osc_decode(input: Seq<u8>, new_input_at: int) -> TerminalResponseDecode {
    if !bytes::has_prefix(input, osc_introducer()) {
        TerminalResponseDecode::NotResponse
    } else if begins_consumed_osc(input) {
        TerminalResponseDecode::Partial
    } else if !has_consumed_osc(input) {
        TerminalResponseDecode::NotResponse
    } else {
        match osc_end_from(input, clamp_search(new_input_at - 1, 2, input.len() as int)) {
            Some(end) => TerminalResponseDecode::Matched { size: end as usize, event: None },
            None => TerminalResponseDecode::Partial,
        }
    }
}

/// The focus event at the front of `input`.
pub open spec fn focus_event(input: Seq<u8>) -> Option<TerminalControlEvent> {
    if bytes::has_prefix(input, seq![0x1bu8, 0x5bu8, 0x49u8]) {
        Some(TerminalControlEvent::FocusIn)
    } else if bytes::has_prefix(input, seq![0x1bu8, 0x5bu8, 0x4fu8]) {
        Some(TerminalControlEvent::FocusOut)
    } else {
        None
    }
}

/// What `decode_focus_response` answers.
pub open spec fn focus_decode(input: Seq<u8>) -> TerminalResponseDecode {
    match focus_event(input) {
        Some(event) => TerminalResponseDecode::Matched { size: 3, event: Some(event) },
        None => TerminalResponseDecode::NotResponse,
    }
}

/// `ESC [ ? 997 ; 1 n`.
pub open spec fn dark_theme_report() -> Seq<u8> {
    seq![0x1bu8, 0x5bu8, 0x3fu8, 0x39u8, 0x39u8, 0x37u8, 0x3bu8, 0x31u8, 0x6eu8]
}

/// `ESC [ ? 997 ; 2 n`.
pub open spec fn light_theme_report() -> Seq<u8> {
    seq![0x1bu8, 0x5bu8, 0x3fu8, 0x39u8, 0x39u8, 0x37u8, 0x3bu8, 0x32u8, 0x6eu8]
}

/// The theme that `report` announces.
pub open spec fn theme_report(report: Seq<u8>) -> Option<TerminalControlEvent> {
    if report == dark_theme_report() {
        Some(TerminalControlEvent::ClientDarkTheme)
    } else if report == light_theme_report() {
        Some(TerminalControlEvent::ClientLightTheme)
    } else {
        None
    }
}

/// The control sequence that closes at `final_index` is a mode report, `.. $ y`.
pub open spec fn decrpm_response(input: Seq<u8>, final_index: int) -> bool {
    2 < final_index <= input.len() && input[final_index - 1] == 0x24
}

/// A byte stands at offset 2 that a reply, unlike a key, may have there.
pub open spec fn plausible_prefix(input: Seq<u8>) -> bool {
    input.len() > 2 && (input[2] == 0x3f || input[2] == 0x3e || 0x30 <= input[2] <= 0x39)
}

/// What `decode_terminal_response_after_append` answers.
pub open spec fn response_decode(input: Seq<u8>, new_input_at: int) -> TerminalResponseDecode {
    if !bytes::has_prefix(input, csi_introducer()) {
        TerminalResponseDecode::NotResponse
    } else {
        match csi_final_from(input, clamp_search(new_input_at, 2, input.len() as int)) {
            None => if plausible_prefix(input) {
                TerminalResponseDecode::Partial
            } else {
                TerminalResponseDecode::NotResponse
            },
            Some(at) => {
                let size = (at + 1) as usize;
                if input[at] == 0x6e {
                    TerminalResponseDecode::Matched {
                        size,
                        event: theme_report(input.subrange(0, at + 1)),
                    }
                } else if input[at] == 0x63 || input[at] == 0x74 {
                    TerminalResponseDecode::Matched { size, event: None }
                } else if input[at] == 0x79 && decrpm_response(input, at) {
                    TerminalResponseDecode::Matched { size, event: None }
                } else if input[at] == 0x52 {
                    TerminalResponseDecode::PaneBound { size }
                } else {
                    TerminalResponseDecode::NotResponse
                }
            },
        }
    }
}

/// What `decode_attached_terminal_control_after_append` answers.
pub open spec fn attached_control_decode(
    input: Seq<u8>,
    focus_passthrough: bool,
    new_input_at: int,
) -> TerminalResponseDecode {
    if osc_decode(input, new_input_at) != TerminalResponseDecode::NotResponse {
        osc_decode(input, new_input_at)
    } else if !focus_passthrough && focus_decode(input) != TerminalResponseDecode::NotResponse {
        focus_decode(input)
    } else {
        response_decode(input, new_input_at)
    }
}

proof fn lemma_osc_end_from(s: Seq<u8>, from: int)
    requires
        0 <= from,
    ensures
        match osc_end_from(s, from) {
            Some(end) => exists|at: int|
                from <= at && #[trigger] osc_end_at(s, at) == Some(end) && (forall|j: int|
                    from <= j < at ==> #[trigger] osc_end_at(s, j) is None),
            None => forall|j: int| from <= j ==> #[trigger] osc_end_at(s, j) is None,
        },
    decreases s.len() - from,
{
    if from < s.len() {
        if osc_end_at(s, from) is Some {
            let end = osc_end_at(s, from)->0;
            assert(osc_end_at(s, from) == Some(end));
        } else {
            lemma_osc_end_from(s, from + 1);
            match osc_end_from(s, from + 1) {
                Some(end) => {
                    let at = choose|at: int|
                        from + 1 <= at && #[trigger] osc_end_at(s, at) == Some(end) && (forall|
                            j: int,
                        |
                            from + 1 <= j < at ==> #[trigger] osc_end_at(s, j) is None);
                    assert forall|j: int| from <= j < at implies #[trigger] osc_end_at(
                        s,
                        j,
                    ) is None by {}
                },
                None => {},
            }
        }
    }
}

proof fn lemma_osc_end_from_skip(s: Seq<u8>, from: int, later: int)
    requires
        0 <= from <= later,
        forall|j: int| from <= j < later ==> #[trigger] osc_end_at(s, j) is None,
    ensures
        osc_end_from(s, from) == osc_end_from(s, later),
    decreases later - from,
{
    if from < later && from < s.len() {
        assert(osc_end_at(s, from) is None);
        lemma_osc_end_from_skip(s, from + 1, later);
    }
}

proof fn lemma_csi_final_from(s: Seq<u8>, from: int)
    requires
        0 <= from,
    ensures
        match csi_final_from(s, from) {
            Some(at) => {
                &&& from <= at < s.len()
                &&& csi_final(s[at])
                &&& forall|j: int| from <= j < at ==> !csi_final(#[trigger] s[j])
            },
            None => forall|j: int| from <= j < s.len() ==> !csi_final(#[trigger] s[j]),
        },
    decreases s.len() - from,
{
    if from < s.len() && !csi_final(s[from]) {
        lemma_csi_final_from(s, from + 1);
    }
}

proof fn lemma_csi_final_from_skip(s: Seq<u8>, from: int, later: int)
    requires
        0 <= from <= later,
        forall|j: int| from <= j < later && j < s.len() ==> !csi_final(#[trigger] s[j]),
    ensures
        csi_final_from(s, from) == csi_final_from(s, later),
    decreases later - from,
{
    if from < later && from < s.len() {
        lemma_csi_final_from_skip(s, from + 1, later);
    }
}

/// Decodes a terminal control at the front of `input`.
pub fn decode_attached_terminal_control(input: &[u8], focus_passthrough: bool) -> (decoded:
    TerminalResponseDecode)
    ensures
        decoded == attached_control_decode(input@, focus_passthrough, 0),
{
    decode_attached_terminal_control_after_append(input, focus_passthrough, 0)
}

/// Decodes a terminal control at the front of `input`, whose first
/// `new_input_at` bytes were retained as a partial control. Focus events are
/// left for the pane where `focus_passthrough` is set.
pub fn decode_attached_terminal_control_after_append(
    input: &[u8],
    focus_passthrough: bool,
    new_input_at: usize,
) -> (decoded: TerminalResponseDecode)
    ensures
        decoded == attached_control_decode(input@, focus_passthrough, new_input_at as int),
{
    let osc = decode_osc_sequence(input, new_input_at);
    if osc != TerminalResponseDecode::NotResponse {
        return osc;
    }
    if !focus_passthrough {
        let focus = decode_focus_response(input);
        if focus != TerminalResponseDecode::NotResponse {
            return focus;
        }
    }
    decode_terminal_response_after_append(input, new_input_at)
}

/// Decodes a control-sequence reply at the front of `input`.
pub fn decode_terminal_response(input: &[u8]) -> (decoded: TerminalResponseDecode)
    ensures
        decoded == response_decode(input@, 0),
{
    decode_terminal_response_after_append(input, 0)
}

/// Decodes a control-sequence reply at the front of `input`, whose first
/// `new_input_at` bytes were retained and hold no closing byte.
pub fn decode_terminal_response_after_append(input: &[u8], new_input_at: usize) -> (decoded:
    TerminalResponseDecode)
    ensures
        decoded == response_decode(input@, new_input_at as int),
{
    let introducer: [u8; 2] = [0x1b, 0x5b];
    assert(introducer@ =~= csi_introducer());
    if !bytes::starts_with(input, introducer.as_slice()) {
        return TerminalResponseDecode::NotResponse;
    }
    let search_at: usize = search_start(new_input_at, input.len());
    let mut at: usize = search_at;
    while at < input.len() && !is_csi_final(input[at])
        invariant
            search_at <= at <= input@.len(),
            csi_final_from(input@, search_at as int) == csi_final_from(input@, at as int),
        decreases input.len() - at,
    {
        at = at + 1;
    }
    if at == input.len() {
        return if is_plausible_terminal_response_prefix(input) {
            TerminalResponseDecode::Partial
        } else {
            TerminalResponseDecode::NotResponse
        };
    }
    let byte: u8 = input[at];
    if byte == 0x6e {
        matched(at + 1, decode_theme_report(input, at))
    } else if byte == 0x63 || byte == 0x74 {
        matched(at + 1, None)
    } else if byte == 0x79 && is_decrpm_response(input, at) {
        matched(at + 1, None)
    } else if byte == 0x52 {
        TerminalResponseDecode::PaneBound { size: at + 1 }
    } else {
        TerminalResponseDecode::NotResponse
    }
}

fn search_start(at: usize, len: usize) -> (start: usize)
    ensures
        start == clamp_search(at as int, 2, len as int),
{
    let raised: usize = if at < 2 {
        2
    } else {
        at
    };
    if raised < len {
        raised
    } else {
        len
    }
}

/// A consumed control of `size` bytes.
pub fn matched(size: usize, event: Option<TerminalControlEvent>) -> (decoded:
    TerminalResponseDecode)
    ensures
        decoded == (TerminalResponseDecode::Matched { size, event }),
{
    TerminalResponseDecode::Matched { size, event }
}

/// Whether the control sequence that closes at `final_index` is a mode report.
pub fn is_decrpm_response(input: &[u8], final_index: usize) -> (report: bool)
    ensures
        report == decrpm_response(input@, final_index as int),
{
    final_index > 2 && final_index - 1 < input.len() && input[final_index - 1] == 0x24
}

/// The focus event at the front of `input`.
pub fn decode_focus_event(input: &[u8]) -> (event: Option<TerminalControlEvent>)
    ensures
        event == focus_event(input@),
{
    let focus_in: [u8; 3] = [0x1b, 0x5b, 0x49];
    assert(focus_in@ =~= seq![0x1bu8, 0x5bu8, 0x49u8]);
    if bytes::starts_with(input, focus_in.as_slice()) {
        return Some(TerminalControlEvent::FocusIn);
    }
    let focus_out: [u8; 3] = [0x1b, 0x5b, 0x4f];
    assert(focus_out@ =~= seq![0x1bu8, 0x5bu8, 0x4fu8]);
    if bytes::starts_with(input, focus_out.as_slice()) {
        return Some(TerminalControlEvent::FocusOut);
    }
    None
}

/// The focus event at the front of `input` as a consumed control.
pub fn decode_focus_response(input: &[u8]) -> (decoded: TerminalResponseDecode)
    ensures
        decoded == focus_decode(input@),
{
    match decode_focus_event(input) {
        Some(event) => matched(3, Some(event)),
        None => TerminalResponseDecode::NotResponse,
    }
}

/// The theme announced by the control sequence that closes at `final_index`.
pub fn decode_theme_report(input: &[u8], final_index: usize) -> (event: Option<
    TerminalControlEvent,
>)
    requires
        final_index < input@.len(),
    ensures
        event == theme_report(input@.subrange(0, final_index + 1)),
{
    if final_index != 8 {
        assert(input@.subrange(0, final_index + 1).len() != 9);
        assert(dark_theme_report().len() == 9 && light_theme_report().len() == 9);
        return None;
    }
    let dark: [u8; 9] = [0x1b, 0x5b, 0x3f, 0x39, 0x39, 0x37, 0x3b, 0x31, 0x6e];
    let light: [u8; 9] = [0x1b, 0x5b, 0x3f, 0x39, 0x39, 0x37, 0x3b, 0x32, 0x6e];
    assert(dark@ =~= dark_theme_report());
    assert(light@ =~= light_theme_report());
    if bytes::starts_with(input, dark.as_slice()) {
        Some(TerminalControlEvent::ClientDarkTheme)
    } else if bytes::starts_with(input, light.as_slice()) {
        Some(TerminalControlEvent::ClientLightTheme)
    } else {
        None
    }
}

/// How `input` stands to one consumed prefix: it stops short of it, begins with
/// it, or neither.
fn against_prefix(input: &[u8], prefix: &[u8]) -> (relation: (bool, bool))
    ensures
        relation.0 == (input@.len() < prefix@.len() && bytes::has_prefix(prefix@, input@)),
        relation.1 == bytes::has_prefix(input@, prefix@),
{
    (
        input.len() < prefix.len() && bytes::starts_with(prefix, input),
        bytes::starts_with(input, prefix),
    )
}

/// How `input` stands to the consumed prefixes: it stops short of one, begins
/// with one.
fn against_consumed_prefixes(input: &[u8]) -> (relation: (bool, bool))
    ensures
        relation.0 == begins_consumed_osc(input@),
        relation.1 == has_consumed_osc(input@),
{
    let p4: [u8; 4] = [0x1b, 0x5d, 0x34, 0x3b];
    let p10: [u8; 5] = [0x1b, 0x5d, 0x31, 0x30, 0x3b];
    let p11: [u8; 5] = [0x1b, 0x5d, 0x31, 0x31, 0x3b];
    let p12: [u8; 5] = [0x1b, 0x5d, 0x31, 0x32, 0x3b];
    let p52: [u8; 5] = [0x1b, 0x5d, 0x35, 0x32, 0x3b];
    assert(p4@ =~= seq![0x1bu8, 0x5du8, 0x34u8, 0x3bu8]);
    assert(p10@ =~= seq![0x1bu8, 0x5du8, 0x31u8, 0x30u8, 0x3bu8]);
    assert(p11@ =~= seq![0x1bu8, 0x5du8, 0x31u8, 0x31u8, 0x3bu8]);
    assert(p12@ =~= seq![0x1bu8, 0x5du8, 0x31u8, 0x32u8, 0x3bu8]);
    assert(p52@ =~= seq![0x1bu8, 0x5du8, 0x35u8, 0x32u8, 0x3bu8]);
    assert(is_consumed_osc_prefix(p4@) && is_consumed_osc_prefix(p10@) && is_consumed_osc_prefix(
        p11@,
    ) && is_consumed_osc_prefix(p12@) && is_consumed_osc_prefix(p52@));
    let r4 = against_prefix(input, p4.as_slice());
    let r10 = against_prefix(input, p10.as_slice());
    let r11 = against_prefix(input, p11.as_slice());
    let r12 = against_prefix(input, p12.as_slice());
    let r52 = against_prefix(input, p52.as_slice());
    (r4.0 || r10.0 || r11.0 || r12.0 || r52.0, r4.1 || r10.1 || r11.1 || r12.1 || r52.1)
}

/// Decodes an operating system command at the front of `input`, whose first
/// `new_input_at` bytes were retained and hold no whole terminator.
pub fn decode_osc_sequence(input: &[u8], new_input_at: usize) -> (decoded: TerminalResponseDecode)
    ensures
        decoded == osc_decode(input@, new_input_at as int),
{
    let introducer: [u8; 2] = [0x1b, 0x5d];
    assert(introducer@ =~= osc_introducer());
    if !bytes::starts_with(input, introducer.as_slice()) {
        return TerminalResponseDecode::NotResponse;
    }
    let (stops_short, begins) = against_consumed_prefixes(input);
    if stops_short {
        return TerminalResponseDecode::Partial;
    }
    if !begins {
        return TerminalResponseDecode::NotResponse;
    }
    let search_at: usize = search_start(new_input_at.saturating_sub(1), input.len());
    let mut index: usize = search_at;
    while index < input.len()
        invariant
            search_at <= index <= input@.len(),
            osc_end_from(input@, search_at as int) == osc_end_from(input@, index as int),
            osc_decode(input@, new_input_at as int) == match osc_end_from(
                input@,
                search_at as int,
            ) {
                Some(end) => TerminalResponseDecode::Matched { size: end as usize, event: None },
                None => TerminalResponseDecode::Partial,
            },
        decreases input.len() - index,
    {
        let byte: u8 = input[index];
        if byte == 0x07 {
            return matched(index + 1, None);
        }
        if byte == 0x1b && input.len() - index > 1 && input[index + 1] == 0x5c {
            return matched(index + 2, None);
        }
        index = index + 1;
    }
    TerminalResponseDecode::Partial
}

/// Whether a byte stands at offset 2 that a reply, unlike a key, may have there.
pub fn is_plausible_terminal_response_prefix(input: &[u8]) -> (plausible: bool)
    ensures
        plausible == plausible_prefix(input@),
{
    input.len() > 2 && (input[2] == 0x3f || input[2] == 0x3e || (input[2] >= 0x30 && input[2]
        <= 0x39))
}

/// Whether `byte` closes a control sequence.
pub fn is_csi_final(byte: u8) -> (closes: bool)
    ensures
        closes == csi_final(byte),
{
    byte >= 0x40 && byte <= 0x7e
}

/// A decoded control lies within the input and is not empty.
pub proof fn decoded_controls_lie_within_the_input(
    input: Seq<u8>,
    focus_passthrough: bool,
    new_input_at: int,
)
    requires
        input.len() <= usize::MAX,
        0 <= new_input_at,
    ensures
        match attached_control_decode(input, focus_passthrough, new_input_at) {
            TerminalResponseDecode::PaneBound { size } => 0 < size <= input.len(),
            TerminalResponseDecode::Matched { size, .. } => 0 < size <= input.len(),
            _ => true,
        },
{
    lemma_osc_end_from(input, clamp_search(new_input_at - 1, 2, input.len() as int));
    lemma_csi_final_from(input, clamp_search(new_input_at, 2, input.len() as int));
}

proof fn lemma_osc_end_stays(retained: Seq<u8>, appended: Seq<u8>, at: int)
    requires
        osc_end_at(retained + appended, at) is Some,
        0 <= at,
        at + 1 < retained.len(),
    ensures
        osc_end_at(retained, at) is Some,
{
}

/// Decoding resumed after an append agrees with decoding from scratch, where
/// what was retained had decoded to a partial control.
pub proof fn resumed_control_decode_agrees(
    retained: Seq<u8>,
    appended: Seq<u8>,
    focus_passthrough: bool,
)
    requires
        attached_control_decode(retained, focus_passthrough, 0) == TerminalResponseDecode::Partial,
    ensures
        attached_control_decode(retained + appended, focus_passthrough, retained.len() as int)
            == attached_control_decode(retained + appended, focus_passthrough, 0),
{
    let input = retained + appended;
    let len = input.len() as int;
    let n = retained.len() as int;
    if osc_decode(retained, 0) == TerminalResponseDecode::Partial {
        let full = clamp_search(-1, 2, len);
        let resumed = clamp_search(n - 1, 2, len);
        assert forall|j: int| full <= j < resumed implies #[trigger] osc_end_at(
            input,
            j,
        ) is None by {
            if osc_end_at(input, j) is Some {
                lemma_osc_end_stays(retained, appended, j);
                if begins_consumed_osc(retained) {
                    let p = choose|p: Seq<u8>| #[trigger]
                        is_consumed_osc_prefix(p) && retained.len() < p.len() && bytes::has_prefix(
                            p,
                            retained,
                        );
                    assert(retained[j] == p.subrange(0, n)[j]);
                    assert(p[j] == retained[j]);
                } else {
                    lemma_osc_end_from(retained, clamp_search(-1, 2, n));
                }
            }
        }
        lemma_osc_end_from_skip(input, full, resumed);
        assert(input[0] == retained[0] && input[1] == retained[1]);
        assert(retained.subrange(0, 2)[1] == 0x5d);
        assert(bytes::has_prefix(input, osc_introducer())) by {
            assert(input.subrange(0, 2) =~= retained.subrange(0, 2));
        }
        assert(!bytes::has_prefix(input, csi_introducer())) by {
            assert(input.subrange(0, 2)[1] == 0x5d);
        }
        assert(focus_event(input) is None) by {
            if input.len() >= 3 {
                assert(input.subrange(0, 3)[1] == 0x5d);
            }
        }
    } else {
        assert(response_decode(retained, 0) == TerminalResponseDecode::Partial);
        assert(retained.subrange(0, 2)[1] == 0x5b);
        assert(input[1] == 0x5b);
        assert(!bytes::has_prefix(input, osc_introducer())) by {
            assert(input.subrange(0, 2)[1] == 0x5b);
        }
        let full = clamp_search(0, 2, len);
        let resumed = clamp_search(n, 2, len);
        lemma_csi_final_from(retained, clamp_search(0, 2, n));
        assert forall|j: int| full <= j < resumed && j < input.len() implies !csi_final(
            #[trigger] input[j],
        ) by {
            assert(input[j] == retained[j]);
        }
        lemma_csi_final_from_skip(input, full, resumed);
    }
}

proof fn lemma_osc_end_before_tail(s: Seq<u8>, tail: Seq<u8>, from: int)
    requires
        0 <= from,
        osc_end_from(s, from) is Some,
    ensures
        osc_end_from(s + tail, from) == osc_end_from(s, from),
    decreases s.len() - from,
{
    if osc_end_at(s, from) is None {
        lemma_osc_end_before_tail(s, tail, from + 1);
        assert(osc_end_at(s + tail, from) is None);
    }
}

proof fn lemma_csi_final_before_tail(s: Seq<u8>, tail: Seq<u8>, from: int)
    requires
        0 <= from,
        csi_final_from(s, from) is Some,
    ensures
        csi_final_from(s + tail, from) == csi_final_from(s, from),
    decreases s.len() - from,
{
    if !csi_final(s[from]) {
        lemma_csi_final_before_tail(s, tail, from + 1);
    }
}

proof fn lemma_osc_before_tail(input: Seq<u8>, tail: Seq<u8>, new_input_at: int)
    requires
        0 <= new_input_at,
        osc_decode(input, new_input_at) is Matched,
    ensures
        osc_decode(input + tail, new_input_at) == osc_decode(input, new_input_at),
{
    let all = input + tail;
    assert(all.subrange(0, 2) =~= input.subrange(0, 2));
    let p = choose|p: Seq<u8>| #[trigger] is_consumed_osc_prefix(p) && bytes::has_prefix(input, p);
    assert(all.subrange(0, p.len() as int) =~= input.subrange(0, p.len() as int));
    assert(bytes::has_prefix(all, p));
    if begins_consumed_osc(all) {
        let longer = choose|q: Seq<u8>| #[trigger]
            is_consumed_osc_prefix(q) && all.len() < q.len() && bytes::has_prefix(q, all);
        assert(longer.subrange(0, input.len() as int) =~= longer.subrange(
            0,
            all.len() as int,
        ).subrange(0, input.len() as int));
        assert(all.subrange(0, input.len() as int) =~= input);
        assert(bytes::has_prefix(longer, input));
        assert(begins_consumed_osc(input));
    }
    let from = clamp_search(new_input_at - 1, 2, input.len() as int);
    assert(clamp_search(new_input_at - 1, 2, all.len() as int) == from);
    lemma_osc_end_before_tail(input, tail, from);
}

/// What comes after a whole control does not change how it is decoded.
pub proof fn a_decoded_control_stands_whatever_follows(
    input: Seq<u8>,
    tail: Seq<u8>,
    focus_passthrough: bool,
    new_input_at: int,
)
    requires
        0 <= new_input_at,
        ({
            let decoded = attached_control_decode(input, focus_passthrough, new_input_at);
            decoded is Matched || decoded is PaneBound
        }),
    ensures
        attached_control_decode(input + tail, focus_passthrough, new_input_at)
            == attached_control_decode(input, focus_passthrough, new_input_at),
{
    let all = input + tail;
    if osc_decode(input, new_input_at) is Matched {
        lemma_osc_before_tail(input, tail, new_input_at);
    } else {
        assert(osc_decode(input, new_input_at) == TerminalResponseDecode::NotResponse);
        if !focus_passthrough && focus_event(input) is Some {
            assert(input.len() >= 3);
            assert(all.subrange(0, 3) =~= input.subrange(0, 3));
            assert(input.subrange(0, 3)[1] == 0x5b);
        } else {
            let from = clamp_search(new_input_at, 2, input.len() as int);
            lemma_csi_final_from(input, from);
            let at = csi_final_from(input, from)->0;
            assert(clamp_search(new_input_at, 2, all.len() as int) == from);
            lemma_csi_final_before_tail(input, tail, from);
            assert(input.len() >= 3);
            assert(all.subrange(0, 2) =~= input.subrange(0, 2));
            assert(all.subrange(0, 3) =~= input.subrange(0, 3));
            assert(all.subrange(0, at + 1) =~= input.subrange(0, at + 1));
            assert(input.subrange(0, 2)[1] == 0x5b);
        }
        assert(!bytes::has_prefix(all, osc_introducer())) by {
            assert(all[1] == 0x5b);
            assert(all.subrange(0, 2)[1] == 0x5b);
        }
    }
}

/// The decimal digits of a number below a hundred.
pub open spec fn command_digits(n: int) -> Seq<u8> {
    if n < 10 {
        seq![(0x30 + n) as u8]
    } else {
        seq![(0x30 + n / 10) as u8, (0x30 + n % 10) as u8]
    }
}

/// `ESC ]`, the command number `n`, a semicolon, and `rest`.
pub open spec fn numbered_command(n: int, rest: Seq<u8>) -> Seq<u8> {
    seq![0x1bu8, 0x5du8] + command_digits(n) + seq![0x3bu8] + rest
}

proof fn lemma_numbered_command(n: int, rest: Seq<u8>)
    requires
        0 <= n < 100,
    ensures
        ({
            let input = numbered_command(n, rest);
            let at = command_digits(n).len();
            &&& input.len() == at + 3 + rest.len()
            &&& input[0] == 0x1b && input[1] == 0x5d && input[at + 2 as int] == 0x3b
            &&& n < 10 ==> input[2] == 0x30 + n
            &&& n >= 10 ==> input[2] == 0x30 + n / 10 && input[3] == 0x30 + n % 10
            &&& forall|j: int|
                at + 3 <= j < input.len() ==> #[trigger] input[j] == rest[j - at - 3]
            &&& bytes::has_prefix(input, osc_introducer())
            &&& !begins_consumed_osc(input)
            &&& has_consumed_osc(input) == (n == 4 || n == 10 || n == 11 || n == 12 || n == 52)
        }),
{
    let input = numbered_command(n, rest);
    let at = command_digits(n).len() as int;
    assert(input.subrange(0, 2) =~= osc_introducer());
    assert(0 <= n / 10 < 10 && 0 <= n % 10 < 10 && n == 10 * (n / 10) + n % 10);
    assert forall|p: Seq<u8>| #[trigger] is_consumed_osc_prefix(p) implies !(input.len() < p.len()
        && bytes::has_prefix(p, input)) by {
        if input.len() < p.len() && bytes::has_prefix(p, input) {
            assert(p.subrange(0, input.len() as int)[at + 2] == 0x3b);
        }
    }
    let own = seq![0x1bu8, 0x5du8] + command_digits(n) + seq![0x3bu8];
    assert(input.subrange(0, own.len() as int) =~= own);
    if n == 4 {
        assert(own =~= seq![0x1bu8, 0x5du8, 0x34u8, 0x3bu8]);
    }
    if n == 10 {
        assert(own =~= seq![0x1bu8, 0x5du8, 0x31u8, 0x30u8, 0x3bu8]);
    }
    if n == 11 {
        assert(own =~= seq![0x1bu8, 0x5du8, 0x31u8, 0x31u8, 0x3bu8]);
    }
    if n == 12 {
        assert(own =~= seq![0x1bu8, 0x5du8, 0x31u8, 0x32u8, 0x3bu8]);
    }
    if n == 52 {
        assert(own =~= seq![0x1bu8, 0x5du8, 0x35u8, 0x32u8, 0x3bu8]);
    }
    if n == 4 || n == 10 || n == 11 || n == 12 || n == 52 {
        assert(is_consumed_osc_prefix(own) && bytes::has_prefix(input, own));
    } else {
        assert forall|p: Seq<u8>| #[trigger] is_consumed_osc_prefix(p) implies !bytes::has_prefix(
            input,
            p,
        ) by {
            if bytes::has_prefix(input, p) {
                assert(input.subrange(0, p.len() as int)[2] == input[2]);
                assert(input.subrange(0, p.len() as int)[3] == input[3]);
                if p.len() == 5 {
                    assert(input.subrange(0, p.len() as int)[4] == input[4]);
                }
            }
        }
    }
}

/// A palette, colour or clipboard report, which is a command numbered 4, 10, 11, 12 or
/// 52 that BEL or `ESC \` ends, is consumed whole, up to its own end and no further,
/// whatever its text is and whatever follows.
pub proof fn numbered_reports_are_consumed(
    n: int,
    body: Seq<u8>,
    bell: bool,
    tail: Seq<u8>,
    focus_passthrough: bool,
)
    requires
        n == 4 || n == 10 || n == 11 || n == 12 || n == 52,
        forall|i: int| 0 <= i < body.len() ==> #[trigger] body[i] != 0x07 && body[i] != 0x1b,
        body.len() + tail.len() + 7 <= usize::MAX,
    ensures
        ({
            let digits = if n == 4 {
                1int
            } else {
                2
            };
            let end = if bell {
                seq![0x07u8]
            } else {
                seq![0x1bu8, 0x5cu8]
            };
            attached_control_decode(
                numbered_command(n, body + end + tail),
                focus_passthrough,
                0,
            ) == (TerminalResponseDecode::Matched {
                size: (3 + digits + body.len() + end.len()) as usize,
                event: None,
            })
        }),
{
    let end = if bell {
        seq![0x07u8]
    } else {
        seq![0x1bu8, 0x5cu8]
    };
    let rest = body + end + tail;
    let input = numbered_command(n, rest);
    lemma_numbered_command(n, rest);
    let at = command_digits(n).len() + 3 + body.len() as int;
    assert forall|j: int| 2 <= j < at implies #[trigger] osc_end_at(input, j) is None by {
        if j >= command_digits(n).len() + 3 {
            let k = j - command_digits(n).len() - 3;
            assert(input[j] == rest[k] && rest[k] == body[k]);
        }
    }
    lemma_osc_end_from_skip(input, 2, at);
    assert(input[at] == rest[body.len() as int] && rest[body.len() as int] == end[0]);
    if !bell {
        assert(input[at + 1] == rest[body.len() as int + 1] && rest[body.len() as int + 1] == end[1]);
    }
    assert(osc_end_at(input, at) == Some(at + end.len()));
}

/// A report with one of these numbers that has not ended yet is waited for, as is what
/// may still become one.
pub proof fn unended_reports_are_waited_for(n: int, body: Seq<u8>, cut: int, focus_passthrough: bool)
    requires
        n == 4 || n == 10 || n == 11 || n == 12 || n == 52,
        forall|i: int| 0 <= i < body.len() ==> #[trigger] body[i] != 0x07 && body[i] != 0x1b,
        2 <= cut <= numbered_command(n, body).len(),
    ensures
        attached_control_decode(
            numbered_command(n, body).subrange(0, cut),
            focus_passthrough,
            0,
        ) is Partial,
{
    let whole = numbered_command(n, body);
    let input = whole.subrange(0, cut);
    lemma_numbered_command(n, body);
    let own = numbered_command(n, seq![]);
    lemma_numbered_command(n, seq![]);
    assert(input.subrange(0, 2) =~= whole.subrange(0, 2));
    assert(bytes::has_prefix(input, osc_introducer()));
    let held = choose|p: Seq<u8>| #[trigger] is_consumed_osc_prefix(p) && bytes::has_prefix(own, p);
    assert(own =~= held) by {
        assert(own.subrange(0, held.len() as int)[held.len() - 1] == 0x3b);
    }
    assert(whole.subrange(0, own.len() as int) =~= own);
    if cut < own.len() {
        assert(own.subrange(0, cut) =~= input);
        assert(is_consumed_osc_prefix(held) && bytes::has_prefix(held, input));
        assert(begins_consumed_osc(input));
    } else {
        assert(input.subrange(0, own.len() as int) =~= own);
        assert(is_consumed_osc_prefix(held) && bytes::has_prefix(input, held));
        assert forall|j: int| 2 <= j implies #[trigger] osc_end_at(input, j) is None by {
            if own.len() <= j < cut {
                assert(input[j] == whole[j] && whole[j] == body[j - own.len()]);
            }
        }
        lemma_osc_end_from(input, clamp_search(-1, 2, cut));
    }
}

/// A command with any other number is none of the server's: it is left as input.
pub proof fn other_numbered_commands_are_left(n: int, rest: Seq<u8>, focus_passthrough: bool)
    requires
        0 <= n < 100,
        n != 4 && n != 10 && n != 11 && n != 12 && n != 52,
    ensures
        attached_control_decode(numbered_command(n, rest), focus_passthrough, 0) is NotResponse,
{
    lemma_numbered_command(n, rest);
    lemma_no_control_sequence(numbered_command(n, rest));
}

proof fn lemma_no_control_sequence(input: Seq<u8>)
    requires
        input.len() >= 2,
        input[0] != 0x1b || input[1] != 0x5b,
    ensures
        !bytes::has_prefix(input, csi_introducer()),
        focus_event(input) is None,
{
    assert(input.subrange(0, 2)[0] == input[0] && input.subrange(0, 2)[1] == input[1]);
    if input.len() >= 3 {
        assert(input.subrange(0, 3)[0] == input[0] && input.subrange(0, 3)[1] == input[1]);
    }
}

/// Input that no escape byte begins is no terminal control.
pub proof fn typed_text_is_no_control(input: Seq<u8>, focus_passthrough: bool, new_input_at: int)
    requires
        input.len() == 0 || input[0] != 0x1b,
    ensures
        attached_control_decode(input, focus_passthrough, new_input_at) is NotResponse,
{
    if input.len() >= 2 {
        lemma_no_control_sequence(input);
        assert(input.subrange(0, 2)[0] == input[0]);
    }
}

/// `ESC [`, bytes none of which closes it, the byte that does, and what follows.
pub open spec fn control_sequence(body: Seq<u8>, closing: u8, tail: Seq<u8>) -> Seq<u8> {
    seq![0x1bu8, 0x5bu8] + body + seq![closing] + tail
}

proof fn lemma_control_sequence(body: Seq<u8>, closing: u8, tail: Seq<u8>)
    requires
        forall|i: int| 0 <= i < body.len() ==> !(0x40 <= #[trigger] body[i] <= 0x7e),
        0x40 <= closing <= 0x7e,
    ensures
        ({
            let input = control_sequence(body, closing, tail);
            &&& osc_decode(input, 0) is NotResponse
            &&& bytes::has_prefix(input, csi_introducer())
            &&& csi_final_from(input, clamp_search(0, 2, input.len() as int)) == Some(
                2 + body.len() as int,
            )
            &&& input[2 + body.len() as int] == closing
            &&& input.len() == 3 + body.len() + tail.len()
            &&& forall|j: int| 2 <= j < 2 + body.len() ==> #[trigger] input[j] == body[j - 2]
            &&& focus_event(input) is Some ==> body.len() == 0 && (closing == 0x49 || closing
                == 0x4f)
            &&& body.len() == 0 && closing == 0x49 ==> focus_event(input) == Some(
                TerminalControlEvent::FocusIn,
            )
            &&& body.len() == 0 && closing == 0x4f ==> focus_event(input) == Some(
                TerminalControlEvent::FocusOut,
            )
        }),
{
    let input = control_sequence(body, closing, tail);
    assert(input.subrange(0, 2) =~= csi_introducer());
    assert(input.subrange(0, 2)[1] == 0x5b);
    assert forall|j: int| 2 <= j < 2 + body.len() && j < input.len() implies !csi_final(
        #[trigger] input[j],
    ) by {
        assert(input[j] == body[j - 2]);
    }
    lemma_csi_final_from_skip(input, 2, 2 + body.len() as int);
    assert(input.len() >= 3);
    assert(input.subrange(0, 3)[2] == input[2]);
    if body.len() == 0 && closing == 0x49 {
        assert(input.subrange(0, 3) =~= seq![0x1bu8, 0x5bu8, 0x49u8]);
    }
    if body.len() == 0 && closing == 0x4f {
        assert(input.subrange(0, 3) =~= seq![0x1bu8, 0x5bu8, 0x4fu8]);
        assert(input.subrange(0, 3)[2] != 0x49);
    }
    if body.len() > 0 {
        assert(input[2] == body[0]);
    }
}

/// Which control sequences are replies is told by how they close: device attributes,
/// `c`, window reports, `t`, status reports, `n`, and mode reports, `$ y`, are consumed
/// whole; a cursor position, `R`, is for the pane that asked; no other is a reply.
pub proof fn a_reply_is_told_by_how_it_closes(
    body: Seq<u8>,
    closing: u8,
    tail: Seq<u8>,
    focus_passthrough: bool,
)
    requires
        forall|i: int| 0 <= i < body.len() ==> !(0x40 <= #[trigger] body[i] <= 0x7e),
        0x40 <= closing <= 0x7e,
        body.len() + tail.len() + 3 <= usize::MAX,
    ensures
        ({
            let decoded = attached_control_decode(
                control_sequence(body, closing, tail),
                focus_passthrough,
                0,
            );
            let size = (body.len() + 3) as usize;
            &&& closing == 0x63 || closing == 0x74 ==> decoded == (TerminalResponseDecode::Matched {
                size,
                event: None,
            })
            &&& closing == 0x6e ==> (decoded matches TerminalResponseDecode::Matched {
                size: taken,
                ..
            } && taken == size)
            &&& closing == 0x79 && body.len() > 0 && body.last() == 0x24 ==> decoded == (
            TerminalResponseDecode::Matched { size, event: None })
            &&& closing == 0x79 && (body.len() == 0 || body.last() != 0x24)
                ==> decoded is NotResponse
            &&& closing == 0x52 ==> decoded == (TerminalResponseDecode::PaneBound { size })
            &&& closing != 0x63 && closing != 0x74 && closing != 0x6e && closing != 0x79 && closing
                != 0x52 && closing != 0x49 && closing != 0x4f ==> decoded is NotResponse
        }),
{
    lemma_control_sequence(body, closing, tail);
    if body.len() > 0 {
        let input = control_sequence(body, closing, tail);
        assert(input[body.len() as int + 1] == body.last());
    }
}

/// The reports of a dark and of a light theme are told apart, and are consumed whole;
/// no other status report announces a theme.
pub proof fn theme_reports_are_told_apart(body: Seq<u8>, tail: Seq<u8>, focus_passthrough: bool)
    requires
        forall|i: int| 0 <= i < body.len() ==> !(0x40 <= #[trigger] body[i] <= 0x7e),
        body.len() + tail.len() + 3 <= usize::MAX,
    ensures
        attached_control_decode(control_sequence(body, 0x6e, tail), focus_passthrough, 0) == (
        TerminalResponseDecode::Matched {
            size: (body.len() + 3) as usize,
            event: if body == seq![0x3fu8, 0x39u8, 0x39u8, 0x37u8, 0x3bu8, 0x31u8] {
                Some(TerminalControlEvent::ClientDarkTheme)
            } else if body == seq![0x3fu8, 0x39u8, 0x39u8, 0x37u8, 0x3bu8, 0x32u8] {
                Some(TerminalControlEvent::ClientLightTheme)
            } else {
                None
            },
        }),
{
    lemma_control_sequence(body, 0x6e, tail);
    let input = control_sequence(body, 0x6e, tail);
    let report = input.subrange(0, body.len() as int + 3);
    let introduced = seq![0x1bu8, 0x5bu8] + body + seq![0x6eu8];
    assert(report =~= introduced);
    let dark = seq![0x3fu8, 0x39u8, 0x39u8, 0x37u8, 0x3bu8, 0x31u8];
    let light = seq![0x3fu8, 0x39u8, 0x39u8, 0x37u8, 0x3bu8, 0x32u8];
    assert(report.subrange(2, report.len() - 1) =~= body);
    assert(dark_theme_report().subrange(2, 8) =~= dark);
    assert(light_theme_report().subrange(2, 8) =~= light);
    assert(dark[5] != light[5]);
    assert(dark_theme_report() =~= seq![0x1bu8, 0x5bu8] + dark + seq![0x6eu8]);
    assert(light_theme_report() =~= seq![0x1bu8, 0x5bu8] + light + seq![0x6eu8]);
    if report == dark_theme_report() {
        assert(body == dark);
    }
    if report == light_theme_report() {
        assert(body == light);
    }
}

/// A focus report is an event of three bytes where focus is the server's to tell, and
/// left alone where the pane is to see it.
pub proof fn focus_reports_are_told_apart(tail: Seq<u8>)
    ensures
        attached_control_decode(control_sequence(seq![], 0x49, tail), false, 0) == (
        TerminalResponseDecode::Matched { size: 3, event: Some(TerminalControlEvent::FocusIn) }),
        attached_control_decode(control_sequence(seq![], 0x4f, tail), false, 0) == (
        TerminalResponseDecode::Matched { size: 3, event: Some(TerminalControlEvent::FocusOut) }),
        attached_control_decode(control_sequence(seq![], 0x49, tail), true, 0) is NotResponse,
        attached_control_decode(control_sequence(seq![], 0x4f, tail), true, 0) is NotResponse,
{
    lemma_control_sequence(seq![], 0x49, tail);
    lemma_control_sequence(seq![], 0x4f, tail);
}

/// A control sequence that has not closed yet is waited for where it begins as only a
/// reply does, with `?`, `>` or a digit, and else left for the keys.
pub proof fn an_unclosed_reply_is_waited_for(body: Seq<u8>, focus_passthrough: bool)
    requires
        forall|i: int| 0 <= i < body.len() ==> !(0x40 <= #[trigger] body[i] <= 0x7e),
    ensures
        attached_control_decode(seq![0x1bu8, 0x5bu8] + body, focus_passthrough, 0) == if body.len()
            > 0 && (body[0] == 0x3f || body[0] == 0x3e || 0x30 <= body[0] <= 0x39) {
            TerminalResponseDecode::Partial
        } else {
            TerminalResponseDecode::NotResponse
        },
{
    let input = seq![0x1bu8, 0x5bu8] + body;
    assert(input.subrange(0, 2) =~= csi_introducer());
    assert(input.subrange(0, 2)[1] == 0x5b);
    assert forall|j: int| 2 <= j < input.len() implies !csi_final(#[trigger] input[j]) by {
        assert(input[j] == body[j - 2]);
    }
    lemma_csi_final_from(input, clamp_search(0, 2, input.len() as int));
    if input.len() >= 3 {
        assert(input.subrange(0, 3)[2] == input[2]);
    }
}

} // verus!
