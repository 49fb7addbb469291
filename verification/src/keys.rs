//! Key codes and how attached input becomes keys.
use vstd::prelude::*;

verus! {

/// A key: a Unicode scalar or a named key, with modifier bits.
pub type KeyCode = u64;

/// The key was typed with Meta.
pub const KEYC_META: u64 = 0x0000_1000_0000_0000;

/// The key was typed with Control.
pub const KEYC_CTRL: u64 = 0x0000_2000_0000_0000;

/// The key was typed with Shift.
pub const KEYC_SHIFT: u64 = 0x0000_4000_0000_0000;

/// Meta was inferred from a leading escape byte.
pub const KEYC_IMPLIED_META: u64 = 0x0008_0000_0000_0000;

/// The bits by which key tables are searched: the key and its modifiers.
pub const KEYC_LOOKUP_MASK: u64 = 0x0000_ffff_ffff_ffff;

/// What a decoder finds at the front of its input.
#[derive(Debug, Clone, Copy, PartialEq, Eq, Structural)]
pub enum AttachedKeyDecode {
    Matched { size: usize, key: KeyCode },
    Partial,
    Invalid,
}

/// The bits of `key` by which key tables are searched.
pub fn key_code_lookup_bits(key: KeyCode) -> (bits: KeyCode)
    ensures
        bits == key & KEYC_LOOKUP_MASK,
{
    key & KEYC_LOOKUP_MASK
}

/// `key` is the prefix key or the second prefix key, flags aside.
pub open spec fn is_prefix_key(
    key: KeyCode,
    prefix: Option<KeyCode>,
    prefix2: Option<KeyCode>,
) -> bool {
    ||| prefix matches Some(p) && p & KEYC_LOOKUP_MASK == key & KEYC_LOOKUP_MASK
    ||| prefix2 matches Some(p) && p & KEYC_LOOKUP_MASK == key & KEYC_LOOKUP_MASK
}

/// Whether `key` is the prefix key or the second prefix key.
pub fn matches_prefix_key(key: KeyCode, prefix: Option<KeyCode>, prefix2: Option<KeyCode>) -> (is:
    bool)
    ensures
        is == is_prefix_key(key, prefix, prefix2),
{
    let bits: u64 = key_code_lookup_bits(key);
    let first = match prefix {
        Some(p) => key_code_lookup_bits(p) == bits,
        None => false,
    };
    let second = match prefix2 {
        Some(p) => key_code_lookup_bits(p) == bits,
        None => false,
    };
    first || second
}

/// The scalar at the front of UTF-8 text and how many bytes it takes.
pub open spec fn first_scalar(input: Seq<u8>) -> Option<(u32, int)> {
    if vstd::utf8::valid_first_scalar(input) {
        Some((vstd::utf8::decode_first_scalar(input), vstd::utf8::length_of_first_scalar(input)))
    } else {
        None
    }
}

/// The scalar at the front of `input` and how many bytes it takes.
pub fn decode_utf8_char(input: &[u8]) -> (decoded: Option<(u32, usize)>)
    ensures
        match decoded {
            Some((scalar, size)) => first_scalar(input@) == Some((scalar, size as int)) && 0 < size
                <= input@.len(),
            None => first_scalar(input@) is None,
        },
{
    if input.len() == 0 {
        return None;
    }
    let b0: u8 = input[0];
    if b0 <= 0x7f {
        let scalar: u32 = (b0 & 0x7f) as u32;
        assert((b0 & 0x7f) as u32 <= 0x7f) by (bit_vector);
        return Some((scalar, 1));
    }
    if b0 >= 0xc0 && b0 <= 0xdf {
        if input.len() < 2 || !is_continuation(input[1]) {
            return None;
        }
        let b1: u8 = input[1];
        let scalar: u32 = (((b0 & 0x1f) as u32) << 6) | ((b1 & 0x3f) as u32);
        assert((((b0 & 0x1f) as u32) << 6) | ((b1 & 0x3f) as u32) <= 0x7ff) by (bit_vector);
        return if scalar >= 0x80 {
            Some((scalar, 2))
        } else {
            None
        };
    }
    if b0 >= 0xe0 && b0 <= 0xef {
        if input.len() < 3 || !is_continuation(input[1]) || !is_continuation(input[2]) {
            return None;
        }
        let b1: u8 = input[1];
        let b2: u8 = input[2];
        let scalar: u32 = (((b0 & 0x0f) as u32) << 12) | (((b1 & 0x3f) as u32) << 6) | ((b2
            & 0x3f) as u32);
        return if scalar >= 0x800 && !(scalar >= 0xd800 && scalar <= 0xdfff) {
            Some((scalar, 3))
        } else {
            None
        };
    }
    if b0 >= 0xf0 && b0 <= 0xf7 {
        if input.len() < 4 || !is_continuation(input[1]) || !is_continuation(input[2])
            || !is_continuation(input[3]) {
            return None;
        }
        let b1: u8 = input[1];
        let b2: u8 = input[2];
        let b3: u8 = input[3];
        let scalar: u32 = (((b0 & 0x07) as u32) << 18) | (((b1 & 0x3f) as u32) << 12) | (((b2
            & 0x3f) as u32) << 6) | ((b3 & 0x3f) as u32);
        return if scalar >= 0x10000 && scalar <= 0x10ffff {
            Some((scalar, 4))
        } else {
            None
        };
    }
    None
}

fn is_continuation(byte: u8) -> (is: bool)
    ensures
        is == vstd::utf8::is_continuation_byte(byte),
{
    byte >= 0x80 && byte <= 0xbf
}

/// How many bytes the scalar led by `byte` takes; 1 where `byte` leads none.
pub open spec fn scalar_len(byte: u8) -> int {
    if 0xc2 <= byte <= 0xdf {
        2
    } else if 0xe0 <= byte <= 0xef {
        3
    } else if 0xf0 <= byte <= 0xf4 {
        4
    } else {
        1
    }
}

/// Whether `byte` leads a scalar of two bytes or more.
pub fn is_utf8_lead_byte(byte: u8) -> (leads: bool)
    ensures
        leads == (scalar_len(byte) > 1),
{
    byte >= 0xc2 && byte <= 0xf4
}

/// How many bytes the scalar led by `byte` takes; 1 where `byte` leads none.
pub fn utf8_expected_len(byte: u8) -> (len: usize)
    ensures
        len == scalar_len(byte),
{
    if byte >= 0xc2 && byte <= 0xdf {
        2
    } else if byte >= 0xe0 && byte <= 0xef {
        3
    } else if byte >= 0xf0 && byte <= 0xf4 {
        4
    } else {
        1
    }
}

/// Text led by a byte of a longer scalar ends before the scalar does.
pub open spec fn scalar_is_cut_off(text: Seq<u8>) -> bool {
    text.len() > 0 && scalar_len(text[0]) > 1 && text.len() < scalar_len(text[0])
}

/// A key of UTF-8 text, with `modifiers`, after `skipped` bytes.
pub open spec fn text_key_decode(text: Seq<u8>, skipped: int, modifiers: u64) -> AttachedKeyDecode {
    match first_scalar(text) {
        Some((scalar, size)) => AttachedKeyDecode::Matched {
            size: (skipped + size) as usize,
            key: scalar as u64 | modifiers,
        },
        None => if scalar_is_cut_off(text) {
            AttachedKeyDecode::Partial
        } else {
            AttachedKeyDecode::Invalid
        },
    }
}

/// What `decode_live_attached_key` answers: where the key decoder finds no key,
/// the input is UTF-8 text, typed with Meta where an escape byte leads it.
pub open spec fn live_key_decode(input: Seq<u8>, decoded: AttachedKeyDecode) -> AttachedKeyDecode {
    if decoded != AttachedKeyDecode::Invalid {
        decoded
    } else if input.len() == 0 {
        AttachedKeyDecode::Partial
    } else if input[0] != 0x1b {
        text_key_decode(input, 0, 0)
    } else if input.len() == 1 {
        AttachedKeyDecode::Partial
    } else if input[1] < 0x80 {
        AttachedKeyDecode::Invalid
    } else {
        text_key_decode(input.subrange(1, input.len() as int), 1, KEYC_META | KEYC_IMPLIED_META)
    }
}

/// A scalar at the front of `input` lies within it.
pub proof fn lemma_first_scalar_fits(input: Seq<u8>)
    ensures
        first_scalar(input) matches Some((_, size)) ==> 0 < size <= input.len(),
{
}

/// A key decoded at the front of `input` lies within it, where what the key
/// decoder answered does.
pub proof fn lemma_live_key_fits(input: Seq<u8>, decoded: AttachedKeyDecode)
    requires
        input.len() <= usize::MAX,
        decoded matches AttachedKeyDecode::Matched { size, .. } ==> size <= input.len(),
    ensures
        live_key_decode(input, decoded) matches AttachedKeyDecode::Matched { size, .. } ==> size
            <= input.len(),
{
    lemma_first_scalar_fits(input);
    if input.len() > 0 {
        lemma_first_scalar_fits(input.subrange(1, input.len() as int));
    }
}

/// The key at the front of `input`, where `decoded` is what the key decoder
/// answers of the same bytes.
pub fn decode_live_attached_key(input: &[u8], decoded: AttachedKeyDecode) -> (key:
    AttachedKeyDecode)
    ensures
        key == live_key_decode(input@, decoded),
        decoded == AttachedKeyDecode::Invalid ==> (key matches AttachedKeyDecode::Matched {
            size,
            ..
        } ==> 0 < size <= input@.len()),
{
    if decoded != AttachedKeyDecode::Invalid {
        return decoded;
    }
    if input.len() == 0 {
        return AttachedKeyDecode::Partial;
    }
    if input[0] != 0x1b {
        return decode_text_key(input, 0, 0);
    }
    if input.len() == 1 {
        return AttachedKeyDecode::Partial;
    }
    if input[1] < 0x80 {
        return AttachedKeyDecode::Invalid;
    }
    let text = vstd::slice::slice_subrange(input, 1, input.len());
    decode_text_key(text, 1, KEYC_META | KEYC_IMPLIED_META)
}

fn decode_text_key(text: &[u8], skipped: usize, modifiers: u64) -> (key: AttachedKeyDecode)
    requires
        text@.len() > 0,
        skipped + text@.len() <= usize::MAX,
    ensures
        key == text_key_decode(text@, skipped as int, modifiers),
        key matches AttachedKeyDecode::Matched { size, .. } ==> skipped < size <= skipped
            + text@.len(),
{
    match decode_utf8_char(text) {
        Some((scalar, size)) => AttachedKeyDecode::Matched {
            size: skipped + size,
            key: scalar as u64 | modifiers,
        },
        None => {
            if is_utf8_lead_byte(text[0]) && text.len() < utf8_expected_len(text[0]) {
                AttachedKeyDecode::Partial
            } else {
                AttachedKeyDecode::Invalid
            }
        },
    }
}

/// The first key of `input` is a prefix key.
pub open spec fn starts_with_prefix_key(
    input: Seq<u8>,
    decoded: AttachedKeyDecode,
    prefix: Option<KeyCode>,
    prefix2: Option<KeyCode>,
) -> bool {
    live_key_decode(input, decoded) matches AttachedKeyDecode::Matched { key, .. }
        && is_prefix_key(key, prefix, prefix2)
}

/// Whether the first key of `bytes` is a prefix key, where `decoded` is what
/// the key decoder answers of the same bytes.
pub fn first_input_key_matches_prefix(
    bytes: &[u8],
    decoded: AttachedKeyDecode,
    prefix: Option<KeyCode>,
    prefix2: Option<KeyCode>,
) -> (matches: bool)
    ensures
        matches == starts_with_prefix_key(bytes@, decoded, prefix, prefix2),
{
    match decode_live_attached_key(bytes, decoded) {
        AttachedKeyDecode::Matched { size: _, key } => matches_prefix_key(key, prefix, prefix2),
        _ => false,
    }
}

/// Whether a prefix key begins anywhere in `bytes`, where `decoded` has, for
/// each offset, what the key decoder answers of the bytes from there on.
pub fn input_contains_prefix(
    bytes: &[u8],
    decoded: &[AttachedKeyDecode],
    prefix: Option<KeyCode>,
    prefix2: Option<KeyCode>,
) -> (contains: bool)
    requires
        decoded@.len() == bytes@.len(),
    ensures
        contains == exists|at: int|
            0 <= at < bytes@.len() && #[trigger] starts_with_prefix_key(
                bytes@.subrange(at, bytes@.len() as int),
                decoded@[at],
                prefix,
                prefix2,
            ),
{
    let mut at: usize = 0;
    while at < bytes.len()
        invariant
            at <= bytes@.len(),
            decoded@.len() == bytes@.len(),
            forall|k: int|
                0 <= k < at ==> !#[trigger] starts_with_prefix_key(
                    bytes@.subrange(k, bytes@.len() as int),
                    decoded@[k],
                    prefix,
                    prefix2,
                ),
        decreases bytes.len() - at,
    {
        let rest = vstd::slice::slice_subrange(bytes, at, bytes.len());
        if first_input_key_matches_prefix(rest, decoded[at], prefix, prefix2) {
            assert(starts_with_prefix_key(
                bytes@.subrange(at as int, bytes@.len() as int),
                decoded@[at as int],
                prefix,
                prefix2,
            ));
            return true;
        }
        at = at + 1;
    }
    false
}

/// A key event of a Windows console.
#[derive(Debug, Clone, Copy, PartialEq, Eq, Structural)]
pub struct WindowsConsoleKeyEvent {
    pub virtual_key_code: u16,
    pub virtual_scan_code: u16,
    pub unicode_char: u16,
    pub control_key_state: u32,
    pub repeat_count: u16,
}

impl WindowsConsoleKeyEvent {
    /// An event of these parts.
    pub fn new(
        virtual_key_code: u16,
        virtual_scan_code: u16,
        unicode_char: u16,
        control_key_state: u32,
        repeat_count: u16,
    ) -> (event: Self)
        ensures
            event == (WindowsConsoleKeyEvent {
                virtual_key_code,
                virtual_scan_code,
                unicode_char,
                control_key_state,
                repeat_count,
            }),
    {
        WindowsConsoleKeyEvent {
            virtual_key_code,
            virtual_scan_code,
            unicode_char,
            control_key_state,
            repeat_count,
        }
    }
}

/// The right Alt key is down.
pub const RIGHT_ALT_PRESSED: u32 = 0x0001;

/// The left Alt key is down.
pub const LEFT_ALT_PRESSED: u32 = 0x0002;

/// The right Control key is down.
pub const RIGHT_CTRL_PRESSED: u32 = 0x0004;

/// The left Control key is down.
pub const LEFT_CTRL_PRESSED: u32 = 0x0008;

/// Control was held, and not as a part of AltGr or of a left-Alt chord.
pub open spec fn holds_plain_control(state: u32) -> bool {
    &&& state & (LEFT_CTRL_PRESSED | RIGHT_CTRL_PRESSED) != 0
    &&& state & RIGHT_ALT_PRESSED == 0
    &&& (state & LEFT_ALT_PRESSED == 0 || state & RIGHT_CTRL_PRESSED != 0)
}

/// `c`, an ASCII capital made small.
pub open spec fn ascii_lowercase(c: u16) -> u64 {
    if 0x41 <= c <= 0x5a {
        (c + 0x20) as u64
    } else {
        c as u64
    }
}

/// The key that a console event with Control stands for, where it differs from
/// the decoded one: a printable ASCII character with Control, keeping the Meta
/// and Shift of the decoded key.
pub open spec fn console_control_key(decoded: KeyCode, key: WindowsConsoleKeyEvent) -> Option<
    KeyCode,
> {
    if decoded & KEYC_CTRL == 0 && holds_plain_control(key.control_key_state) && 0x20
        <= key.unicode_char <= 0x7e {
        Some(
            ascii_lowercase(key.unicode_char) | KEYC_CTRL | (decoded & (KEYC_META
                | KEYC_IMPLIED_META | KEYC_SHIFT)),
        )
    } else {
        None
    }
}

/// The key that a console event with Control stands for, where it differs from
/// the decoded one.
pub fn windows_console_binding_override_key(
    decoded: KeyCode,
    key: WindowsConsoleKeyEvent,
) -> (bound: Option<KeyCode>)
    ensures
        bound == console_control_key(decoded, key),
{
    let state: u32 = key.control_key_state;
    if decoded & KEYC_CTRL != 0 || state & (LEFT_CTRL_PRESSED | RIGHT_CTRL_PRESSED) == 0 {
        return None;
    }
    if state & RIGHT_ALT_PRESSED != 0 {
        return None;
    }
    if state & LEFT_ALT_PRESSED != 0 && state & RIGHT_CTRL_PRESSED == 0 {
        return None;
    }
    let character: u16 = key.unicode_char;
    if character < 0x20 || character > 0x7e {
        return None;
    }
    let lower: u64 = if character >= 0x41 && character <= 0x5a {
        (character + 0x20) as u64
    } else {
        character as u64
    };
    Some(lower | KEYC_CTRL | (decoded & (KEYC_META | KEYC_IMPLIED_META | KEYC_SHIFT)))
}

/// The key to look up for a console event that decoded to `decoded`.
pub fn windows_console_binding_key(decoded: KeyCode, key: WindowsConsoleKeyEvent) -> (bound:
    KeyCode)
    ensures
        bound == match console_control_key(decoded, key) {
            Some(bound) => bound,
            None => decoded,
        },
{
    match windows_console_binding_override_key(decoded, key) {
        Some(bound) => bound,
        None => decoded,
    }
}

/// AltGr, the right Alt key with a Control bit, never makes a Control key.
pub proof fn alt_gr_is_never_control(decoded: KeyCode, key: WindowsConsoleKeyEvent)
    requires
        key.control_key_state & RIGHT_ALT_PRESSED != 0,
    ensures
        console_control_key(decoded, key) is None,
{
}

/// A key is a prefix key where it is either of the two, modifiers and all, whatever is
/// flagged above them; without prefix keys none is.
pub proof fn a_prefix_key_is_either_of_the_two(
    key: KeyCode,
    other: KeyCode,
    unrelated: Option<KeyCode>,
)
    ensures
        is_prefix_key(key, Some(key), unrelated),
        is_prefix_key(key, unrelated, Some(key)),
        is_prefix_key(key | 0x0008_0000_0000_0000, Some(key), None),
        is_prefix_key(key, Some(other), None) == ((key ^ other) & 0x0000_ffff_ffff_ffff == 0),
        is_prefix_key(key, None, Some(other)) == ((key ^ other) & 0x0000_ffff_ffff_ffff == 0),
        !is_prefix_key(key, None, None),
{
    assert((key | 0x0008_0000_0000_0000) & 0x0000_ffff_ffff_ffff == key & 0x0000_ffff_ffff_ffff)
        by (bit_vector);
    assert((other & 0x0000_ffff_ffff_ffff == key & 0x0000_ffff_ffff_ffff) == ((key ^ other)
        & 0x0000_ffff_ffff_ffff == 0)) by (bit_vector);
}

/// Text is waited for while fewer bytes of it stand than its first byte announces: two,
/// three or four. No other byte announces more than itself.
pub proof fn a_cut_off_scalar_is_waited_for(text: Seq<u8>)
    requires
        text.len() > 0,
    ensures
        0xc2 <= text[0] <= 0xdf ==> scalar_is_cut_off(text) == (text.len() < 2),
        0xe0 <= text[0] <= 0xef ==> scalar_is_cut_off(text) == (text.len() < 3),
        0xf0 <= text[0] <= 0xf4 ==> scalar_is_cut_off(text) == (text.len() < 4),
        text[0] < 0xc2 || text[0] > 0xf4 ==> !scalar_is_cut_off(text),
{
}

/// What the key decoder finds stands. Where it finds nothing, text is its own key, of
/// exactly its own bytes; after an escape byte it is the same key with Meta, one byte
/// longer; an escape byte alone is waited for.
pub proof fn undecoded_text_is_its_own_key(text: Seq<u8>, decoded: AttachedKeyDecode)
    requires
        text.len() < usize::MAX,
    ensures
        decoded !is Invalid ==> live_key_decode(text, decoded) == decoded,
        live_key_decode(seq![0x1bu8], AttachedKeyDecode::Invalid) is Partial,
        live_key_decode(seq![], AttachedKeyDecode::Invalid) is Partial,
        text.len() > 0 && text[0] < 0x80 ==> live_key_decode(
            seq![0x1bu8] + text,
            AttachedKeyDecode::Invalid,
        ) is Invalid,
        text.len() > 0 && text[0] != 0x1b && vstd::utf8::valid_first_scalar(text) ==> live_key_decode(
            text,
            AttachedKeyDecode::Invalid,
        ) == (AttachedKeyDecode::Matched {
            size: vstd::utf8::length_of_first_scalar(text) as usize,
            key: vstd::utf8::decode_first_scalar(text) as u64,
        }),
        text.len() > 0 && text[0] >= 0x80 && vstd::utf8::valid_first_scalar(text)
            ==> live_key_decode(seq![0x1bu8] + text, AttachedKeyDecode::Invalid) == (
        AttachedKeyDecode::Matched {
            size: (vstd::utf8::length_of_first_scalar(text) + 1) as usize,
            key: vstd::utf8::decode_first_scalar(text) as u64 | 0x0008_1000_0000_0000,
        }),
        text.len() > 0 && !vstd::utf8::valid_first_scalar(text) && text[0] != 0x1b ==> (
        live_key_decode(text, AttachedKeyDecode::Invalid) is Partial == scalar_is_cut_off(text)),
{
    let escaped = seq![0x1bu8] + text;
    assert(escaped.subrange(1, escaped.len() as int) =~= text);
    let key = vstd::utf8::decode_first_scalar(text) as u64;
    assert(key | 0 == key) by (bit_vector);
    assert(key | (0x0000_1000_0000_0000u64 | 0x0008_0000_0000_0000u64) == key
        | 0x0008_1000_0000_0000u64) by (bit_vector);
    if text.len() > 0 {
        assert(escaped[1] == text[0]);
    }
}

/// A console event with a Control key held is its printable character, a capital made
/// small, with Control, keeping Meta and Shift of the decoded key; a left Alt key held
/// with the left Control key alone makes no Control key, nor does a key that has it.
pub proof fn a_console_event_with_control_is_a_control_key(
    decoded: KeyCode,
    key: WindowsConsoleKeyEvent,
)
    ensures
        ({
            let state = key.control_key_state;
            let bound = console_control_key(decoded, key);
            let c = key.unicode_char;
            &&& state & 0x000c == 0 ==> bound is None
            &&& state & 0x0001 != 0 ==> bound is None
            &&& state & 0x000e == 0x000a ==> bound is None
            &&& decoded & 0x0000_2000_0000_0000 != 0 ==> bound is None
            &&& c < 0x20 || c > 0x7e ==> bound is None
            &&& decoded & 0x0000_2000_0000_0000 == 0 && 0x20 <= c <= 0x7e && (state & 0x000f == 0x0008
                || state & 0x000f == 0x0004 || state & 0x000f == 0x000c || state & 0x000f == 0x0006
                || state & 0x000f == 0x000e) ==> bound == Some(
                (if 0x41 <= c <= 0x5a {
                    (c + 0x20) as u64
                } else {
                    c as u64
                }) | 0x0000_2000_0000_0000 | (decoded & 0x0008_5000_0000_0000),
            )
        }),
{
    let state = key.control_key_state;
    assert(state & (8u32 | 4u32) == state & 0x000c) by (bit_vector);
    assert(state & 0x000e == 0x000a ==> state & 2 != 0 && state & 4 == 0) by (bit_vector);
    assert(state & 0x000f == 0x0008 ==> state & 0x000c != 0 && state & 1 == 0 && state & 2 == 0)
        by (bit_vector);
    assert(state & 0x000f == 0x0004 ==> state & 0x000c != 0 && state & 1 == 0 && state & 2 == 0)
        by (bit_vector);
    assert(state & 0x000f == 0x000c ==> state & 0x000c != 0 && state & 1 == 0 && state & 2 == 0)
        by (bit_vector);
    assert(state & 0x000f == 0x0006 ==> state & 0x000c != 0 && state & 1 == 0 && state & 4 != 0)
        by (bit_vector);
    assert(state & 0x000f == 0x000e ==> state & 0x000c != 0 && state & 1 == 0 && state & 4 != 0)
        by (bit_vector);
    assert(decoded & (0x0000_1000_0000_0000u64 | 0x0008_0000_0000_0000u64 | 0x0000_4000_0000_0000u64)
        == decoded & 0x0008_5000_0000_0000u64) by (bit_vector);
}

} // verus!
