//! Mouse reports in the form that terminals send.
use crate::text;
use vstd::prelude::*;

verus! {

/// One more, or the largest.
pub open spec fn one_more(n: u16) -> nat {
    if n == u16::MAX {
        u16::MAX as nat
    } else {
        (n + 1) as nat
    }
}

/// A mouse report in words: the button, and column and row from one up.
pub open spec fn report_text(button: u16, x: u16, y: u16) -> Seq<char> {
    "\x1b[<"@ + text::decimal(button as nat) + ";"@ + text::decimal(one_more(x)) + ";"@
        + text::decimal(one_more(y)) + "M"@
}

/// The report of a mouse button at a place, column and row from zero up.
pub fn sgr_mouse(button: u16, x: u16, y: u16) -> (report: Vec<u8>)
    ensures
        report@ == vstd::utf8::encode_utf8(report_text(button, x, y)),
{
    let mut text = "\x1b[<".to_owned();
    text::push_decimal(&mut text, button as u64);
    text.append(";");
    text::push_decimal(&mut text, x.saturating_add(1) as u64);
    text.append(";");
    text::push_decimal(&mut text, y.saturating_add(1) as u64);
    text.append("M");
    text.as_str().as_bytes_vec()
}

/// A report gives the button and then, counted from one, the column and the row.
pub proof fn a_report_counts_from_one(button: u16, x: u16, y: u16, report: Vec<u8>)
    requires
        call_ensures(sgr_mouse, (button, x, y), report),
        x < u16::MAX && y < u16::MAX,
    ensures
        report@ == vstd::utf8::encode_utf8(
            "\x1b[<"@ + text::decimal(button as nat) + ";"@ + text::decimal((x + 1) as nat) + ";"@
                + text::decimal((y + 1) as nat) + "M"@,
        ),
{
}

/// The last column and the last row that can be told are told as themselves.
pub proof fn a_report_stops_at_the_last_place(button: u16, report: Vec<u8>)
    requires
        call_ensures(sgr_mouse, (button, u16::MAX, u16::MAX), report),
    ensures
        report@ == vstd::utf8::encode_utf8(
            "\x1b[<"@ + text::decimal(button as nat) + ";"@ + text::decimal(65535) + ";"@
                + text::decimal(65535) + "M"@,
        ),
{
}

} // verus!
