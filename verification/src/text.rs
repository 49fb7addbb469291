//! Text building.
use vstd::prelude::*;

verus! {

/// The decimal digit of `d`.
pub open spec fn digit(d: nat) -> char {
    (0x30 + d) as char
}

/// `n` in decimal.
pub open spec fn decimal(n: nat) -> Seq<char>
    decreases n,
{
    if n < 10 {
        seq![digit(n)]
    } else {
        decimal(n / 10).push(digit(n % 10))
    }
}

fn digit_text(d: u64) -> (text: &'static str)
    requires
        d < 10,
    ensures
        text@ == seq![digit(d as nat)],
{
    proof {
        reveal_strlit("0");
        reveal_strlit("1");
        reveal_strlit("2");
        reveal_strlit("3");
        reveal_strlit("4");
        reveal_strlit("5");
        reveal_strlit("6");
        reveal_strlit("7");
        reveal_strlit("8");
        reveal_strlit("9");
    }
    let text = if d == 0 {
        "0"
    } else if d == 1 {
        "1"
    } else if d == 2 {
        "2"
    } else if d == 3 {
        "3"
    } else if d == 4 {
        "4"
    } else if d == 5 {
        "5"
    } else if d == 6 {
        "6"
    } else if d == 7 {
        "7"
    } else if d == 8 {
        "8"
    } else {
        "9"
    };
    assert(text@ =~= seq![digit(d as nat)]);
    text
}

/// Appends `n` in decimal.
pub fn push_decimal(text: &mut String, n: u64)
    ensures
        final(text)@ == old(text)@ + decimal(n as nat),
    decreases n,
{
    if n >= 10 {
        push_decimal(text, n / 10);
    }
    text.append(digit_text(n % 10));
    assert(text@ =~= old(text)@ + decimal(n as nat));
}

/// `n` in decimal.
pub fn decimal_text(n: u64) -> (text: String)
    ensures
        text@ == decimal(n as nat),
{
    let mut text = String::new();
    push_decimal(&mut text, n);
    assert(text@ =~= decimal(n as nat));
    text
}

/// `n` in decimal, with a minus sign where it is negative.
pub open spec fn signed_decimal(n: int) -> Seq<char> {
    if n < 0 {
        "-"@ + decimal((-n) as nat)
    } else {
        decimal(n as nat)
    }
}

/// Appends `n` in decimal.
pub fn push_signed_decimal(text: &mut String, n: i64)
    ensures
        final(text)@ == old(text)@ + signed_decimal(n as int),
{
    if n >= 0 {
        push_decimal(text, n as u64);
    } else {
        text.append("-");
        let magnitude: u64 = if n == i64::MIN {
            9_223_372_036_854_775_808
        } else {
            (-n) as u64
        };
        push_decimal(text, magnitude);
        assert(text@ =~= old(text)@ + signed_decimal(n as int));
    }
}

/// `first` followed by `second`.
pub fn concat2(first: &str, second: &str) -> (text: String)
    ensures
        text@ == first@ + second@,
{
    let mut text = first.to_owned();
    text.append(second);
    text
}

/// `first`, `second` and `third`, in order.
pub fn concat3(first: &str, second: &str, third: &str) -> (text: String)
    ensures
        text@ == first@ + second@ + third@,
{
    let mut text = first.to_owned();
    text.append(second);
    text.append(third);
    text
}

/// Whether two texts are equal.
pub fn same_text(a: &str, b: &str) -> (same: bool)
    ensures
        same == (a@ == b@),
{
    let len: usize = a.unicode_len();
    if len != b.unicode_len() {
        return false;
    }
    let mut i: usize = 0;
    while i < len
        invariant
            i <= len,
            len == a@.len(),
            len == b@.len(),
            forall|k: int| 0 <= k < i ==> a@[k] == b@[k],
        decreases len - i,
    {
        if a.get_char(i) != b.get_char(i) {
            return false;
        }
        i = i + 1;
    }
    assert(a@ =~= b@);
    true
}

/// The offset of the first `c` at or after `from`.
pub open spec fn char_from(s: Seq<char>, c: char, from: int) -> Option<int>
    decreases s.len() - from,
{
    if from < 0 || from >= s.len() {
        None
    } else if s[from] == c {
        Some(from)
    } else {
        char_from(s, c, from + 1)
    }
}

/// What `char_from` answers, said without recursion.
pub proof fn lemma_char_from(s: Seq<char>, c: char, from: int)
    requires
        0 <= from,
    ensures
        match char_from(s, c, from) {
            Some(at) => from <= at < s.len() && s[at] == c && forall|j: int|
                from <= j < at ==> #[trigger] s[j] != c,
            None => forall|j: int| from <= j < s.len() ==> #[trigger] s[j] != c,
        },
    decreases s.len() - from,
{
    if from < s.len() && s[from] != c {
        lemma_char_from(s, c, from + 1);
    }
}

/// A line that ended in a line feed, without a carriage return before it.
pub open spec fn without_carriage_return(line: Seq<char>) -> Seq<char> {
    if line.len() > 0 && line.last() == '\r' {
        line.drop_last()
    } else {
        line
    }
}

/// The lines of `s` from `from` on, without their line ends. What follows the
/// last line feed is a line where it is not empty.
pub open spec fn lines_from(s: Seq<char>, from: int) -> Seq<Seq<char>>
    decreases s.len() - from,
{
    if from < 0 || from >= s.len() {
        Seq::empty()
    } else {
        match char_from(s, '\n', from) {
            Some(at) => if from <= at < s.len() {
                seq![without_carriage_return(s.subrange(from, at))] + lines_from(s, at + 1)
            } else {
                Seq::empty()
            },
            None => seq![s.subrange(from, s.len() as int)],
        }
    }
}

/// `texts` as values.
pub open spec fn views(texts: Seq<String>) -> Seq<Seq<char>> {
    texts.map_values(|text: String| text@)
}

/// The lines of `text`, without their line ends.
pub fn lines(text: &str) -> (lines: Vec<String>)
    ensures
        views(lines@) == lines_from(text@, 0),
{
    let len: usize = text.unicode_len();
    let mut lines: Vec<String> = Vec::new();
    let mut start: usize = 0;
    let mut at: usize = 0;
    assert(views(lines@) + lines_from(text@, 0) =~= lines_from(text@, 0));
    while at < len
        invariant
            len == text@.len(),
            start <= at <= len,
            forall|j: int| start <= j < at ==> #[trigger] text@[j] != '\n',
            views(lines@) + lines_from(text@, start as int) == lines_from(text@, 0),
        decreases len - at,
    {
        if text.get_char(at) == '\n' {
            proof {
                lemma_char_from(text@, '\n', start as int);
            }
            let end: usize = if at > start && text.get_char(at - 1) == '\r' {
                at - 1
            } else {
                at
            };
            let line = text.substring_char(start, end).to_owned();
            assert(line@ =~= without_carriage_return(text@.subrange(start as int, at as int)));
            let ghost before = views(lines@);
            lines.push(line);
            proof {
                assert(views(lines@) =~= before + seq![line@]);
                assert(before + (seq![line@] + lines_from(text@, at + 1)) =~= before + seq![line@]
                    + lines_from(text@, at + 1));
            }
            start = at + 1;
        }
        at = at + 1;
    }
    if start < len {
        proof {
            lemma_char_from(text@, '\n', start as int);
        }
        let line = text.substring_char(start, len).to_owned();
        let ghost before = views(lines@);
        lines.push(line);
        assert(views(lines@) =~= before + seq![line@]);
    } else {
        assert(views(lines@) + Seq::<Seq<char>>::empty() =~= views(lines@));
    }
    lines
}

/// `c` is a decimal digit.
pub open spec fn is_digit(c: char) -> bool {
    '0' <= c <= '9'
}

/// The value of a row of digits.
pub open spec fn digits_value(digits: Seq<char>) -> nat
    decreases digits.len(),
{
    if digits.len() == 0 {
        0
    } else {
        digits_value(digits.drop_last()) * 10 + (digits.last() as nat - '0' as nat) as nat
    }
}

/// `text` without a plus sign before it.
pub open spec fn without_plus(text: Seq<char>) -> Seq<char> {
    if text.len() > 0 && text[0] == '+' {
        text.subrange(1, text.len() as int)
    } else {
        text
    }
}

/// `text` as a number up to `max`: digits, at least one, after a plus sign or
/// none.
pub open spec fn number(text: Seq<char>, max: nat) -> Option<nat> {
    let digits = without_plus(text);
    if digits.len() > 0 && (forall|i: int| 0 <= i < digits.len() ==> is_digit(#[trigger] digits[i]))
        && digits_value(digits) <= max {
        Some(digits_value(digits))
    } else {
        None
    }
}

proof fn lemma_digits_value_grows(digits: Seq<char>, n: int)
    requires
        0 <= n <= digits.len(),
        forall|i: int| 0 <= i < digits.len() ==> is_digit(#[trigger] digits[i]),
    ensures
        digits_value(digits.take(n)) <= digits_value(digits),
    decreases digits.len() - n,
{
    if n < digits.len() {
        lemma_digits_value_grows(digits, n + 1);
        assert(digits.take(n + 1).drop_last() =~= digits.take(n));
        assert(is_digit(digits[n]));
    } else {
        assert(digits.take(n) =~= digits);
    }
}

/// `text` as a number up to `max`.
pub fn parse_number(text: &str, max: u64) -> (value: Option<u64>)
    ensures
        match value {
            Some(value) => number(text@, max as nat) == Some(value as nat),
            None => number(text@, max as nat) is None,
        },
{
    let len: usize = text.unicode_len();
    let start: usize = if len > 0 && text.get_char(0) == '+' {
        1
    } else {
        0
    };
    let ghost digits = without_plus(text@);
    assert(digits =~= text@.subrange(start as int, len as int));
    if start == len {
        return None;
    }
    let mut value: u64 = 0;
    let mut i: usize = start;
    assert(digits.take(0) =~= Seq::<char>::empty());
    while i < len
        invariant
            start <= i <= len,
            len == text@.len(),
            digits == text@.subrange(start as int, len as int),
            digits == without_plus(text@),
            value <= max,
            value == digits_value(digits.take(i - start)),
            forall|k: int| 0 <= k < i - start ==> is_digit(#[trigger] digits[k]),
        decreases len - i,
    {
        let c: char = text.get_char(i);
        assert(digits[i - start] == c);
        if !(c >= '0' && c <= '9') {
            assert(!is_digit(digits[i - start]));
            return None;
        }
        let d: u64 = (c as u32 - '0' as u32) as u64;
        proof {
            assert(digits.take(i - start + 1).drop_last() =~= digits.take(i - start));
            assert(digits.take(i - start + 1).last() == c);
        }
        if d > max || value > max / 10 || value * 10 > max - d {
            proof {
                if number(text@, max as nat) is Some {
                    lemma_digits_value_grows(digits, i - start + 1);
                    assert(value * 10 + d > max);
                }
            }
            return None;
        }
        value = value * 10 + d;
        i = i + 1;
    }
    assert(digits.take(i - start) =~= digits);
    Some(value)
}

/// Text order: by the first character that differs, the shorter first.
pub open spec fn text_before(a: Seq<char>, b: Seq<char>) -> bool
    decreases a.len(),
{
    if b.len() == 0 {
        false
    } else if a.len() == 0 {
        true
    } else if a[0] != b[0] {
        a[0] < b[0]
    } else {
        text_before(a.subrange(1, a.len() as int), b.subrange(1, b.len() as int))
    }
}

/// Text order is strict and total.
pub proof fn lemma_text_order(a: Seq<char>, b: Seq<char>, c: Seq<char>)
    ensures
        !text_before(a, a),
        a != b ==> text_before(a, b) || text_before(b, a),
        text_before(a, b) && text_before(b, c) ==> text_before(a, c),
        !(text_before(a, b) && text_before(b, a)),
    decreases a.len(),
{
    if a.len() > 0 {
        let a1 = a.subrange(1, a.len() as int);
        let b1 = b.subrange(1, b.len() as int);
        let c1 = c.subrange(1, c.len() as int);
        lemma_text_order(a1, b1, c1);
        if b.len() > 0 && a[0] == b[0] && a1 == b1 {
            assert(a =~= seq![a[0]] + a1);
            assert(b =~= seq![b[0]] + b1);
        }
    } else if b.len() == 0 {
        assert(a =~= b);
    }
}

/// Whether `a` comes before `b`.
pub fn is_before(a: &str, b: &str) -> (before: bool)
    ensures
        before == text_before(a@, b@),
{
    let a_len: usize = a.unicode_len();
    let b_len: usize = b.unicode_len();
    let mut i: usize = 0;
    assert(a@.subrange(0, a@.len() as int) =~= a@);
    assert(b@.subrange(0, b@.len() as int) =~= b@);
    while i < a_len && i < b_len
        invariant
            a_len == a@.len(),
            b_len == b@.len(),
            i <= a_len,
            i <= b_len,
            text_before(a@, b@) == text_before(
                a@.subrange(i as int, a@.len() as int),
                b@.subrange(i as int, b@.len() as int),
            ),
        decreases a_len - i,
    {
        let ghost ra = a@.subrange(i as int, a@.len() as int);
        let ghost rb = b@.subrange(i as int, b@.len() as int);
        assert(ra[0] == a@[i as int] && rb[0] == b@[i as int]);
        let x: char = a.get_char(i);
        let y: char = b.get_char(i);
        if x != y {
            return x < y;
        }
        assert(ra.subrange(1, ra.len() as int) =~= a@.subrange(i + 1, a@.len() as int));
        assert(rb.subrange(1, rb.len() as int) =~= b@.subrange(i + 1, b@.len() as int));
        i = i + 1;
    }
    i < b_len
}

/// A number written in decimal reads back as that number, with or without a plus sign,
/// up to the largest that is allowed and not past it; it has a digit, and nothing but
/// digits.
pub proof fn a_decimal_number_reads_back(n: nat, max: nat)
    ensures
        number(decimal(n), max) == if n <= max {
            Some(n)
        } else {
            None::<nat>
        },
        number(seq!['+'] + decimal(n), max) == number(decimal(n), max),
        decimal(n).len() > 0,
        forall|i: int| 0 <= i < decimal(n).len() ==> '0' <= #[trigger] decimal(n)[i] <= '9',
{
    lemma_decimal_digits(n);
    let digits = decimal(n);
    assert(without_plus(digits) == digits);
    assert((seq!['+'] + digits).subrange(1, digits.len() as int + 1) =~= digits);
    assert forall|i: int| 0 <= i < digits.len() implies is_digit(#[trigger] digits[i]) by {}
}

proof fn lemma_decimal_digits(n: nat)
    ensures
        digits_value(decimal(n)) == n,
        decimal(n).len() > 0,
        forall|i: int| 0 <= i < decimal(n).len() ==> '0' <= #[trigger] decimal(n)[i] <= '9',
    decreases n,
{
    if n < 10 {
        assert(decimal(n).drop_last() =~= Seq::<char>::empty());
        assert(digits_value(Seq::<char>::empty()) == 0);
    } else {
        lemma_decimal_digits(n / 10);
        assert(decimal(n).drop_last() =~= decimal(n / 10));
        assert forall|i: int| 0 <= i < decimal(n).len() implies '0' <= #[trigger] decimal(n)[i]
            <= '9' by {
            if i < decimal(n / 10).len() {
                assert(decimal(n)[i] == decimal(n / 10)[i]);
            }
        }
    }
}

/// Different numbers have different texts, with a minus sign before those below zero
/// and only those.
pub proof fn decimal_texts_tell_numbers_apart(a: int, b: int)
    ensures
        signed_decimal(a) == signed_decimal(b) ==> a == b,
        a >= 0 ==> signed_decimal(a) == decimal(a as nat),
        a < 0 ==> signed_decimal(a) == seq!['-'] + decimal((-a) as nat),
        a >= 0 && b >= 0 && decimal(a as nat) == decimal(b as nat) ==> a == b,
{
    reveal_strlit("-");
    assert("-"@ =~= seq!['-']);
    let m = if a < 0 {
        -a
    } else {
        a
    };
    let n = if b < 0 {
        -b
    } else {
        b
    };
    lemma_decimal_digits(m as nat);
    lemma_decimal_digits(n as nat);
    if a < 0 {
        assert(signed_decimal(a).subrange(1, signed_decimal(a).len() as int) =~= decimal(m as nat));
        assert(signed_decimal(a)[0] == '-');
    } else {
        assert(signed_decimal(a)[0] == decimal(m as nat)[0]);
    }
    if b < 0 {
        assert(signed_decimal(b).subrange(1, signed_decimal(b).len() as int) =~= decimal(n as nat));
        assert(signed_decimal(b)[0] == '-');
    } else {
        assert(signed_decimal(b)[0] == decimal(n as nat)[0]);
    }
}

/// Texts stand in the order of the first character in which they differ; a text stands
/// before every longer one that begins with it.
pub proof fn text_order_goes_by_the_first_difference(
    common: Seq<char>,
    a: char,
    b: char,
    after_a: Seq<char>,
    after_b: Seq<char>,
)
    ensures
        a != b ==> text_before(common + seq![a] + after_a, common + seq![b] + after_b) == (a < b),
        text_before(common, common + seq![b] + after_b),
    decreases common.len(),
{
    let x = common + seq![a] + after_a;
    let y = common + seq![b] + after_b;
    if common.len() > 0 {
        let fewer = common.subrange(1, common.len() as int);
        text_order_goes_by_the_first_difference(fewer, a, b, after_a, after_b);
        assert(x.subrange(1, x.len() as int) =~= fewer + seq![a] + after_a);
        assert(y.subrange(1, y.len() as int) =~= fewer + seq![b] + after_b);
    }
}

/// Lines come apart at their line feeds: a line feed ends its line, a carriage return
/// before it goes too, and what stands behind the last one is a line where there is
/// something.
pub proof fn lines_come_apart_at_line_feeds(line: Seq<char>, rest: Seq<char>)
    requires
        forall|i: int| 0 <= i < line.len() ==> #[trigger] line[i] != '\n',
        line.len() == 0 || line.last() != '\r',
    ensures
        lines_from(line + seq!['\n'] + rest, 0) == seq![line] + lines_from(rest, 0),
        lines_from(line + seq!['\r', '\n'] + rest, 0) == seq![line] + lines_from(rest, 0),
        line.len() > 0 ==> lines_from(line, 0) == seq![line],
        lines_from(Seq::<char>::empty(), 0) == Seq::<Seq<char>>::empty(),
{
    assert((line + seq!['\n']).drop_last() =~= line);
    lemma_line_first(line, line + seq!['\n'], rest);
    let long = line + seq!['\r', '\n'];
    assert(long.drop_last() =~= line + seq!['\r']);
    assert(long.drop_last().drop_last() =~= line);
    lemma_line_first(line, long, rest);
    lemma_char_from(line, '\n', 0);
    assert(line.subrange(0, line.len() as int) =~= line);
}

proof fn lemma_line_first(line: Seq<char>, ended: Seq<char>, rest: Seq<char>)
    requires
        ended.len() > 0,
        ended.last() == '\n',
        forall|i: int| 0 <= i < ended.len() - 1 ==> #[trigger] ended[i] != '\n',
        line == without_carriage_return(ended.drop_last()),
    ensures
        lines_from(ended + rest, 0) == seq![line] + lines_from(rest, 0),
{
    let all = ended + rest;
    let at = ended.len() - 1;
    lemma_char_from(all, '\n', 0);
    let found = char_from(all, '\n', 0)->0;
    assert(all[at] == '\n');
    if found < at {
        assert(all[found] == ended[found]);
    }
    assert(found == at);
    assert(all.subrange(0, at) =~= ended.drop_last());
    lemma_lines_shift(ended, rest, 0);
}

/// Searching behind what stands before a text is searching the text.
pub proof fn lemma_char_shift(before: Seq<char>, rest: Seq<char>, c: char, from: int)
    requires
        0 <= from,
    ensures
        char_from(before + rest, c, before.len() + from) == match char_from(rest, c, from) {
            Some(at) => Some(before.len() + at),
            None => None::<int>,
        },
    decreases rest.len() - from,
{
    if from < rest.len() {
        assert((before + rest)[before.len() + from] == rest[from]);
        lemma_char_shift(before, rest, c, from + 1);
    }
}

proof fn lemma_lines_shift(before: Seq<char>, rest: Seq<char>, from: int)
    requires
        0 <= from,
    ensures
        lines_from(before + rest, before.len() + from) == lines_from(rest, from),
    decreases rest.len() - from,
{
    let all = before + rest;
    if from < rest.len() {
        lemma_char_shift(before, rest, '\n', from);
        lemma_char_from(rest, '\n', from);
        match char_from(rest, '\n', from) {
            Some(at) => {
                assert(all.subrange(before.len() + from, before.len() + at) =~= rest.subrange(
                    from,
                    at,
                ));
                lemma_lines_shift(before, rest, at + 1);
            },
            None => {
                assert(all.subrange(before.len() + from, all.len() as int) =~= rest.subrange(
                    from,
                    rest.len() as int,
                ));
            },
        }
    }
}

} // verus!
