//! Counter file contents: parsing a decimal value and rendering it back.
use vstd::prelude::*;

verus! {

/// Why one counter produced no sample in a cycle.
#[derive(Debug, Clone, Copy, PartialEq, Eq, Structural)]
pub enum CycleError {
    /// The counter file could not be read.
    Read,
    /// The contents were not a non-negative 64-bit decimal integer.
    Parse,
    /// The reporter rejected the sample or could not send it.
    Report,
}

pub open spec fn is_digit(c: char) -> bool {
    '0' <= c && c <= '9'
}

pub open spec fn digit_value(c: char) -> nat {
    (c as u32 - '0' as u32) as nat
}

pub open spec fn all_digits(s: Seq<char>) -> bool {
    forall|i: int| 0 <= i < s.len() ==> is_digit(#[trigger] s[i])
}

/// The number that a string of decimal digits denotes.
pub open spec fn digits_value(s: Seq<char>) -> nat
    decreases s.len(),
{
    if s.len() == 0 {
        0
    } else {
        digits_value(s.drop_last()) * 10 + digit_value(s.last())
    }
}

/// The text without one leading `+` sign, if it has one.
pub open spec fn unsigned_part(s: Seq<char>) -> Seq<char> {
    if s.len() > 0 && s[0] == '+' {
        s.skip(1)
    } else {
        s
    }
}

/// Decimal parsing of a `u64`: an optional `+`, then at least one digit,
/// denoting a value that fits.
pub open spec fn parse_u64(s: Seq<char>) -> Option<u64> {
    let d = unsigned_part(s);
    if d.len() > 0 && all_digits(d) && digits_value(d) <= u64::MAX {
        Some(digits_value(d) as u64)
    } else {
        None
    }
}

/// The text without one trailing line terminator, if it has one.
pub open spec fn strip_newline(s: Seq<char>) -> Seq<char> {
    if s.len() > 0 && s.last() == '\n' {
        s.drop_last()
    } else {
        s
    }
}

/// The value held by a counter file with the given contents.
pub open spec fn counter_value(contents: Seq<char>) -> Option<u64> {
    parse_u64(strip_newline(contents))
}

pub open spec fn digit_char(d: nat) -> char {
    if d == 0 {
        '0'
    } else if d == 1 {
        '1'
    } else if d == 2 {
        '2'
    } else if d == 3 {
        '3'
    } else if d == 4 {
        '4'
    } else if d == 5 {
        '5'
    } else if d == 6 {
        '6'
    } else if d == 7 {
        '7'
    } else if d == 8 {
        '8'
    } else {
        '9'
    }
}

/// The shortest decimal rendering of a number.
pub open spec fn decimal(n: nat) -> Seq<char>
    decreases n,
{
    if n < 10 {
        seq![digit_char(n)]
    } else {
        decimal(n / 10).push(digit_char(n % 10))
    }
}

proof fn lemma_digits_value_prefix(s: Seq<char>, k: int)
    requires
        0 <= k <= s.len(),
    ensures
        digits_value(s.subrange(0, k)) <= digits_value(s),
    decreases s.len(),
{
    if k < s.len() {
        assert(s.drop_last() =~= s.subrange(0, s.len() - 1));
        lemma_digits_value_prefix(s.drop_last(), k);
        assert(s.drop_last().subrange(0, k) =~= s.subrange(0, k));
    } else {
        assert(s.subrange(0, k) =~= s);
    }
}

/// Parses the contents of a counter file: one trailing line terminator is
/// dropped, and the rest must be a decimal `u64`.
pub fn parse_counter(contents: &String) -> (r: Result<u64, CycleError>)
    ensures
        r == (match counter_value(contents@) {
            Some(v) => Ok::<u64, CycleError>(v),
            None => Err(CycleError::Parse),
        }),
{
    let s = contents.as_str();
    let n = s.unicode_len();
    let end: usize = if n > 0 && s.get_char(n - 1) == '\n' {
        n - 1
    } else {
        n
    };
    let ghost t = strip_newline(s@);
    assert(t =~= s@.subrange(0, end as int));
    let start: usize = if end > 0 && s.get_char(0) == '+' {
        1
    } else {
        0
    };
    let ghost d = unsigned_part(t);
    assert(d =~= s@.subrange(start as int, end as int));
    if start == end {
        return Err(CycleError::Parse);
    }
    let mut acc: u64 = 0;
    let mut i: usize = start;
    while i < end
        invariant
            start <= i <= end,
            end <= s@.len(),
            d =~= s@.subrange(start as int, end as int),
            d == unsigned_part(t),
            t == strip_newline(contents@),
            s@ == contents@,
            all_digits(d.subrange(0, i - start)),
            acc as nat == digits_value(d.subrange(0, i - start)),
        decreases end - i,
    {
        let c = s.get_char(i);
        if !('0' <= c && c <= '9') {
            assert(d[i - start] == c);
            return Err(CycleError::Parse);
        }
        let dv: u64 = (c as u32 - '0' as u32) as u64;
        let ghost next = d.subrange(0, i - start + 1);
        assert(next.drop_last() =~= d.subrange(0, i - start));
        assert(next.last() == c);
        assert(digits_value(next) == acc * 10 + dv);
        if acc > (u64::MAX - dv) / 10 {
            assert(acc * 10 + dv > u64::MAX) by (nonlinear_arith)
                requires
                    acc > (u64::MAX - dv) / 10,
                    dv <= 9,
            ;
            proof {
                lemma_digits_value_prefix(d, i - start + 1);
            }
            return Err(CycleError::Parse);
        }
        assert(acc * 10 + dv <= u64::MAX) by (nonlinear_arith)
            requires
                acc <= (u64::MAX - dv) / 10,
                dv <= 9,
        ;
        acc = acc * 10 + dv;
        i = i + 1;
    }
    assert(d.subrange(0, d.len() as int) =~= d);
    Ok(acc)
}

fn digit_text(d: u64) -> (r: &'static str)
    requires
        d < 10,
    ensures
        r@ == seq![digit_char(d as nat)],
{
    proof {
        reveal_strlit("0");
        reveal_strlit("1");
        reveal_strlit("2");
        reveal_strlit("3");
        reveal_strlit("4");
        reveal_strlit("5");
        reveal_strlit("6");
        reveal_strlit("7");
        reveal_strlit("8");
        reveal_strlit("9");
    }
    if d == 0 {
        "0"
    } else if d == 1 {
        "1"
    } else if d == 2 {
        "2"
    } else if d == 3 {
        "3"
    } else if d == 4 {
        "4"
    } else if d == 5 {
        "5"
    } else if d == 6 {
        "6"
    } else if d == 7 {
        "7"
    } else if d == 8 {
        "8"
    } else {
        "9"
    }
}

/// Renders a counter value in decimal, as it is handed to a reporter.
pub fn to_decimal(n: u64) -> (r: String)
    ensures
        r@ == decimal(n as nat),
    decreases n,
{
    if n < 10 {
        String::from_str(digit_text(n))
    } else {
        let head = to_decimal(n / 10);
        head.concat(digit_text(n % 10))
    }
}

/// A counter's contents parse to the same value with or without the
/// trailing line terminator, and a run of digits parses to the number it
/// denotes whenever that number fits in a `u64`.
pub proof fn lemma_newline_is_optional(digits: Seq<char>)
    requires
        digits.len() > 0,
        all_digits(digits),
    ensures
        counter_value(digits.push('\n')) == counter_value(digits),
        digits_value(digits) <= u64::MAX ==> counter_value(digits) == Some(
            digits_value(digits) as u64,
        ),
{
    assert(digits.push('\n').drop_last() =~= digits);
    assert(is_digit(digits.last()));
    assert(is_digit(digits[0]));
}

} // verus!
