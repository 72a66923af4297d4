//! Text that the program shows and reads: decimal numbers and trimmed lines.

use vstd::prelude::*;
use vstd::string::*;

verus! {

/// The decimal digit for a number below ten.
pub open spec fn digit(d: nat) -> char {
    (48 + d) as char
}

/// `n` in decimal, without leading zeros.
pub open spec fn decimal(n: nat) -> Seq<char>
    decreases n,
{
    if n < 10 {
        seq![digit(n)]
    } else {
        decimal(n / 10).push(digit(n % 10))
    }
}

pub open spec fn is_digit(c: char) -> bool {
    '0' <= c <= '9'
}

/// The number that a run of decimal digits stands for.
pub open spec fn digits_value(s: Seq<char>) -> nat
    decreases s.len(),
{
    if s.len() == 0 {
        0
    } else {
        10 * digits_value(s.drop_last()) + (s.last() as nat - 48) as nat
    }
}

/// An optional plus sign.
pub open spec fn without_sign(s: Seq<char>) -> Seq<char> {
    if s.len() > 0 && s[0] == '+' {
        s.skip(1)
    } else {
        s
    }
}

/// An unsigned number: an optional plus sign, then one or more decimal digits
/// and nothing else.
pub open spec fn is_number(s: Seq<char>) -> bool {
    &&& without_sign(s).len() > 0
    &&& forall|i: int| 0 <= i < without_sign(s).len() ==> is_digit(#[trigger] without_sign(s)[i])
}

pub open spec fn number_value(s: Seq<char>) -> nat {
    digits_value(without_sign(s))
}

/// Characters with the Unicode property White_Space.
pub open spec fn is_white_space(c: char) -> bool {
    let u = c as u32;
    ||| 0x9 <= u <= 0xd
    ||| u == 0x20
    ||| u == 0x85
    ||| u == 0xa0
    ||| u == 0x1680
    ||| 0x2000 <= u <= 0x200a
    ||| u == 0x2028
    ||| u == 0x2029
    ||| u == 0x202f
    ||| u == 0x205f
    ||| u == 0x3000
}

pub open spec fn without_leading_space(s: Seq<char>) -> Seq<char>
    decreases s.len(),
{
    if s.len() > 0 && is_white_space(s[0]) {
        without_leading_space(s.skip(1))
    } else {
        s
    }
}

pub open spec fn without_trailing_space(s: Seq<char>) -> Seq<char>
    decreases s.len(),
{
    if s.len() > 0 && is_white_space(s.last()) {
        without_trailing_space(s.drop_last())
    } else {
        s
    }
}

/// `s` without white space at either end.
pub open spec fn trimmed(s: Seq<char>) -> Seq<char> {
    without_trailing_space(without_leading_space(s))
}

/// Calls `str::trim`. Trusted: the result is the argument without its leading
/// and trailing characters of the Unicode property White_Space.
#[verifier::external_body]
pub(crate) fn trim(line: &str) -> (rest: &str)
    ensures
        rest@ == trimmed(line@),
{
    line.trim()
}

fn show_digit(d: u64) -> (shown: &'static str)
    requires
        d < 10,
    ensures
        shown@ == seq![digit(d as nat)],
{
    proof {
        reveal_strlit("0");
        reveal_strlit("1");
        reveal_strlit("2");
        reveal_strlit("3");
        reveal_strlit("4");
        reveal_strlit("5");
        reveal_strlit("6");
        reveal_strlit("7");
        reveal_strlit("8");
        reveal_strlit("9");
    }
    let shown = match d {
        0 => "0",
        1 => "1",
        2 => "2",
        3 => "3",
        4 => "4",
        5 => "5",
        6 => "6",
        7 => "7",
        8 => "8",
        _ => "9",
    };
    assert(shown@ =~= seq![digit(d as nat)]);
    shown
}

/// `n` in decimal.
pub fn show_decimal(n: u64) -> (shown: String)
    ensures
        shown@ == decimal(n as nat),
    decreases n,
{
    if n < 10 {
        show_digit(n).to_owned()
    } else {
        let shown = show_decimal(n / 10).concat(show_digit(n % 10));
        assert(shown@ =~= decimal(n as nat));
        shown
    }
}

proof fn lemma_digits_value_grows(s: Seq<char>, n: int)
    requires
        0 <= n <= s.len(),
    ensures
        digits_value(s.take(n)) <= digits_value(s),
    decreases s.len() - n,
{
    if n < s.len() {
        lemma_digits_value_grows(s, n + 1);
        assert(s.take(n + 1).drop_last() =~= s.take(n));
    } else {
        assert(s.take(n) =~= s);
    }
}

/// Reads an unsigned number; nothing that is not one, or does not fit.
pub fn parse_number(s: &str) -> (number: Option<usize>)
    ensures
        number is Some <==> is_number(s@) && number_value(s@) <= usize::MAX,
        number matches Some(n) ==> n == number_value(s@),
{
    let len = s.unicode_len();
    let start: usize = if len > 0 && s.get_char(0) == '+' {
        1
    } else {
        0
    };
    let ghost digits = without_sign(s@);
    assert(digits =~= s@.skip(start as int));
    if start == len {
        return None;
    }
    let mut value: usize = 0;
    let mut at: usize = start;
    assert(digits.take(0).len() == 0);
    while at < len
        invariant
            start <= at <= len,
            len == s@.len(),
            start <= 1,
            digits == without_sign(s@),
            digits == s@.skip(start as int),
            value == digits_value(digits.take(at - start)),
            forall|i: int| 0 <= i < at - start ==> is_digit(#[trigger] digits[i]),
        decreases len - at,
    {
        let c = s.get_char(at);
        assert(c == digits[at - start]);
        if !('0' <= c && c <= '9') {
            return None;
        }
        let d: usize = c as usize - 48;
        assert(digits.take(at - start + 1).drop_last() =~= digits.take(at - start));
        proof {
            lemma_digits_value_grows(digits, at - start + 1);
        }
        if value > (usize::MAX - d) / 10 {
            return None;
        }
        value = value * 10 + d;
        at = at + 1;
    }
    assert(digits.take(len - start) =~= digits);
    Some(value)
}

/// A number written in decimal reads back as itself.
pub proof fn law_decimal_reads_back(n: nat)
    ensures
        is_number(decimal(n)),
        number_value(decimal(n)) == n,
    decreases n,
{
    if n < 10 {
        let s = decimal(n);
        assert(s.drop_last().len() == 0);
        assert(digits_value(s.drop_last()) == 0);
    } else {
        law_decimal_reads_back(n / 10);
        let s = decimal(n);
        let head = decimal(n / 10);
        assert(s.drop_last() =~= head);
        assert(without_sign(head) == head) by {
            if head[0] == '+' {
                assert(without_sign(head) == head.skip(1));
                lemma_decimal_is_digits(n / 10);
            }
        }
        lemma_decimal_is_digits(n);
    }
}

proof fn lemma_decimal_is_digits(n: nat)
    ensures
        decimal(n).len() > 0,
        forall|i: int| 0 <= i < decimal(n).len() ==> is_digit(#[trigger] decimal(n)[i]),
    decreases n,
{
    if n >= 10 {
        lemma_decimal_is_digits(n / 10);
    }
}

/// A number that is shown and read again is the same number.
pub proof fn law_shown_number_reads_back(n: u64, shown: String, typed: &str, read: Option<usize>)
    requires
        n <= usize::MAX,
        call_ensures(show_decimal, (n,), shown),
        typed@ == shown@,
        call_ensures(parse_number, (typed,), read),
    ensures
        read == Some(n as usize),
{
    law_decimal_reads_back(n as nat);
}

/// A number is shown in the digits 0 to 9, without a leading zero, and each
/// digit stands for its place: the last one for what is left over by ten.
pub proof fn law_number_is_shown_in_digits(n: u64, shown: String)
    requires
        call_ensures(show_decimal, (n,), shown),
    ensures
        shown@.len() > 0,
        forall|i: int| 0 <= i < shown@.len() ==> '0' <= #[trigger] shown@[i] <= '9',
        shown@.len() > 1 ==> shown@[0] != '0',
        shown@.last() as u32 == 48 + n % 10,
        shown@.len() == 1 <==> n < 10,
{
    lemma_decimal_is_digits(n as nat);
    lemma_no_leading_zero(n as nat);
}

proof fn lemma_no_leading_zero(n: nat)
    ensures
        n > 0 ==> decimal(n)[0] != '0',
        decimal(n).len() > 0,
        decimal(n).len() == 1 <==> n < 10,
        decimal(n).last() as u32 == 48 + n % 10,
    decreases n,
{
    if n >= 10 {
        lemma_no_leading_zero(n / 10);
        assert(decimal(n)[0] == decimal(n / 10)[0]);
    }
}

/// One more digit makes a number ten times as large, and adds the digit.
pub proof fn law_digits_have_places(
    shorter: &str,
    longer: &str,
    digit: char,
    first: Option<usize>,
    second: Option<usize>,
)
    requires
        '0' <= digit <= '9',
        longer@ == shorter@.push(digit),
        call_ensures(parse_number, (shorter,), first),
        call_ensures(parse_number, (longer,), second),
        first is Some,
    ensures
        10 * first->0 + (digit as int - 48) <= usize::MAX ==> second == Some(
            (10 * first->0 + (digit as int - 48)) as usize,
        ),
        10 * first->0 + (digit as int - 48) > usize::MAX ==> second is None,
{
    let a = without_sign(shorter@);
    let b = without_sign(longer@);
    assert(longer@[0] == shorter@[0]);
    assert(b =~= a.push(digit));
    assert(b.drop_last() =~= a);
    assert forall|i: int| 0 <= i < b.len() implies is_digit(#[trigger] b[i]) by {
        if i < a.len() {
            assert(b[i] == a[i]);
        }
    }
}

/// A single digit reads as itself.
pub proof fn law_digit_reads_as_itself(typed: &str, read: Option<usize>)
    requires
        typed@.len() == 1,
        '0' <= typed@[0] <= '9',
        call_ensures(parse_number, (typed,), read),
    ensures
        read == Some((typed@[0] as int - 48) as usize),
{
    let s = without_sign(typed@);
    assert(s == typed@);
    assert(s.drop_last().len() == 0);
    assert(digits_value(s.drop_last()) == 0);
}

/// What is not a run of digits, with a plus sign before it or none, is no
/// number.
pub proof fn law_other_text_is_no_number(typed: &str, read: Option<usize>, at: int)
    requires
        typed@.len() == 0 || typed@ == seq!['+'] || 0 <= at < typed@.len() && !('0' <= typed@[at] <= '9') && (at > 0
            || typed@[0] != '+'),
        call_ensures(parse_number, (typed,), read),
    ensures
        read is None,
{
    let s = without_sign(typed@);
    if typed@.len() > 0 && typed@ != seq!['+'] {
        if typed@[0] == '+' {
            assert(s[at - 1] == typed@[at]);
        } else {
            assert(s[at] == typed@[at]);
        }
    }
}

/// A plus sign changes nothing.
pub proof fn law_plus_sign_is_ignored(plain: &str, signed: &str, first: Option<usize>, second: Option<usize>)
    requires
        plain@.len() > 0,
        plain@[0] != '+',
        signed@ == seq!['+'] + plain@,
        call_ensures(parse_number, (plain,), first),
        call_ensures(parse_number, (signed,), second),
    ensures
        first == second,
{
    assert(signed@.skip(1) =~= plain@);
}

/// Spaces, tabs and the ends of lines are white space; digits, letters and
/// signs are not.
pub proof fn law_white_space_of_a_line(c: char)
    ensures
        c == ' ' || c == '\t' || c == '\n' || c == '\r' ==> is_white_space(c),
        '!' <= c <= '~' ==> !is_white_space(c),
{
}

} // verus!
