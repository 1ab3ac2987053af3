//! Text building blocks: decimal numbers, concatenation and prefixes.
use vstd::prelude::*;

verus! {

/// Why a piece of text is not a number of the wanted range.
#[derive(Debug, Clone, Copy, PartialEq, Eq, Structural)]
pub enum NumberError {
    /// There is no text at all.
    Empty,
    /// Some character is not a decimal digit, or a sign stands alone.
    InvalidDigit,
    /// The value does not fit.
    PosOverflow,
}

impl NumberError {
    /// The sentence that describes the error.
    pub open spec fn text(self) -> Seq<char> {
        match self {
            NumberError::Empty => "cannot parse integer from empty string"@,
            NumberError::InvalidDigit => "invalid digit found in string"@,
            NumberError::PosOverflow => "number too large to fit in target type"@,
        }
    }

    /// Describes the error in one sentence.
    pub fn message(&self) -> (r: String)
        ensures
            r@ == self.text(),
    {
        match self {
            NumberError::Empty => "cannot parse integer from empty string".to_string(),
            NumberError::InvalidDigit => "invalid digit found in string".to_string(),
            NumberError::PosOverflow => "number too large to fit in target type".to_string(),
        }
    }
}

/// Whether `c` is one of the ten ASCII digits.
pub open spec fn is_digit(c: char) -> bool {
    '0' <= c <= '9'
}

/// The value of a digit.
pub open spec fn digit_value(c: char) -> nat
    recommends
        is_digit(c),
{
    (c as int - '0' as int) as nat
}

/// Reads `s` as further digits of a number of which `acc` is known already. The first character
/// that is no digit, or whose digit takes the value past `max`, decides.
pub open spec fn digits_value(s: Seq<char>, max: nat, acc: nat) -> Result<nat, NumberError>
    decreases s.len(),
{
    if s.len() == 0 {
        Ok(acc)
    } else if !is_digit(s[0]) {
        Err(NumberError::InvalidDigit)
    } else if acc * 10 + digit_value(s[0]) > max {
        Err(NumberError::PosOverflow)
    } else {
        digits_value(s.drop_first(), max, acc * 10 + digit_value(s[0]))
    }
}

/// The unsigned decimal number that `s` spells: digits, after at most one plus sign.
pub open spec fn number_value(s: Seq<char>, max: nat) -> Result<nat, NumberError> {
    if s.len() == 0 {
        Err(NumberError::Empty)
    } else if s[0] == '+' {
        if s.len() == 1 {
            Err(NumberError::InvalidDigit)
        } else {
            digits_value(s.drop_first(), max, 0)
        }
    } else {
        digits_value(s, max, 0)
    }
}

/// Parses an unsigned decimal number no larger than `max`.
pub fn parse_number(s: &str, max: u32) -> (r: Result<u32, NumberError>)
    ensures
        match r {
            Ok(n) => number_value(s@, max as nat) == Ok::<nat, NumberError>(n as nat),
            Err(e) => number_value(s@, max as nat) == Err::<nat, NumberError>(e),
        },
        r matches Ok(n) ==> n <= max,
{
    let n: usize = s.unicode_len();
    if n == 0 {
        return Err(NumberError::Empty);
    }
    let signed = s.get_char(0) == '+';
    if signed && n == 1 {
        return Err(NumberError::InvalidDigit);
    }
    let start: usize = if signed { 1 } else { 0 };
    let mut i: usize = start;
    let mut acc: u32 = 0;
    proof {
        assert(s@.skip(0) =~= s@);
        assert(s@.skip(1) =~= s@.drop_first());
    }
    while i < n
        invariant
            n == s@.len(),
            start <= i <= n,
            acc <= max,
            digits_value(s@.skip(start as int), max as nat, 0) == digits_value(
                s@.skip(i as int),
                max as nat,
                acc as nat,
            ),
            number_value(s@, max as nat) == digits_value(s@.skip(start as int), max as nat, 0),
        decreases n - i,
    {
        let c = s.get_char(i);
        proof {
            assert(s@.skip(i as int)[0] == c);
            assert(s@.skip(i as int).drop_first() =~= s@.skip(i + 1));
        }
        if !('0' <= c && c <= '9') {
            return Err(NumberError::InvalidDigit);
        }
        let d: u64 = (c as u32 - '0' as u32) as u64;
        let next: u64 = acc as u64 * 10 + d;
        if next > max as u64 {
            return Err(NumberError::PosOverflow);
        }
        acc = next as u32;
        i += 1;
    }
    Ok(acc)
}

/// The decimal digits of `n`, without leading zeros.
pub open spec fn decimal(n: nat) -> Seq<char>
    decreases n,
{
    if n < 10 {
        seq![digit_char(n)]
    } else {
        decimal(n / 10).push(digit_char(n % 10))
    }
}

/// The character of the digit `d`.
pub open spec fn digit_char(d: nat) -> char
    recommends
        d < 10,
{
    ('0' as int + d) as char
}

/// The one-character text of a digit.
fn digit_text(d: u32) -> (r: &'static str)
    requires
        d < 10,
    ensures
        r@ == seq![digit_char(d as nat)],
{
    proof {
        reveal_strlit("0");
        reveal_strlit("1");
        reveal_strlit("2");
        reveal_strlit("3");
        reveal_strlit("4");
        reveal_strlit("5");
        reveal_strlit("6");
        reveal_strlit("7");
        reveal_strlit("8");
        reveal_strlit("9");
    }
    let r = match d {
        0 => "0",
        1 => "1",
        2 => "2",
        3 => "3",
        4 => "4",
        5 => "5",
        6 => "6",
        7 => "7",
        8 => "8",
        _ => "9",
    };
    assert(r@ =~= seq![digit_char(d as nat)]);
    r
}

/// Writes `n` in decimal.
pub fn format_number(n: u32) -> (r: String)
    ensures
        r@ == decimal(n as nat),
    decreases n,
{
    if n < 10 {
        digit_text(n).to_string()
    } else {
        let mut r = format_number(n / 10);
        r.append(digit_text(n % 10));
        assert(r@ =~= decimal(n as nat));
        r
    }
}

/// Puts `b` behind `a`.
pub fn join(a: &str, b: &str) -> (r: String)
    ensures
        r@ == a@ + b@,
{
    let mut r = a.to_string();
    r.append(b);
    r
}

/// Whether `s` begins with `prefix`.
pub open spec fn has_prefix(s: Seq<char>, prefix: Seq<char>) -> bool {
    prefix.len() <= s.len() && s.take(prefix.len() as int) == prefix
}

/// Whether `s` begins with `prefix`.
pub fn starts_with(s: &str, prefix: &str) -> (r: bool)
    ensures
        r == has_prefix(s@, prefix@),
{
    let n: usize = prefix.unicode_len();
    if s.unicode_len() < n {
        return false;
    }
    let mut i: usize = 0;
    while i < n
        invariant
            n == prefix@.len(),
            n <= s@.len(),
            i <= n,
            forall|j: int| 0 <= j < i ==> s@[j] == prefix@[j],
        decreases n - i,
    {
        if s.get_char(i) != prefix.get_char(i) {
            assert(s@.take(n as int)[i as int] != prefix@[i as int]);
            return false;
        }
        i += 1;
    }
    assert(s@.take(n as int) =~= prefix@);
    true
}

/// The value of a run of digits.
pub open spec fn positional_value(s: Seq<char>) -> nat
    decreases s.len(),
{
    if s.len() == 0 {
        0
    } else {
        positional_value(s.drop_last()) * 10 + digit_value(s.last())
    }
}

/// Whether every character is a digit.
pub open spec fn all_digits(s: Seq<char>) -> bool {
    forall|i: int| 0 <= i < s.len() ==> is_digit(#[trigger] s[i])
}

/// A text is accepted exactly if it is digits, at least one of them and after at most one plus
/// sign, and their value is in range; the number is then that value. Digits whose value is not in
/// range are too large.
pub proof fn accepted_numbers(s: Seq<char>, max: nat)
    ensures
        ({
            let digits = if s.len() > 0 && s[0] == '+' {
                s.drop_first()
            } else {
                s
            };
            &&& number_value(s, max) is Ok <==> digits.len() > 0 && all_digits(digits)
                && positional_value(digits) <= max
            &&& number_value(s, max) is Ok ==> number_value(s, max) == Ok::<nat, NumberError>(
                positional_value(digits),
            )
            &&& digits.len() > 0 && all_digits(digits) && positional_value(digits) > max
                ==> number_value(s, max) == Err::<nat, NumberError>(NumberError::PosOverflow)
        }),
{
    let digits = if s.len() > 0 && s[0] == '+' {
        s.drop_first()
    } else {
        s
    };
    assert(digits.take(0) =~= seq![]);
    assert(digits.skip(0) =~= digits);
    lemma_digits_value(digits, 0, max);
}

/// Reading on from place `i`, when the digits before it are in range.
proof fn lemma_digits_value(s: Seq<char>, i: int, max: nat)
    requires
        0 <= i <= s.len(),
        all_digits(s.take(i)),
        positional_value(s.take(i)) <= max,
    ensures
        ({
            let r = digits_value(s.skip(i), max, positional_value(s.take(i)));
            &&& r is Ok <==> all_digits(s) && positional_value(s) <= max
            &&& r is Ok ==> r == Ok::<nat, NumberError>(positional_value(s))
            &&& all_digits(s) && positional_value(s) > max ==> r == Err::<nat, NumberError>(
                NumberError::PosOverflow,
            )
        }),
    decreases s.len() - i,
{
    if i == s.len() {
        assert(s.take(i) =~= s);
    } else {
        let next = s.take(i + 1);
        assert(s.skip(i)[0] == s[i]);
        assert(s.skip(i).drop_first() =~= s.skip(i + 1));
        assert(next.drop_last() =~= s.take(i));
        assert(next.last() == s[i]);
        if is_digit(s[i]) {
            assert(all_digits(next)) by {
                assert forall|j: int| 0 <= j < next.len() implies is_digit(#[trigger] next[j]) by {
                    if j < i {
                        assert(next[j] == s.take(i)[j]);
                    }
                }
            }
            if positional_value(next) <= max {
                lemma_digits_value(s, i + 1, max);
            } else {
                lemma_value_grows(s, i + 1);
            }
        }
    }
}

/// More digits do not make a value smaller.
proof fn lemma_value_grows(s: Seq<char>, i: int)
    requires
        0 <= i <= s.len(),
    ensures
        positional_value(s.take(i)) <= positional_value(s),
    decreases s.len() - i,
{
    if i == s.len() {
        assert(s.take(i) =~= s);
    } else {
        assert(s.take(i + 1).drop_last() =~= s.take(i));
        lemma_value_grows(s, i + 1);
    }
}

/// What is written in decimal reads back as the number that was written.
pub proof fn decimal_reads_back(n: nat, max: nat)
    requires
        n <= max,
    ensures
        number_value(decimal(n), max) == Ok::<nat, NumberError>(n),
{
    lemma_decimal_digits(n);
    lemma_digits_of_decimal(n, max, seq![]);
    assert(decimal(n) + seq![] =~= decimal(n));
    assert(is_digit(decimal(n)[0]));
}

/// A decimal number is at least one digit, and digits only.
proof fn lemma_decimal_digits(n: nat)
    ensures
        decimal(n).len() >= 1,
        forall|i: int| 0 <= i < decimal(n).len() ==> is_digit(#[trigger] decimal(n)[i]),
    decreases n,
{
    if n >= 10 {
        lemma_decimal_digits(n / 10);
    }
}

/// Reading past the digits of `n` leaves the value `n`.
proof fn lemma_digits_of_decimal(n: nat, max: nat, rest: Seq<char>)
    requires
        n <= max,
    ensures
        digits_value(decimal(n) + rest, max, 0) == digits_value(rest, max, n),
    decreases n,
{
    let s = decimal(n) + rest;
    if n < 10 {
        assert(s.drop_first() =~= rest);
        assert(s[0] == digit_char(n));
    } else {
        let tail = seq![digit_char(n % 10)] + rest;
        assert(s =~= decimal(n / 10) + tail);
        lemma_digits_of_decimal(n / 10, max, tail);
        assert(tail.drop_first() =~= rest);
        assert(tail[0] == digit_char(n % 10));
    }
}

/// A digit behind others makes ten times their value and its own; no digits have no value.
pub proof fn digits_count_by_place(s: Seq<char>, c: char)
    requires
        '0' <= c <= '9',
    ensures
        positional_value(Seq::<char>::empty()) == 0,
        positional_value(s.push(c)) == 10 * positional_value(s) + (c as int - '0' as int),
{
    assert(s.push(c).drop_last() =~= s);
}

/// No text at all is refused, and so is a sign alone.
pub proof fn nothing_is_no_number(max: nat)
    ensures
        number_value(Seq::<char>::empty(), max) == Err::<nat, NumberError>(NumberError::Empty),
        number_value(seq!['+'], max) == Err::<nat, NumberError>(NumberError::InvalidDigit),
{
}

/// What is refused, and why, in a text of more than a sign: whatever comes first, a character that
/// is no digit or a digit that takes the value out of range.
pub proof fn refused_numbers(signed: bool, digits: Seq<char>, max: nat, i: int)
    requires
        0 <= i < digits.len(),
        !signed ==> digits[0] != '+',
        positional_value(digits.take(i)) <= max,
        forall|j: int| 0 <= j < i ==> '0' <= #[trigger] digits[j] <= '9',
    ensures
        ({
            let s = if signed {
                seq!['+'] + digits
            } else {
                digits
            };
            let value = 10 * positional_value(digits.take(i)) + (digits[i] as int - '0' as int);
            &&& !('0' <= digits[i] <= '9') ==> number_value(s, max) == Err::<nat, NumberError>(
                NumberError::InvalidDigit,
            )
            &&& '0' <= digits[i] <= '9' && value > max ==> number_value(s, max) == Err::<
                nat,
                NumberError,
            >(NumberError::PosOverflow)
        }),
{
    let s = if signed {
        seq!['+'] + digits
    } else {
        digits
    };
    if signed {
        assert(s.drop_first() =~= digits);
    }
    assert(digits.take(0) =~= seq![]);
    assert(digits.skip(0) =~= digits);
    lemma_read_up_to(digits, max, 0, i);
    assert(digits.skip(i)[0] == digits[i]);
    assert(number_value(s, max) == digits_value(digits, max, 0));
}

/// Digits that stay in range are read one after the other.
proof fn lemma_read_up_to(digits: Seq<char>, max: nat, from: int, to: int)
    requires
        0 <= from <= to <= digits.len(),
        positional_value(digits.take(to)) <= max,
        forall|j: int| 0 <= j < to ==> '0' <= #[trigger] digits[j] <= '9',
    ensures
        digits_value(digits.skip(from), max, positional_value(digits.take(from))) == digits_value(
            digits.skip(to),
            max,
            positional_value(digits.take(to)),
        ),
    decreases to - from,
{
    if from < to {
        let next = digits.take(from + 1);
        assert(next.drop_last() =~= digits.take(from));
        assert(digits.skip(from)[0] == digits[from]);
        assert(digits.skip(from).drop_first() =~= digits.skip(from + 1));
        lemma_value_grows(digits.take(to), from + 1);
        assert(digits.take(to).take(from + 1) =~= next);
        lemma_read_up_to(digits, max, from + 1, to);
    }
}

/// A number in decimal is digits only, begins with no zero unless it is zero, and has its value.
pub proof fn decimal_spells_the_number(n: nat)
    ensures
        decimal(n).len() >= 1,
        forall|i: int| 0 <= i < decimal(n).len() ==> '0' <= #[trigger] decimal(n)[i] <= '9',
        n > 0 ==> decimal(n)[0] != '0',
        n == 0 ==> decimal(n).len() == 1,
        positional_value(decimal(n)) == n,
    decreases n,
{
    let s = decimal(n);
    if n >= 10 {
        decimal_spells_the_number(n / 10);
        assert(s.drop_last() =~= decimal(n / 10));
        assert(s[0] == decimal(n / 10)[0]);
    } else {
        assert(s.drop_last() =~= seq![]);
        assert(positional_value(s.drop_last()) == 0);
    }
}

/// A text begins with another exactly if it is that one with something behind it.
pub proof fn prefix_and_rest(prefix: Seq<char>, rest: Seq<char>, s: Seq<char>)
    ensures
        has_prefix(prefix + rest, prefix),
        has_prefix(s, prefix) ==> prefix.len() <= s.len() && s == prefix + s.skip(
            prefix.len() as int,
        ),
{
    assert((prefix + rest).take(prefix.len() as int) =~= prefix);
    if has_prefix(s, prefix) {
        assert(s =~= s.take(prefix.len() as int) + s.skip(prefix.len() as int));
    }
}

} // verus!
