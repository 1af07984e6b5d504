//! Numbers and lines as text.
use vstd::prelude::*;

verus! {

/// `String::push` appends one character and leaves what was there as it was.
pub assume_specification[ String::push ](s: &mut String, c: char)
    ensures
        final(s)@ == old(s)@.push(c),
;

/// The character of a decimal digit.
pub open spec fn digit_char(d: nat) -> char {
    ('0' as nat + d) as char
}

/// `n` in decimal, without leading zeros.
pub open spec fn decimal(n: nat) -> Seq<char>
    decreases n,
{
    if n < 10 {
        seq![digit_char(n)]
    } else {
        decimal(n / 10).push(digit_char(n % 10))
    }
}

pub open spec fn is_digit(c: char) -> bool {
    '0' <= c <= '9'
}

pub open spec fn digit_value(c: char) -> nat {
    (c as nat - '0' as nat) as nat
}

/// The number that a row of digits stands for.
pub open spec fn digits_value(s: Seq<char>) -> nat
    decreases s.len(),
{
    if s.len() == 0 {
        0
    } else {
        digits_value(s.drop_last()) * 10 + digit_value(s.last())
    }
}

/// `s` without one leading `+`.
pub open spec fn without_plus(s: Seq<char>) -> Seq<char> {
    if s.len() > 0 && s[0] == '+' {
        s.skip(1)
    } else {
        s
    }
}

/// The number written in `s`: an optional `+`, then digits and nothing else, at least one.
pub open spec fn number_in(s: Seq<char>) -> Option<nat> {
    let digits = without_plus(s);
    if digits.len() > 0 && all_digits(digits) {
        Some(digits_value(digits))
    } else {
        None
    }
}

/// `n` in decimal.
pub fn decimal_text(n: u64) -> (text: String)
    ensures
        text@ == decimal(n as nat),
    decreases n,
{
    let last: u8 = (n % 10) as u8;
    let mut text = if n < 10 {
        String::new()
    } else {
        decimal_text(n / 10)
    };
    text.push(('0' as u8 + last) as char);
    text
}

/// The characters of `text`, in order.
pub fn chars_of(text: &str) -> (chars: Vec<char>)
    ensures
        chars@ == text@,
{
    let mut chars: Vec<char> = Vec::new();
    for c in iter: text.chars()
        invariant
            chars@ == iter.seq().take(iter.index()),
            iter.seq() == text@,
    {
        chars.push(c);
    }
    chars
}

/// Why a text is not a number.
#[derive(Clone, Copy, Debug, PartialEq, Eq, Structural)]
pub enum NumberError {
    /// It is empty.
    Empty,
    /// It holds something else than digits, or none.
    InvalidDigit,
    /// The number is too large.
    PosOverflow,
}

impl NumberError {
    pub open spec fn text(self) -> Seq<char> {
        match self {
            NumberError::Empty => "cannot parse integer from empty string"@,
            NumberError::InvalidDigit => "invalid digit found in string"@,
            NumberError::PosOverflow => "number too large to fit in target type"@,
        }
    }

    /// The error in words.
    pub fn message(&self) -> (message: String)
        ensures
            message@ == self.text(),
    {
        match self {
            NumberError::Empty => "cannot parse integer from empty string".to_owned(),
            NumberError::InvalidDigit => "invalid digit found in string".to_owned(),
            NumberError::PosOverflow => "number too large to fit in target type".to_owned(),
        }
    }
}

pub open spec fn all_digits(s: Seq<char>) -> bool {
    forall|i: int| 0 <= i < s.len() ==> is_digit(#[trigger] s[i])
}

/// A row of digits at the start of `digits` already stands for more than a `u32` holds.
pub open spec fn overflows(digits: Seq<char>) -> bool {
    exists|k: int|
        0 <= k <= digits.len() && all_digits(#[trigger] digits.take(k)) && digits_value(
            digits.take(k),
        ) > u32::MAX
}

/// What reading a `u32` from `s` gives: the number in it, or what is wrong with it first.
pub open spec fn number_read(s: Seq<char>) -> Result<u32, NumberError> {
    match number_in(s) {
        Some(n) if n <= u32::MAX => Ok(n as u32),
        _ => if s.len() == 0 {
            Err(NumberError::Empty)
        } else if overflows(without_plus(s)) {
            Err(NumberError::PosOverflow)
        } else {
            Err(NumberError::InvalidDigit)
        },
    }
}

/// More digits never make a number smaller.
proof fn lemma_digits_value_grows(digits: Seq<char>, k: int)
    requires
        0 <= k <= digits.len(),
    ensures
        digits_value(digits.take(k)) <= digits_value(digits),
    decreases digits.len(),
{
    if k == digits.len() {
        assert(digits.take(k) =~= digits);
    } else {
        lemma_digits_value_grows(digits.drop_last(), k);
        assert(digits.drop_last().take(k) =~= digits.take(k));
    }
}

/// Nothing overflows before the first character that is no digit, while the digits before it
/// stand for a number that fits.
proof fn lemma_no_overflow(digits: Seq<char>, end: int)
    requires
        0 <= end <= digits.len(),
        end == digits.len() || !is_digit(digits[end]),
        digits_value(digits.take(end)) <= u32::MAX,
    ensures
        !overflows(digits),
{
    assert forall|k: int| 0 <= k <= digits.len() && all_digits(#[trigger] digits.take(k)) implies
        digits_value(digits.take(k)) <= u32::MAX by {
        if k > end {
            assert(!is_digit(digits.take(k)[end]));
        } else {
            lemma_digits_value_grows(digits.take(end), k);
            assert(digits.take(end).take(k) =~= digits.take(k));
        }
    }
}

/// Reads an unsigned number: an optional `+`, then digits and nothing else.
pub fn parse_number(text: &str) -> (number: Result<u32, NumberError>)
    ensures
        number == number_read(text@),
{
    let chars = chars_of(text);
    if chars.len() == 0 {
        return Err(NumberError::Empty);
    }
    let start: usize = if chars[0] == '+' {
        1
    } else {
        0
    };
    let ghost digits = without_plus(text@);
    if start == chars.len() {
        proof {
            assert(digits.take(0) =~= Seq::empty());
            lemma_no_overflow(digits, 0);
        }
        return Err(NumberError::InvalidDigit);
    }
    let mut value: u32 = 0;
    let mut i: usize = start;
    while i < chars.len()
        invariant
            start <= i <= chars.len(),
            start <= 1,
            start < chars.len(),
            chars@ == text@,
            digits == text@.skip(start as int),
            digits == without_plus(text@),
            forall|j: int| 0 <= j < i - start ==> is_digit(#[trigger] digits[j]),
            value == digits_value(digits.take(i - start)),
        decreases chars.len() - i,
    {
        let c = chars[i];
        let ghost k = i - start;
        assert(c == digits[k]);
        if c < '0' || '9' < c {
            proof {
                lemma_no_overflow(digits, k);
            }
            return Err(NumberError::InvalidDigit);
        }
        assert(digits.take(k + 1).drop_last() == digits.take(k));
        let d: u32 = c as u32 - '0' as u32;
        let next = match value.checked_mul(10) {
            Some(tens) => tens.checked_add(d),
            None => None,
        };
        match next {
            Some(sum) => {
                value = sum;
            },
            None => {
                proof {
                    assert(all_digits(digits.take(k + 1)));
                    assert(digits_value(digits.take(k + 1)) > u32::MAX);
                    lemma_digits_value_grows(digits, k + 1);
                }
                return Err(NumberError::PosOverflow);
            },
        }
        i += 1;
    }
    assert(digits.take(i - start) == digits);
    Ok(value)
}

/// Where `c` first stands in `s` at or after `from`; the length of `s` where it does not.
pub open spec fn find_from(s: Seq<char>, c: char, from: int) -> int
    decreases s.len() - from,
{
    if from >= s.len() || s[from] == c {
        from
    } else {
        find_from(s, c, from + 1)
    }
}

/// A line without the carriage return that belongs to its line ending.
pub open spec fn without_cr(line: Seq<char>) -> Seq<char> {
    if line.len() > 0 && line.last() == '\r' {
        line.drop_last()
    } else {
        line
    }
}

/// The lines of `s`.  A line ends at `\n` or `\r\n`, which is not part of it; the last line may
/// lack its ending.
pub open spec fn lines_of(s: Seq<char>) -> Seq<Seq<char>>
    decreases s.len(),
{
    if s.len() == 0 {
        Seq::empty()
    } else {
        let end = find_from(s, '\n', 0);
        if 0 <= end < s.len() {
            seq![without_cr(s.take(end))] + lines_of(s.skip(end + 1))
        } else {
            seq![s]
        }
    }
}

/// The views of a row of strings.
pub open spec fn views(strings: Seq<String>) -> Seq<Seq<char>> {
    strings.map_values(|s: String| s@)
}

pub proof fn lemma_find_from(s: Seq<char>, c: char, from: int, end: int)
    requires
        0 <= from <= end <= s.len(),
        forall|i: int| from <= i < end ==> s[i] != c,
        end == s.len() || s[end] == c,
    ensures
        find_from(s, c, from) == end,
    decreases end - from,
{
    if from < end {
        lemma_find_from(s, c, from + 1, end);
    }
}

/// A string made of the characters at `from..to`.
fn string_of(chars: &Vec<char>, from: usize, to: usize) -> (text: String)
    requires
        from <= to <= chars@.len(),
    ensures
        text@ == chars@.subrange(from as int, to as int),
{
    let mut text = String::new();
    let mut i: usize = from;
    while i < to
        invariant
            from <= i <= to <= chars@.len(),
            text@ == chars@.subrange(from as int, i as int),
        decreases to - i,
    {
        text.push(chars[i]);
        i += 1;
    }
    text
}

/// Splits `text` into its lines.
pub fn split_lines(text: &str) -> (lines: Vec<String>)
    ensures
        views(lines@) == lines_of(text@),
{
    let chars = chars_of(text);
    let mut lines: Vec<String> = Vec::new();
    let mut start: usize = 0;
    let mut i: usize = 0;
    assert(views(lines@) =~= Seq::empty());
    assert(chars@.skip(0) =~= chars@);
    while i < chars.len()
        invariant
            start <= i <= chars.len(),
            chars@ == text@,
            forall|j: int| start <= j < i ==> chars@[j] != '\n',
            lines_of(text@) == views(lines@) + lines_of(chars@.skip(start as int)),
        decreases chars.len() - i,
    {
        if chars[i] == '\n' {
            let ghost rest = chars@.skip(start as int);
            let ghost before = views(lines@);
            let end: usize = if i > start && chars[i - 1] == '\r' {
                i - 1
            } else {
                i
            };
            let line = string_of(&chars, start, end);
            proof {
                lemma_find_from(rest, '\n', 0, i - start);
                assert(rest.take(i - start) =~= chars@.subrange(start as int, i as int));
                assert(line@ =~= without_cr(rest.take(i - start)));
                assert(rest.skip(i - start + 1) =~= chars@.skip(i + 1));
            }
            lines.push(line);
            assert(views(lines@) =~= before.push(line@));
            assert(before + (seq![line@] + lines_of(chars@.skip(i + 1))) =~= views(lines@)
                + lines_of(chars@.skip(i + 1)));
            start = i + 1;
        }
        i += 1;
    }
    if start < chars.len() {
        let ghost rest = chars@.skip(start as int);
        let ghost before = views(lines@);
        let line = string_of(&chars, start, i);
        proof {
            lemma_find_from(rest, '\n', 0, rest.len() as int);
            assert(line@ =~= rest);
        }
        lines.push(line);
        assert(views(lines@) =~= before.push(line@));
        assert(views(lines@) =~= before + seq![rest]);
    }
    lines
}

/// A number in decimal is a non-empty row of digits.
pub proof fn lemma_decimal_digits(n: nat)
    ensures
        decimal(n).len() > 0,
        forall|i: int| 0 <= i < decimal(n).len() ==> is_digit(#[trigger] decimal(n)[i]),
        digits_value(decimal(n)) == n,
    decreases n,
{
    if n < 10 {
        assert(decimal(n).drop_last() =~= Seq::empty());
        reveal_with_fuel(digits_value, 2);
    } else {
        lemma_decimal_digits(n / 10);
        assert(decimal(n).drop_last() =~= decimal(n / 10));
    }
}

/// A number written in decimal reads back as itself.
pub proof fn law_decimal_reads_back(n: nat)
    ensures
        number_in(decimal(n)) == Some(n),
{
    lemma_decimal_digits(n);
    assert(is_digit(decimal(n)[0]));
}

/// Two numbers with the same decimal text are the same number.
pub proof fn law_decimal_is_injective(m: nat, n: nat)
    requires
        decimal(m) == decimal(n),
    ensures
        m == n,
{
    lemma_decimal_digits(m);
    lemma_decimal_digits(n);
}

/// No digits stand for zero, and every further digit multiplies by ten and adds what the digit
/// is worth.
pub proof fn law_digits_count_by_tens(s: Seq<char>, digit: char)
    requires
        '0' <= digit <= '9',
    ensures
        digits_value(Seq::empty()) == 0,
        digits_value(s.push(digit)) == 10 * digits_value(s) + (digit as int - '0' as int),
{
    assert(s.push(digit).drop_last() =~= s);
}

/// A text of digits, at least one, is the number that they stand for, and so is the same text
/// after a `+`.  Any other text is no number.
pub proof fn law_number_is_a_row_of_digits(s: Seq<char>)
    ensures
        s.len() > 0 && (forall|i: int| 0 <= i < s.len() ==> '0' <= #[trigger] s[i] <= '9') ==> {
            &&& number_in(s) == Some(digits_value(s))
            &&& number_in(seq!['+'] + s) == Some(digits_value(s))
        },
        s.len() == 0 || (exists|i: int|
            0 <= i < s.len() && !('0' <= #[trigger] s[i] <= '9')) ==> {
            &&& number_in(seq!['+'] + s) is None
            &&& number_in(s) is Some ==> s.len() > 0 && s[0] == '+'
        },
{
    assert(without_plus(seq!['+'] + s) =~= s);
    if exists|i: int| 0 <= i < s.len() && !('0' <= #[trigger] s[i] <= '9') {
        let i = choose|i: int| 0 <= i < s.len() && !('0' <= #[trigger] s[i] <= '9');
        assert(!is_digit(s[i]));
    } else if s.len() > 0 {
        assert forall|i: int| 0 <= i < s.len() implies is_digit(#[trigger] s[i]) by {
            assert('0' <= s[i] <= '9');
        }
        assert(is_digit(s[0]));
    }
}

/// Reading gives every number that fits, and no other.  An empty text is told apart; of the
/// others, one that starts with a number that is too large is too large, whatever follows, and
/// any other holds a character that is no digit, or no digit at all.
pub proof fn law_reading_gives_the_number(s: Seq<char>)
    ensures
        forall|n: u32| number_read(s) == Ok::<u32, NumberError>(n) <==> number_in(s) == Some(n as nat),
        number_read(s) == Err::<u32, NumberError>(NumberError::Empty) <==> s.len() == 0,
        number_read(s) == Err::<u32, NumberError>(NumberError::PosOverflow) <==> exists|k: int|
            0 <= k <= s.len() && (number_in(#[trigger] s.take(k)) matches Some(n) && n > u32::MAX),
{
    let digits = without_plus(s);
    let shift: int = if s.len() > 0 && s[0] == '+' {
        1
    } else {
        0
    };
    if s.len() == 0 {
        assert(digits.take(0) =~= Seq::empty());
    }
    if overflows(digits) {
        let k = choose|k: int|
            0 <= k <= digits.len() && all_digits(#[trigger] digits.take(k)) && digits_value(
                digits.take(k),
            ) > u32::MAX;
        assert(without_plus(s.take(k + shift)) =~= digits.take(k));
        assert(number_in(s.take(k + shift)) == Some(digits_value(digits.take(k))));
        if number_in(s) is Some {
            lemma_digits_value_grows(digits, k);
        }
    }
    assert forall|k: int|
        0 <= k <= s.len() && (number_in(#[trigger] s.take(k)) matches Some(n) && n
            > u32::MAX) implies overflows(digits) by {
        assert(k >= shift);
        assert(without_plus(s.take(k)) =~= digits.take(k - shift));
    }
}

/// A number is written with digits only, and starts with a zero only where it is zero.
pub proof fn law_decimal_is_short(n: nat)
    ensures
        decimal(n).len() > 0,
        forall|i: int| 0 <= i < decimal(n).len() ==> '0' <= #[trigger] decimal(n)[i] <= '9',
        decimal(n)[0] == '0' ==> n == 0 && decimal(n).len() == 1,
    decreases n,
{
    lemma_decimal_digits(n);
    assert forall|i: int| 0 <= i < decimal(n).len() implies '0' <= #[trigger] decimal(n)[i]
        <= '9' by {
        assert(is_digit(decimal(n)[i]));
    }
    if n >= 10 {
        law_decimal_is_short(n / 10);
        assert(decimal(n)[0] == decimal(n / 10)[0]);
    }
}

/// A line ends at the first line feed, and a carriage return before it belongs to the ending; the
/// lines of what follows come after it.  Text without a line feed is one line, unless it is
/// empty.
pub proof fn law_lines_end_at_line_feeds(line: Seq<char>, rest: Seq<char>)
    requires
        forall|i: int| 0 <= i < line.len() ==> line[i] != '\n',
    ensures
        lines_of(line + seq!['\n'] + rest) == seq![
            if line.len() > 0 && line.last() == '\r' {
                line.drop_last()
            } else {
                line
            },
        ] + lines_of(rest),
        line.len() > 0 ==> lines_of(line) == seq![line],
        lines_of(Seq::empty()).len() == 0,
{
    let text = line + seq!['\n'] + rest;
    lemma_find_from(text, '\n', 0, line.len() as int);
    assert(text.take(line.len() as int) =~= line);
    assert(text.skip(line.len() as int + 1) =~= rest);
    if line.len() > 0 {
        lemma_find_from(line, '\n', 0, line.len() as int);
    }
}

/// The view of a row of strings holds each of them, in order.
pub proof fn law_views_hold_every_string(strings: Seq<String>)
    ensures
        views(strings).len() == strings.len(),
        forall|i: int| 0 <= i < strings.len() ==> #[trigger] views(strings)[i] == strings[i]@,
{
}

} // verus!
