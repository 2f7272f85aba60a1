//! Reading a move that a person typed: a cell number from 1 to 9, with white
//! space around it allowed.

use vstd::prelude::*;
use crate::board::{is_open, is_open_at, Board};
use crate::enums::Cell;

verus! {

/// Why a typed move is turned down.
#[derive(Clone, Copy, Debug, PartialEq, Eq, Structural)]
pub enum InputError {
    /// The text is not an unsigned decimal number that fits a `usize`.
    NotANumber,
    /// The number names no cell of the board, or a cell that is taken.
    Unavailable,
}

/// White space: the characters with the Unicode property `White_Space`.
pub open spec fn is_blank(c: char) -> bool {
    let n = c as u32;
    ||| 0x09 <= n <= 0x0D
    ||| n == 0x20
    ||| n == 0x85
    ||| n == 0xA0
    ||| n == 0x1680
    ||| 0x2000 <= n <= 0x200A
    ||| n == 0x2028
    ||| n == 0x2029
    ||| n == 0x202F
    ||| n == 0x205F
    ||| n == 0x3000
}

/// One of the ten decimal digits.
pub open spec fn is_digit(c: char) -> bool {
    0x30 <= c as u32 <= 0x39
}

/// The number that a decimal digit stands for.
pub open spec fn digit_value(c: char) -> int {
    c as u32 - 0x30
}

/// `s` without the white space at its front.
pub open spec fn trim_front(s: Seq<char>) -> Seq<char>
    decreases s.len(),
{
    if s.len() > 0 && is_blank(s.first()) {
        trim_front(s.drop_first())
    } else {
        s
    }
}

/// `s` without the white space at its back.
pub open spec fn trim_back(s: Seq<char>) -> Seq<char>
    decreases s.len(),
{
    if s.len() > 0 && is_blank(s.last()) {
        trim_back(s.drop_last())
    } else {
        s
    }
}

/// `s` without the white space at either end.
pub open spec fn trimmed(s: Seq<char>) -> Seq<char> {
    trim_back(trim_front(s))
}

/// `s` without one leading plus sign.
pub open spec fn unsigned(s: Seq<char>) -> Seq<char> {
    if s.len() > 0 && s.first() == '+' {
        s.drop_first()
    } else {
        s
    }
}

/// Every character of `s` is a decimal digit.
pub open spec fn all_digits(s: Seq<char>) -> bool {
    forall|i: int| 0 <= i < s.len() ==> is_digit(#[trigger] s[i])
}

/// The number that the decimal digits `s` write; 0 for none.
pub open spec fn decimal(s: Seq<char>) -> int
    decreases s.len(),
{
    if s.len() == 0 {
        0
    } else {
        10 * decimal(s.drop_last()) + digit_value(s.last())
    }
}

/// The number that a line of text stands for: white space at both ends is
/// ignored, and what is left must be an optional plus sign followed by one or
/// more decimal digits that write a value of `usize`.
pub open spec fn number_in(s: Seq<char>) -> Option<usize> {
    let digits = unsigned(trimmed(s));
    if digits.len() > 0 && all_digits(digits) && decimal(digits) <= usize::MAX {
        Some(decimal(digits) as usize)
    } else {
        None
    }
}

/// The cell that the number `n` names on board `b`: cell `n - 1`, which must
/// exist and be empty.
pub open spec fn cell_for(b: Seq<Cell>, n: usize) -> Result<usize, InputError> {
    if is_open_at(b, n - 1) {
        Ok((n - 1) as usize)
    } else {
        Err(InputError::Unavailable)
    }
}

/// The cell that a line of text names on board `b`.
pub open spec fn move_in(b: Seq<Cell>, s: Seq<char>) -> Result<usize, InputError> {
    match number_in(s) {
        None => Err(InputError::NotANumber),
        Some(n) => cell_for(b, n),
    }
}

/// Whether `c` is white space.
pub fn is_whitespace(c: char) -> (blank: bool)
    ensures
        blank == is_blank(c),
{
    let n: u32 = c as u32;
    (0x09 <= n && n <= 0x0D) || n == 0x20 || n == 0x85 || n == 0xA0 || n == 0x1680 || (0x2000 <= n
        && n <= 0x200A) || n == 0x2028 || n == 0x2029 || n == 0x202F || n == 0x205F || n == 0x3000
}

/// The characters of `text`, in order.
pub fn chars_of(text: &str) -> (chars: Vec<char>)
    ensures
        chars@ == text@,
{
    let mut chars: Vec<char> = Vec::new();
    for c in it: text.chars()
        invariant
            chars@ == it.seq().take(it.index() as int),
            it.seq() == text@,
    {
        chars.push(c);
    }
    chars
}

/// Trimming the front of a text that starts with white space is trimming the
/// front of the rest.
proof fn lemma_trim_front_step(s: Seq<char>, i: int)
    requires
        0 <= i < s.len(),
        is_blank(s[i]),
    ensures
        trim_front(s.skip(i)) == trim_front(s.skip(i + 1)),
{
    assert(s.skip(i).drop_first() =~= s.skip(i + 1));
}

/// Trimming the back of a text that ends with white space is trimming the
/// back of the rest.
proof fn lemma_trim_back_step(s: Seq<char>, start: int, end: int)
    requires
        0 <= start < end <= s.len(),
        is_blank(s[end - 1]),
    ensures
        trim_back(s.subrange(start, end)) == trim_back(s.subrange(start, end - 1)),
{
    assert(s.subrange(start, end).drop_last() =~= s.subrange(start, end - 1));
}

/// Finds the part of `chars` that is left when the white space at both ends
/// is taken away, as a half-open range of indices.
pub fn trim(chars: &Vec<char>) -> (span: (usize, usize))
    ensures
        span.0 <= span.1 <= chars@.len(),
        chars@.subrange(span.0 as int, span.1 as int) == trimmed(chars@),
{
    let mut start: usize = 0;
    assert(chars@.skip(0) =~= chars@);
    while start < chars.len() && is_whitespace(chars[start])
        invariant
            start <= chars@.len(),
            trim_front(chars@) == trim_front(chars@.skip(start as int)),
        decreases chars@.len() - start,
    {
        proof {
            lemma_trim_front_step(chars@, start as int);
        }
        start += 1;
    }
    let mut end: usize = chars.len();
    while start < end && is_whitespace(chars[end - 1])
        invariant
            start <= end <= chars@.len(),
            trimmed(chars@) == trim_back(chars@.subrange(start as int, end as int)),
        decreases end - start,
    {
        proof {
            lemma_trim_back_step(chars@, start as int, end as int);
        }
        end -= 1;
    }
    (start, end)
}

/// A number written with more digits is no smaller than the number that its
/// leading digits write.
proof fn lemma_decimal_grows(s: Seq<char>, shorter: int)
    requires
        all_digits(s),
        0 <= shorter <= s.len(),
    ensures
        0 <= decimal(s.take(shorter)) <= decimal(s),
    decreases s.len() - shorter,
{
    if shorter == s.len() {
        assert(s.take(shorter) =~= s);
        lemma_decimal_nonnegative(s);
    } else {
        lemma_decimal_grows(s, shorter + 1);
        let longer = s.take(shorter + 1);
        assert(longer.drop_last() =~= s.take(shorter));
        lemma_decimal_nonnegative(s.take(shorter));
    }
}

/// Decimal digits write a number that is not negative.
proof fn lemma_decimal_nonnegative(s: Seq<char>)
    requires
        all_digits(s),
    ensures
        0 <= decimal(s),
    decreases s.len(),
{
    if s.len() > 0 {
        lemma_decimal_nonnegative(s.drop_last());
    }
}

/// Reads the number that `text` stands for, if it stands for one.
pub fn parse_number(text: &str) -> (number: Option<usize>)
    ensures
        number == number_in(text@),
{
    let chars = chars_of(text);
    let (start, end) = trim(&chars);
    let first: usize = if start < end && chars[start] == '+' {
        start + 1
    } else {
        start
    };
    let ghost digits = chars@.subrange(first as int, end as int);
    if first == end {
        return None;
    }
    let mut value: usize = 0;
    let mut i: usize = first;
    while i < end
        invariant
            first <= i <= end <= chars@.len(),
            digits == chars@.subrange(first as int, end as int),
            digits == unsigned(trimmed(text@)),
            all_digits(digits.take(i - first)),
            value as int == decimal(digits.take(i - first)),
        decreases end - i,
    {
        let n: u32 = chars[i] as u32;
        if n < 0x30 || n > 0x39 {
            assert(!is_digit(digits[i - first]));
            return None;
        }
        let d: usize = (n - 0x30) as usize;
        proof {
            let longer = digits.take(i - first + 1);
            assert(longer.drop_last() =~= digits.take(i - first));
        }
        if value > (usize::MAX - d) / 10 {
            proof {
                if all_digits(digits) {
                    lemma_decimal_grows(digits, i - first + 1);
                }
            }
            return None;
        }
        value = 10 * value + d;
        i += 1;
    }
    assert(digits.take(end - first) =~= digits);
    Some(value)
}

/// Turns the number that a person typed into the cell it names on `board`.
pub fn select_cell(board: &Board, number: usize) -> (choice: Result<usize, InputError>)
    ensures
        choice == cell_for(board@, number),
{
    if number >= 1 && is_open(board, number - 1) {
        Ok(number - 1)
    } else {
        Err(InputError::Unavailable)
    }
}

/// Reads the move that a person typed for `board`: a cell number from 1 to 9
/// that names an empty cell. Any other text is turned down, with the reason.
pub fn player_move(board: &Board, input: &str) -> (choice: Result<usize, InputError>)
    ensures
        choice == move_in(board@, input@),
{
    match parse_number(input) {
        None => Err(InputError::NotANumber),
        Some(number) => select_cell(board, number),
    }
}

} // verus!
