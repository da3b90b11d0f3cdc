//! Numbers as text: integers in decimal, and the texts that write a
//! floating-point number.

use vstd::prelude::*;
use crate::text::to_chars;

verus! {

/// A decimal digit.
pub open spec fn is_digit(c: char) -> bool {
    '0' <= c <= '9'
}

/// The text is made of decimal digits alone.
pub open spec fn all_digits(text: Seq<char>) -> bool {
    forall|i: int| 0 <= i < text.len() ==> is_digit(#[trigger] text[i])
}

/// The number that a run of decimal digits writes.
pub open spec fn digits_value(digits: Seq<char>) -> int
    decreases digits.len(),
{
    if digits.len() == 0 {
        0
    } else {
        digits_value(digits.drop_last()) * 10 + (digits.last() as int - '0' as int)
    }
}

/// The signed 64-bit integer that `text` writes in decimal: an optional
/// sign, then at least one digit, and a value that fits.
pub open spec fn decimal_i64(text: Seq<char>) -> Option<i64> {
    let signed = text.len() > 0 && (text[0] == '-' || text[0] == '+');
    let digits = if signed {
        text.drop_first()
    } else {
        text
    };
    let value = if signed && text[0] == '-' {
        -digits_value(digits)
    } else {
        digits_value(digits)
    };
    if digits.len() > 0 && all_digits(digits) && i64::MIN <= value <= i64::MAX {
        Some(value as i64)
    } else {
        None
    }
}

/// A longer run of digits writes no smaller a number than its beginning.
pub proof fn lemma_digits_value_grows(digits: Seq<char>, k: int)
    requires
        all_digits(digits),
        0 <= k <= digits.len(),
    ensures
        0 <= digits_value(digits.take(k)) <= digits_value(digits),
    decreases digits.len() - k,
{
    if k == digits.len() {
        assert(digits.take(k) =~= digits);
        lemma_digits_value_nonnegative(digits);
    } else {
        lemma_digits_value_grows(digits, k + 1);
        let longer = digits.take(k + 1);
        assert(longer.drop_last() =~= digits.take(k));
        assert(is_digit(digits[k]));
        assert(longer.last() == digits[k]);
        lemma_digits_value_nonnegative(digits.take(k));
    }
}

/// Digits write no negative number.
pub proof fn lemma_digits_value_nonnegative(digits: Seq<char>)
    requires
        all_digits(digits),
    ensures
        0 <= digits_value(digits),
    decreases digits.len(),
{
    if digits.len() > 0 {
        assert(is_digit(digits[digits.len() - 1]));
        lemma_digits_value_nonnegative(digits.drop_last());
    }
}

/// Reads a signed 64-bit integer in decimal.
pub fn parse_i64(text: &[char]) -> (number: Option<i64>)
    ensures
        number == decimal_i64(text@),
{
    let n = text.len();
    let signed = n > 0 && (text[0] == '-' || text[0] == '+');
    let negative = signed && text[0] == '-';
    let start: usize = if signed {
        1
    } else {
        0
    };
    let ghost digits = if signed {
        text@.drop_first()
    } else {
        text@
    };
    if start == n {
        return None;
    }
    let mut magnitude: i128 = 0;
    let mut i: usize = start;
    while i < n
        invariant
            start <= i <= n,
            n == text@.len(),
            signed == (text@.len() > 0 && (text@[0] == '-' || text@[0] == '+')),
            start == if signed { 1usize } else { 0usize },
            digits == if signed { text@.drop_first() } else { text@ },
            all_digits(digits.take(i - start)),
            magnitude == digits_value(digits.take(i - start)),
            0 <= magnitude <= 0x8000_0000_0000_0000,
        decreases n - i,
    {
        let c = text[i];
        if c < '0' || c > '9' {
            assert(!is_digit(digits[i - start]));
            return None;
        }
        let digit: i128 = (c as u32 - '0' as u32) as i128;
        proof {
            let longer = digits.take(i + 1 - start);
            assert(longer.drop_last() =~= digits.take(i - start));
            assert(longer.last() == c);
            assert forall|j: int| 0 <= j < longer.len() implies is_digit(#[trigger] longer[j]) by {
                if j < longer.len() - 1 {
                    assert(digits.take(i - start)[j] == longer[j]);
                }
            }
        }
        magnitude = magnitude * 10 + digit;
        if magnitude > 0x8000_0000_0000_0000 {
            proof {
                if all_digits(digits) {
                    lemma_digits_value_grows(digits, i + 1 - start);
                }
            }
            return None;
        }
        i += 1;
    }
    assert(digits.take(n - start) =~= digits);
    if negative {
        Some((-magnitude) as i64)
    } else if magnitude == 0x8000_0000_0000_0000 {
        None
    } else {
        Some(magnitude as i64)
    }
}

/// The character that writes the digit `d`.
pub open spec fn digit_char(d: int) -> char {
    if d == 0 {
        '0'
    } else if d == 1 {
        '1'
    } else if d == 2 {
        '2'
    } else if d == 3 {
        '3'
    } else if d == 4 {
        '4'
    } else if d == 5 {
        '5'
    } else if d == 6 {
        '6'
    } else if d == 7 {
        '7'
    } else if d == 8 {
        '8'
    } else {
        '9'
    }
}

/// The decimal digits of a natural number, without leading zeros.
pub open spec fn digits_of(n: nat) -> Seq<char>
    decreases n,
{
    if n < 10 {
        seq![digit_char(n as int)]
    } else {
        digits_of(n / 10) + seq![digit_char((n % 10) as int)]
    }
}

/// The decimal text of an integer: a minus sign where it is negative, then
/// its digits.
pub open spec fn decimal(number: int) -> Seq<char> {
    if number < 0 {
        seq!['-'] + digits_of((-number) as nat)
    } else {
        digits_of(number as nat)
    }
}

/// The digits of a number write that number.
pub proof fn lemma_digits_of(n: nat)
    ensures
        digits_of(n).len() >= 1,
        all_digits(digits_of(n)),
        digits_value(digits_of(n)) == n,
    decreases n,
{
    let digits = digits_of(n);
    if n < 10 {
        assert(digits.drop_last() =~= Seq::empty());
        assert(digits_value(digits.drop_last()) == 0);
        assert(digits.last() == digit_char(n as int));
    } else {
        lemma_digits_of(n / 10);
        assert(digits.drop_last() =~= digits_of(n / 10));
        assert(digits.last() == digit_char((n % 10) as int));
        assert forall|i: int| 0 <= i < digits.len() implies is_digit(#[trigger] digits[i]) by {
            if i < digits.len() - 1 {
                assert(digits[i] == digits_of(n / 10)[i]);
            }
        }
    }
}

/// An integer that is written in decimal and read again is the same
/// integer.
pub proof fn lemma_decimal_is_read_back(number: i64)
    ensures
        decimal_i64(decimal(number as int)) == Some(number),
{
    let text = decimal(number as int);
    if number < 0 {
        lemma_digits_of((-number) as nat);
        assert(text.drop_first() =~= digits_of((-number) as nat));
    } else {
        lemma_digits_of(number as nat);
        assert(is_digit(text[0]));
    }
}

fn digit_text(d: u64) -> (text: &'static str)
    requires
        d < 10,
    ensures
        text@ == seq![digit_char(d as int)],
{
    proof {
        reveal_strlit("0");
        reveal_strlit("1");
        reveal_strlit("2");
        reveal_strlit("3");
        reveal_strlit("4");
        reveal_strlit("5");
        reveal_strlit("6");
        reveal_strlit("7");
        reveal_strlit("8");
        reveal_strlit("9");
    }
    let text = if d == 0 {
        "0"
    } else if d == 1 {
        "1"
    } else if d == 2 {
        "2"
    } else if d == 3 {
        "3"
    } else if d == 4 {
        "4"
    } else if d == 5 {
        "5"
    } else if d == 6 {
        "6"
    } else if d == 7 {
        "7"
    } else if d == 8 {
        "8"
    } else {
        "9"
    };
    assert(text@ =~= seq![digit_char(d as int)]);
    text
}

fn append_digits(text: &mut String, n: u64)
    ensures
        final(text)@ == old(text)@ + digits_of(n as nat),
    decreases n,
{
    if n >= 10 {
        append_digits(text, n / 10);
    }
    let ghost before = text@;
    text.append(digit_text(n % 10));
    assert(text@ =~= old(text)@ + digits_of(n as nat));
}

/// The decimal text of `number`.
pub fn format_i64(number: i64) -> (text: String)
    ensures
        text@ == decimal(number as int),
{
    let mut text = String::new();
    if number < 0 {
        proof {
            reveal_strlit("-");
        }
        text.append("-");
        let magnitude: u64 = if number == i64::MIN {
            0x8000_0000_0000_0000
        } else {
            (-number) as u64
        };
        append_digits(&mut text, magnitude);
        assert(text@ =~= seq!['-'] + digits_of((-number) as nat));
    } else {
        append_digits(&mut text, number as u64);
        assert(text@ =~= digits_of(number as nat));
    }
    text
}

/// The lower-case form of an upper-case letter of the alphabet, and every
/// other character as it is.
pub open spec fn lowered(c: char) -> char {
    if 'A' <= c <= 'Z' {
        ((c as u8) + 32) as char
    } else {
        c
    }
}

/// The two texts are the same but for the case of their letters.
pub open spec fn same_but_for_case(text: Seq<char>, word: Seq<char>) -> bool {
    text.len() == word.len() && forall|i: int|
        0 <= i < text.len() ==> lowered(#[trigger] text[i]) == lowered(word[i])
}

/// A mantissa: digits with at most one point among them, and one digit at
/// least.
pub open spec fn is_mantissa(text: Seq<char>) -> bool {
    exists|point: int| is_mantissa_with(text, point)
}

/// A mantissa whose digits before the point end at `point`.
pub open spec fn is_mantissa_with(text: Seq<char>, point: int) -> bool {
    &&& 0 <= point <= text.len()
    &&& all_digits(text.take(point))
    &&& if point == text.len() {
        text.len() >= 1
    } else {
        text[point] == '.' && all_digits(text.skip(point + 1)) && text.len() >= 2
    }
}

/// An exponent: an optional sign, and one digit at least.
pub open spec fn is_exponent(text: Seq<char>) -> bool {
    let signed = text.len() > 0 && (text[0] == '-' || text[0] == '+');
    let digits = if signed {
        text.drop_first()
    } else {
        text
    };
    digits.len() > 0 && all_digits(digits)
}

/// A number in decimal: a mantissa, and after it nothing or the letter e, of
/// either case, and an exponent.
pub open spec fn is_decimal_number(text: Seq<char>) -> bool {
    exists|cut: int| is_decimal_number_with(text, cut)
}

/// A number in decimal whose mantissa ends at `cut`.
pub open spec fn is_decimal_number_with(text: Seq<char>, cut: int) -> bool {
    &&& 0 <= cut <= text.len()
    &&& is_mantissa(text.take(cut))
    &&& cut == text.len() || ((text[cut] == 'e' || text[cut] == 'E') && is_exponent(
        text.skip(cut + 1),
    ))
}

/// The text writes a floating-point number as std reads one: an optional
/// sign, then a number in decimal or one of the words `inf`, `infinity` and
/// `nan` in any case.
pub open spec fn is_float(text: Seq<char>) -> bool {
    let signed = text.len() > 0 && (text[0] == '-' || text[0] == '+');
    let rest = if signed {
        text.drop_first()
    } else {
        text
    };
    is_decimal_number(rest) || same_but_for_case(rest, "inf"@) || same_but_for_case(
        rest,
        "infinity"@,
    ) || same_but_for_case(rest, "nan"@)
}

/// Where the digits that begin at `from` end.
fn digits_end(text: &[char], from: usize) -> (end: usize)
    requires
        from <= text.len(),
    ensures
        from <= end <= text.len(),
        all_digits(text@.subrange(from as int, end as int)),
        end < text.len() ==> !is_digit(text@[end as int]),
{
    let mut end = from;
    while end < text.len() && text[end] >= '0' && text[end] <= '9'
        invariant
            from <= end <= text.len(),
            all_digits(text@.subrange(from as int, end as int)),
        decreases text.len() - end,
    {
        end += 1;
        assert forall|i: int| 0 <= i < end - from implies is_digit(
            #[trigger] text@.subrange(from as int, end as int)[i],
        ) by {
            if i < end - from - 1 {
                assert(text@.subrange(from as int, end - 1)[i] == text@[from + i]);
            }
        }
    }
    end
}

fn word_is(text: &[char], from: usize, word: &str) -> (same: bool)
    requires
        from <= text.len(),
    ensures
        same == same_but_for_case(text@.skip(from as int), word@),
{
    let letters = to_chars(word);
    if text.len() - from != letters.len() {
        return false;
    }
    let mut i: usize = 0;
    while i < letters.len()
        invariant
            i <= letters.len(),
            letters@ == word@,
            from + letters.len() == text.len(),
            forall|j: int|
                0 <= j < i ==> lowered(#[trigger] text@.skip(from as int)[j]) == lowered(
                    letters@[j],
                ),
        decreases letters.len() - i,
    {
        if lower(text[from + i]) != lower(letters[i]) {
            assert(lowered(text@.skip(from as int)[i as int]) != lowered(letters@[i as int]));
            return false;
        }
        i += 1;
    }
    true
}

fn lower(c: char) -> (l: char)
    ensures
        l == lowered(c),
{
    if c >= 'A' && c <= 'Z' {
        ((c as u8) + 32) as char
    } else {
        c
    }
}

/// Where the mantissa that begins at `from` ends, if one begins there that
/// the end of the text or the letter e follows.
fn mantissa_ends(text: &[char], from: usize) -> (end: Option<usize>)
    requires
        from <= text.len(),
    ensures
        match end {
            Some(end) => {
                &&& from <= end <= text.len()
                &&& is_mantissa(text@.subrange(from as int, end as int))
                &&& forall|cut: int|
                    from <= cut <= text.len() && cut != end ==> !(is_mantissa(
                        #[trigger] text@.subrange(from as int, cut),
                    ) && (cut == text.len() || text@[cut] == 'e' || text@[cut] == 'E'))
            },
            None => forall|cut: int|
                from <= cut <= text.len() ==> !(is_mantissa(
                    #[trigger] text@.subrange(from as int, cut),
                ) && (cut == text.len() || text@[cut] == 'e' || text@[cut] == 'E')),
        },
{
    let point = digits_end(text, from);
    let pointed = point < text.len() && text[point] == '.';
    let end = if pointed {
        digits_end(text, point + 1)
    } else {
        point
    };
    let digits = if pointed {
        end - from - 1
    } else {
        end - from
    };
    let ghost all = text@;
    proof {
        // Whatever begins at `from`, is a mantissa and is followed by the
        // end or by the letter e, ends where the digits and the one point
        // end.
        assert forall|cut: int|
            from <= cut <= text.len() && is_mantissa(#[trigger] all.subrange(from as int, cut))
                && (cut == text.len() || all[cut] == 'e' || all[cut] == 'E') implies cut == end
            && digits >= 1 by {
            let part = all.subrange(from as int, cut);
            let at = choose|at: int| is_mantissa_with(part, at);
            assert(part.take(at) =~= all.subrange(from as int, from + at));
            lemma_digits_run(all, from as int, point as int, from + at);
            if at == part.len() {
                assert(cut == point);
            } else {
                assert(part[at] == all[from + at]);
                assert(from + at == point);
                assert(part.skip(at + 1) =~= all.subrange(point + 1, cut));
                lemma_digits_run(all, point + 1, end as int, cut);
                assert(cut == end);
            }
        }
    }
    if digits == 0 {
        return None;
    }
    proof {
        let part = all.subrange(from as int, end as int);
        assert(part.take(point - from) =~= all.subrange(from as int, point as int));
        if pointed {
            assert(part[point - from] == all[point as int]);
            assert(part.skip(point - from + 1) =~= all.subrange(point + 1, end as int));
        }
        assert(is_mantissa_with(part, point - from));
    }
    Some(end)
}

/// Digits that go on from `from` to `end`, where no digit follows, hold
/// every run of digits that begins at `from`.
proof fn lemma_digits_run(text: Seq<char>, from: int, end: int, stop: int)
    requires
        0 <= from <= end <= text.len(),
        from <= stop <= text.len(),
        all_digits(text.subrange(from, end)),
        end < text.len() ==> !is_digit(text[end]),
        all_digits(text.subrange(from, stop)),
    ensures
        stop <= end,
        stop < end ==> is_digit(text[stop]),
{
    if stop > end {
        assert(is_digit(text.subrange(from, stop)[end - from]));
    }
    if stop < end {
        assert(is_digit(text.subrange(from, end)[stop - from]));
    }
}

/// Whether what stands in `text` from `from` on is an exponent.
fn exponent_from(text: &[char], from: usize) -> (exponent: bool)
    requires
        from <= text.len(),
    ensures
        exponent == is_exponent(text@.skip(from as int)),
{
    let n = text.len();
    let signed = from < n && (text[from] == '-' || text[from] == '+');
    let start = if signed {
        from + 1
    } else {
        from
    };
    let stop = digits_end(text, start);
    proof {
        let part = text@.skip(from as int);
        let digits = if signed {
            part.drop_first()
        } else {
            part
        };
        assert(from < n ==> part[0] == text@[from as int]);
        assert(digits =~= text@.skip(start as int));
        if stop == n {
            assert(text@.skip(start as int) =~= text@.subrange(start as int, stop as int));
        } else if all_digits(digits) {
            assert(is_digit(digits[stop - start]));
        }
    }
    stop == n && stop > start
}

/// Whether `text` writes a floating-point number.
pub fn is_float_text(text: &[char]) -> (float: bool)
    ensures
        float == is_float(text@),
{
    let n = text.len();
    let signed = n > 0 && (text[0] == '-' || text[0] == '+');
    let from: usize = if signed {
        1
    } else {
        0
    };
    let ghost rest = text@.skip(from as int);
    proof {
        if signed {
            assert(rest =~= text@.drop_first());
        } else {
            assert(rest =~= text@);
        }
    }
    if word_is(text, from, "inf") || word_is(text, from, "infinity") || word_is(text, from, "nan") {
        return true;
    }
    let found = mantissa_ends(text, from);
    let number = match found {
        None => false,
        Some(end) => {
            if end == n {
                true
            } else if text[end] == 'e' || text[end] == 'E' {
                exponent_from(text, end + 1)
            } else {
                false
            }
        },
    };
    proof {
        assert forall|cut: int| is_decimal_number_with(rest, cut) implies number by {
            assert(rest.take(cut) =~= text@.subrange(from as int, from + cut));
            assert(is_mantissa(text@.subrange(from as int, from + cut)));
            if cut < rest.len() {
                assert(rest[cut] == text@[from + cut]);
                assert(rest.skip(cut + 1) =~= text@.skip(from + cut + 1));
            }
        }
        if number {
            let end = found.unwrap();
            assert(rest.take(end - from) =~= text@.subrange(from as int, end as int));
            if end < n {
                assert(rest[end - from] == text@[end as int]);
                assert(rest.skip(end - from + 1) =~= text@.skip(end + 1));
            }
            assert(is_decimal_number_with(rest, end - from));
        }
    }
    number
}

} // verus!
