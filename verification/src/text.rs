//! Text as UTF-8 bytes: searching, decimal numbers, and whole characters
//! at the end of a string.

use vstd::prelude::*;
use vstd::string::StringExecFns;

verus! {

/// `needle` stands in `hay` at index `i`.
pub open spec fn occurs_at(hay: Seq<u8>, needle: Seq<u8>, i: int) -> bool {
    0 <= i && i + needle.len() <= hay.len() && hay.subrange(i, i + needle.len()) == needle
}

/// `needle` stands in `hay` at index `i` and nowhere before.
pub open spec fn is_first_at(hay: Seq<u8>, needle: Seq<u8>, i: int) -> bool {
    occurs_at(hay, needle, i) && forall|j: int| 0 <= j < i ==> !occurs_at(hay, needle, j)
}

/// The index of the first place at which `needle` stands in `hay`.
pub open spec fn first_occurrence(hay: Seq<u8>, needle: Seq<u8>) -> Option<int> {
    if exists|i: int| occurs_at(hay, needle, i) {
        Some(choose|i: int| is_first_at(hay, needle, i))
    } else {
        None
    }
}

/// Where `needle` stands first at `i`, `i` is its first occurrence.
pub proof fn lemma_first_occurrence(hay: Seq<u8>, needle: Seq<u8>, i: int)
    requires
        is_first_at(hay, needle, i),
    ensures
        first_occurrence(hay, needle) == Some(i),
{
    let c = choose|c: int| is_first_at(hay, needle, c);
    assert(is_first_at(hay, needle, c));
    if c < i {
        assert(!occurs_at(hay, needle, c));
    }
    if i < c {
        assert(!occurs_at(hay, needle, i));
    }
}

/// Whether `needle` stands in `hay` at index `i`.
fn matches_at(hay: &[u8], needle: &[u8], i: usize) -> (r: bool)
    requires
        i + needle@.len() <= hay@.len(),
    ensures
        r == occurs_at(hay@, needle@, i as int),
{
    let hay_len = hay.len();
    let mut k: usize = 0;
    while k < needle.len()
        invariant
            k <= needle@.len(),
            i + needle@.len() <= hay@.len(),
            hay_len == hay@.len(),
            forall|m: int| 0 <= m < k ==> hay@[i + m] == needle@[m],
        decreases needle@.len() - k,
    {
        if hay[i + k] != needle[k] {
            assert(hay@.subrange(i as int, i + needle@.len())[k as int] != needle@[k as int]);
            return false;
        }
        k += 1;
    }
    assert(hay@.subrange(i as int, i + needle@.len()) =~= needle@);
    true
}

/// The index of the first place at which `needle` stands in `hay`.
pub fn find(hay: &[u8], needle: &[u8]) -> (r: Option<usize>)
    ensures
        match r {
            Some(i) => first_occurrence(hay@, needle@) == Some(i as int) && is_first_at(
                hay@,
                needle@,
                i as int,
            ),
            None => first_occurrence(hay@, needle@) is None,
        },
{
    if needle.len() > hay.len() {
        return None;
    }
    let last: usize = hay.len() - needle.len();
    let mut i: usize = 0;
    loop
        invariant
            i <= last,
            last == hay@.len() - needle@.len(),
            forall|j: int| 0 <= j < i ==> !occurs_at(hay@, needle@, j),
        decreases last - i,
    {
        if matches_at(hay, needle, i) {
            proof {
                lemma_first_occurrence(hay@, needle@, i as int);
            }
            return Some(i);
        }
        if i == last {
            return None;
        }
        i += 1;
    }
}

/// An ASCII digit.
pub open spec fn is_digit(b: u8) -> bool {
    48 <= b <= 57
}

/// The number that the digits spell in base ten.
pub open spec fn digits_value(digits: Seq<u8>) -> nat
    decreases digits.len(),
{
    if digits.len() == 0 {
        0
    } else {
        10 * digits_value(digits.drop_last()) + (digits.last() - 48) as nat
    }
}

/// The text without the `+` that it may start with.
pub open spec fn unsigned_part(text: Seq<u8>) -> Seq<u8> {
    if text.len() > 0 && text[0] == 43 {
        text.drop_first()
    } else {
        text
    }
}

/// The `u32` that the digits spell: one or more digits whose value fits.
pub open spec fn digits_u32(digits: Seq<u8>) -> Option<u32> {
    if digits.len() > 0 && (forall|i: int| 0 <= i < digits.len() ==> is_digit(digits[i]))
        && digits_value(digits) <= u32::MAX {
        Some(digits_value(digits) as u32)
    } else {
        None
    }
}

/// The `u32` that `text` spells: an optional `+`, then one or more digits
/// whose value fits. Anything else spells no number.
pub open spec fn spells_u32(text: Seq<u8>) -> Option<u32> {
    digits_u32(unsigned_part(text))
}

/// More digits never spell a smaller number.
proof fn lemma_digits_grow(digits: Seq<u8>, n: int)
    requires
        0 <= n <= digits.len(),
        forall|i: int| 0 <= i < digits.len() ==> is_digit(digits[i]),
    ensures
        digits_value(digits.subrange(0, n)) <= digits_value(digits),
    decreases digits.len() - n,
{
    if n == digits.len() {
        assert(digits.subrange(0, n) =~= digits);
    } else {
        lemma_digits_grow(digits, n + 1);
        let longer = digits.subrange(0, n + 1);
        assert(longer.drop_last() =~= digits.subrange(0, n));
    }
}

/// The `u32` that `text` spells.
pub fn parse_u32(text: &[u8]) -> (r: Option<u32>)
    ensures
        r == spells_u32(text@),
{
    let start: usize = if text.len() > 0 && text[0] == 43 {
        1
    } else {
        0
    };
    let ghost digits = if start == 1 {
        text@.drop_first()
    } else {
        text@
    };
    if start == text.len() {
        return None;
    }
    assert(digits =~= text@.subrange(start as int, text@.len() as int));
    let mut value: u64 = 0;
    let mut i: usize = start;
    while i < text.len()
        invariant
            start <= i <= text@.len(),
            digits == text@.subrange(start as int, text@.len() as int),
            digits == unsigned_part(text@),
            forall|j: int| 0 <= j < i - start ==> is_digit(digits[j]),
            value == digits_value(digits.subrange(0, i - start)),
            value <= u32::MAX,
        decreases text@.len() - i,
    {
        let b = text[i];
        if b < 48 || b > 57 {
            assert(!is_digit(digits[i - start]));
            return None;
        }
        let ghost shorter = digits.subrange(0, i - start);
        let ghost longer = digits.subrange(0, i + 1 - start);
        assert(longer.drop_last() =~= shorter);
        assert(longer.last() == b);
        let next: u64 = value * 10 + (b - 48) as u64;
        if next > u32::MAX as u64 {
            proof {
                if forall|j: int| 0 <= j < digits.len() ==> is_digit(digits[j]) {
                    lemma_digits_grow(digits, i + 1 - start);
                }
            }
            return None;
        }
        value = next;
        i += 1;
    }
    assert(digits.subrange(0, i - start) =~= digits);
    Some(value as u32)
}

/// A byte that continues a character begun by an earlier byte.
pub open spec fn is_continuation(b: u8) -> bool {
    128 <= b < 192
}

/// The bytes without their last character: without the last byte that
/// begins a character and the bytes that continue it.
pub open spec fn without_last_char(bytes: Seq<u8>) -> Seq<u8>
    decreases bytes.len(),
{
    if bytes.len() == 0 {
        bytes
    } else if is_continuation(bytes.last()) {
        without_last_char(bytes.drop_last())
    } else {
        bytes.drop_last()
    }
}

/// The bytes without their last `n` characters, or without all of them
/// where they hold fewer.
pub open spec fn without_last_chars(bytes: Seq<u8>, n: nat) -> Seq<u8>
    decreases n,
{
    if n == 0 {
        bytes
    } else {
        without_last_chars(without_last_char(bytes), (n - 1) as nat)
    }
}

/// Removes the last character.
pub fn pop_char(bytes: &mut Vec<u8>)
    ensures
        final(bytes)@ == without_last_char(old(bytes)@),
{
    loop
        invariant
            without_last_char(bytes@) == without_last_char(old(bytes)@),
        decreases bytes@.len(),
    {
        match bytes.pop() {
            Some(b) => {
                if b < 128 || b >= 192 {
                    return ;
                }
            },
            None => {
                return ;
            },
        }
    }
}

/// Removes the last `n` characters.
pub fn pop_chars(bytes: &mut Vec<u8>, n: usize)
    ensures
        final(bytes)@ == without_last_chars(old(bytes)@, n as nat),
{
    let mut left: usize = n;
    while left > 0
        invariant
            without_last_chars(bytes@, left as nat) == without_last_chars(old(bytes)@, n as nat),
        decreases left,
    {
        pop_char(bytes);
        left -= 1;
    }
}

/// The character of a digit below ten.
pub open spec fn digit_char(d: nat) -> char {
    if d == 0 {
        '0'
    } else if d == 1 {
        '1'
    } else if d == 2 {
        '2'
    } else if d == 3 {
        '3'
    } else if d == 4 {
        '4'
    } else if d == 5 {
        '5'
    } else if d == 6 {
        '6'
    } else if d == 7 {
        '7'
    } else if d == 8 {
        '8'
    } else {
        '9'
    }
}

/// The decimal digits of `n` as text, most significant first.
pub open spec fn decimal_text(n: nat) -> Seq<char>
    decreases n,
{
    if n < 10 {
        seq![digit_char(n)]
    } else {
        decimal_text(n / 10).push(digit_char(n % 10))
    }
}

/// The text of one digit.
fn digit_str(d: u32) -> (s: &'static str)
    requires
        d < 10,
    ensures
        s@ == seq![digit_char(d as nat)],
{
    proof {
        reveal_strlit("0");
        reveal_strlit("1");
        reveal_strlit("2");
        reveal_strlit("3");
        reveal_strlit("4");
        reveal_strlit("5");
        reveal_strlit("6");
        reveal_strlit("7");
        reveal_strlit("8");
        reveal_strlit("9");
    }
    let s = if d == 0 {
        "0"
    } else if d == 1 {
        "1"
    } else if d == 2 {
        "2"
    } else if d == 3 {
        "3"
    } else if d == 4 {
        "4"
    } else if d == 5 {
        "5"
    } else if d == 6 {
        "6"
    } else if d == 7 {
        "7"
    } else if d == 8 {
        "8"
    } else {
        "9"
    };
    assert(s@ =~= seq![digit_char(d as nat)]);
    s
}

/// Appends the decimal digits of `n`.
pub fn push_decimal_text(n: u32, out: &mut String)
    ensures
        final(out)@ == old(out)@ + decimal_text(n as nat),
    decreases n,
{
    if n >= 10 {
        push_decimal_text(n / 10, out);
    }
    out.append(digit_str(n % 10));
    assert(out@ =~= old(out)@ + decimal_text(n as nat));
}

} // verus!
