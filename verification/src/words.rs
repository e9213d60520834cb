//! Splitting text into words.

use vstd::prelude::*;

verus! {

/// A character that separates words: one with the Unicode property
/// `White_Space`.
pub open spec fn is_space(c: char) -> bool {
    let n = c as u32;
    ||| 0x09 <= n <= 0x0d
    ||| n == 0x20
    ||| n == 0x85
    ||| n == 0xa0
    ||| n == 0x1680
    ||| 0x2000 <= n <= 0x200a
    ||| n == 0x2028
    ||| n == 0x2029
    ||| n == 0x202f
    ||| n == 0x205f
    ||| n == 0x3000
}

/// Whether the character separates words.
pub fn is_whitespace(c: char) -> (r: bool)
    ensures
        r == is_space(c),
{
    let n = c as u32;
    (0x09 <= n && n <= 0x0d) || n == 0x20 || n == 0x85 || n == 0xa0 || n == 0x1680 || (0x2000 <= n
        && n <= 0x200a) || n == 0x2028 || n == 0x2029 || n == 0x202f || n == 0x205f || n == 0x3000
}

/// Whether `c` occurs in `text`.
pub fn contains_char(text: &str, c: char) -> (r: bool)
    ensures
        r == text@.contains(c),
{
    let mut found = false;
    for d in it: text.chars()
        invariant
            it.seq() == text@,
            found == text@.subrange(0, it.index() as int).contains(c),
    {
        let ghost shorter = text@.subrange(0, it.index() as int);
        let ghost longer = text@.subrange(0, it.index() + 1);
        assert(longer.drop_last() =~= shorter);
        assert(longer.last() == d);
        proof {
            if shorter.contains(c) {
                let k = choose|k: int| 0 <= k < shorter.len() && shorter[k] == c;
                assert(longer[k] == c);
            }
            if longer.contains(c) && d != c {
                let k = choose|k: int| 0 <= k < longer.len() && longer[k] == c;
                assert(shorter[k] == c);
            }
        }
        if d == c {
            found = true;
        }
    }
    assert(text@.subrange(0, text@.len() as int) =~= text@);
    found
}

/// `String::push`: appends one character.
#[verifier::external_body]
fn push_char(text: &mut String, c: char)
    ensures
        final(text)@ == old(text)@.push(c),
{
    text.push(c)
}

/// The characters of `text`.
pub fn chars_of(text: &str) -> (chars: Vec<char>)
    ensures
        chars@ == text@,
{
    let mut chars: Vec<char> = Vec::new();
    for c in it: text.chars()
        invariant
            chars@ == it.seq().subrange(0, it.index() as int),
            it.seq() == text@,
    {
        chars.push(c);
    }
    chars
}

/// The words that are complete after `text`, and the word that `text`
/// ends in: a space closes the word before it, any other character
/// lengthens it.
pub open spec fn split_state(text: Seq<char>) -> (Seq<Seq<char>>, Seq<char>)
    decreases text.len(),
{
    if text.len() == 0 {
        (Seq::empty(), Seq::empty())
    } else {
        let (done, current) = split_state(text.drop_last());
        if !is_space(text.last()) {
            (done, current.push(text.last()))
        } else if current.len() > 0 {
            (done.push(current), Seq::empty())
        } else {
            (done, current)
        }
    }
}

/// The words of `text`: its longest runs of characters that are no
/// spaces, the first of them first.
pub open spec fn words_of(text: Seq<char>) -> Seq<Seq<char>> {
    let (done, current) = split_state(text);
    if current.len() > 0 {
        done.push(current)
    } else {
        done
    }
}

/// The texts of a vector of strings.
pub open spec fn texts(words: Seq<String>) -> Seq<Seq<char>> {
    words.map_values(|w: String| w@)
}

/// The words of `text`.
pub fn split_whitespace(text: &str) -> (words: Vec<String>)
    ensures
        texts(words@) == words_of(text@),
{
    let mut words: Vec<String> = Vec::new();
    let mut current = String::new();
    let mut filled = false;
    for c in it: text.chars()
        invariant
            it.seq() == text@,
            (texts(words@), current@) == split_state(text@.subrange(0, it.index() as int)),
            filled == (current@.len() > 0),
    {
        let ghost before = text@.subrange(0, it.index() as int);
        let ghost after = text@.subrange(0, it.index() + 1);
        assert(after.drop_last() =~= before);
        assert(after.last() == c);
        if !is_whitespace(c) {
            push_char(&mut current, c);
            filled = true;
        } else if filled {
            let ghost old_words = words@;
            words.push(current);
            assert(texts(words@) =~= texts(old_words).push(current@));
            current = String::new();
            filled = false;
        }
    }
    assert(text@.subrange(0, text@.len() as int) =~= text@);
    if filled {
        let ghost old_words = words@;
        words.push(current);
        assert(texts(words@) =~= texts(old_words).push(current@));
    }
    words
}

/// The two parts of `text` around the first `sep` in it.
pub open spec fn parts(text: Seq<char>, sep: char) -> Option<(Seq<char>, Seq<char>)> {
    match text.index_of_first(sep) {
        Some(at) => Some((text.subrange(0, at), text.subrange(at + 1, text.len() as int))),
        None => None,
    }
}

/// The characters of `chars` from `from` up to `to`, as a string.
pub(crate) fn string_of(chars: &Vec<char>, from: usize, to: usize) -> (text: String)
    requires
        from <= to <= chars@.len(),
    ensures
        text@ == chars@.subrange(from as int, to as int),
{
    let mut text = String::new();
    let mut i: usize = from;
    while i < to
        invariant
            from <= i <= to <= chars@.len(),
            text@ == chars@.subrange(from as int, i as int),
        decreases to - i,
    {
        push_char(&mut text, chars[i]);
        i += 1;
        assert(text@ =~= chars@.subrange(from as int, i as int));
    }
    text
}

/// Splits `text` at the first `sep` in it: what stands before it and what
/// follows it, or nothing where `text` holds no `sep`.
pub fn split_once(text: &str, sep: char) -> (r: Option<(String, String)>)
    ensures
        match r {
            Some((head, tail)) => parts(text@, sep) == Some((head@, tail@)),
            None => parts(text@, sep) is None,
        },
{
    let chars = chars_of(text);
    let mut i: usize = 0;
    while i < chars.len() && chars[i] != sep
        invariant
            i <= chars@.len(),
            forall|k: int| 0 <= k < i ==> chars@[k] != sep,
        decreases chars@.len() - i,
    {
        i += 1;
    }
    proof {
        chars@.index_of_first_ensures(sep);
    }
    if i == chars.len() {
        assert(!chars@.contains(sep));
        return None;
    }
    proof {
        assert(chars@.contains(sep));
        let at = chars@.index_of_first(sep).unwrap();
        if at < i {
            assert(chars@[at] != sep);
        }
        assert(at == i);
    }
    let head = string_of(&chars, 0, i);
    let tail = string_of(&chars, i + 1, chars.len());
    Some((head, tail))
}

} // verus!
