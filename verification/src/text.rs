//! Small operations on text: finding a character, and cutting white space
//! from both ends.

use vstd::prelude::*;
use vstd::string::StrSliceExecFns;

verus! {

/// Whether `c` is white space: one of the characters that Unicode counts
/// as `White_Space`.
pub open spec fn is_white_space(c: char) -> bool {
    let code = c as u32;
    ||| 0x09 <= code <= 0x0d
    ||| code == 0x20
    ||| code == 0x85
    ||| code == 0xa0
    ||| code == 0x1680
    ||| 0x2000 <= code <= 0x200a
    ||| code == 0x2028
    ||| code == 0x2029
    ||| code == 0x202f
    ||| code == 0x205f
    ||| code == 0x3000
}

/// Strings as sequences of characters, one for one.
pub open spec fn texts(strings: Seq<String>) -> Seq<Seq<char>> {
    Seq::new(strings.len(), |i: int| strings[i]@)
}

/// How many characters of `text` stand before the first `c`; the length of
/// `text` where it holds no `c`.
pub open spec fn length_before(text: Seq<char>, c: char) -> nat
    decreases text.len(),
{
    if text.len() == 0 || text[0] == c {
        0
    } else {
        1 + length_before(text.drop_first(), c)
    }
}

/// How many characters of white space `text` begins with.
pub open spec fn leading_space(text: Seq<char>) -> nat
    decreases text.len(),
{
    if text.len() == 0 || !is_white_space(text[0]) {
        0
    } else {
        1 + leading_space(text.drop_first())
    }
}

/// How many characters of white space `text` ends with.
pub open spec fn trailing_space(text: Seq<char>) -> nat
    decreases text.len(),
{
    if text.len() == 0 || !is_white_space(text.last()) {
        0
    } else {
        1 + trailing_space(text.drop_last())
    }
}

/// `text` without the white space at its beginning and at its end.
pub open spec fn trimmed(text: Seq<char>) -> Seq<char> {
    let start = leading_space(text);
    if start == text.len() {
        Seq::empty()
    } else {
        text.subrange(start as int, text.len() - trailing_space(text))
    }
}

/// The first `c` of a text stands where no `c` stands before it.
pub proof fn lemma_length_before(text: Seq<char>, c: char)
    ensures
        length_before(text, c) <= text.len(),
        forall|i: int| 0 <= i < length_before(text, c) ==> text[i] != c,
        length_before(text, c) < text.len() ==> text[length_before(text, c) as int] == c,
    decreases text.len(),
{
    if text.len() != 0 && text[0] != c {
        let rest = text.drop_first();
        lemma_length_before(rest, c);
        assert forall|i: int| 0 <= i < length_before(text, c) implies text[i] != c by {
            if i > 0 {
                assert(text[i] == rest[i - 1]);
            }
        }
        if length_before(text, c) < text.len() {
            assert(rest[length_before(rest, c) as int] == text[length_before(text, c) as int]);
        }
    }
}

/// The position that no `c` stands before, and that holds a `c` or is the
/// end, is where the first `c` stands.
pub proof fn lemma_length_before_is(text: Seq<char>, c: char, n: int)
    requires
        0 <= n <= text.len(),
        forall|i: int| 0 <= i < n ==> text[i] != c,
        n < text.len() ==> text[n] == c,
    ensures
        length_before(text, c) == n,
{
    lemma_length_before(text, c);
    let m = length_before(text, c) as int;
    if m < n {
        assert(text[m] != c);
    } else if n < m {
        assert(text[n] != c);
    }
}

/// The white space that a text begins with is all white space, and what
/// follows it is not.
pub proof fn lemma_leading_space(text: Seq<char>)
    ensures
        leading_space(text) <= text.len(),
        forall|i: int| 0 <= i < leading_space(text) ==> is_white_space(#[trigger] text[i]),
        leading_space(text) < text.len() ==> !is_white_space(text[leading_space(text) as int]),
    decreases text.len(),
{
    if text.len() != 0 && is_white_space(text[0]) {
        let rest = text.drop_first();
        lemma_leading_space(rest);
        assert forall|i: int| 0 <= i < leading_space(text) implies is_white_space(
            #[trigger] text[i],
        ) by {
            if i > 0 {
                assert(text[i] == rest[i - 1]);
            }
        }
        if leading_space(text) < text.len() {
            assert(rest[leading_space(rest) as int] == text[leading_space(text) as int]);
        }
    }
}

/// The white space that a text ends with is all white space, and what
/// stands before it is not.
pub proof fn lemma_trailing_space(text: Seq<char>)
    ensures
        trailing_space(text) <= text.len(),
        forall|i: int|
            text.len() - trailing_space(text) <= i < text.len() ==> is_white_space(
                #[trigger] text[i],
            ),
        trailing_space(text) < text.len() ==> !is_white_space(
            text[text.len() - trailing_space(text) - 1],
        ),
    decreases text.len(),
{
    if text.len() != 0 && is_white_space(text.last()) {
        let rest = text.drop_last();
        lemma_trailing_space(rest);
        assert forall|i: int|
            text.len() - trailing_space(text) <= i < text.len() implies is_white_space(
            #[trigger] text[i],
        ) by {
            if i < text.len() - 1 {
                assert(text[i] == rest[i]);
            }
        }
        if trailing_space(text) < text.len() {
            assert(rest[rest.len() - trailing_space(rest) - 1] == text[text.len() - trailing_space(
                text,
            ) - 1]);
        }
    }
}

/// What is left of a text without the white space around it is a stretch of
/// the text, and where anything is left, it begins and ends with characters
/// that are no white space.
pub proof fn lemma_trimmed(text: Seq<char>)
    ensures
        trimmed(text).len() <= text.len() - leading_space(text),
        forall|i: int|
            0 <= i < trimmed(text).len() ==> trimmed(text)[i] == text[i + leading_space(text)],
        trimmed(text).len() > 0 ==> !is_white_space(trimmed(text).first()) && !is_white_space(
            trimmed(text).last(),
        ),
{
    lemma_leading_space(text);
    lemma_trailing_space(text);
    let start = leading_space(text) as int;
    let end = text.len() - trailing_space(text);
    if start < text.len() {
        if end <= start {
            assert(is_white_space(text[start]));
        }
    }
}

/// Whether `c` is white space.
pub fn white_space(c: char) -> (b: bool)
    ensures
        b == is_white_space(c),
{
    let code: u32 = c as u32;
    (0x09 <= code && code <= 0x0d) || code == 0x20 || code == 0x85 || code == 0xa0 || code
        == 0x1680 || (0x2000 <= code && code <= 0x200a) || code == 0x2028 || code == 0x2029 || code
        == 0x202f || code == 0x205f || code == 0x3000
}

/// The characters of a text, one by one.
pub fn chars_of(text: &str) -> (chars: Vec<char>)
    ensures
        chars@ == text@,
{
    let mut chars: Vec<char> = Vec::new();
    for c in it: text.chars()
        invariant
            it.seq() == text@,
            chars@ == text@.take(it.index() as int),
    {
        chars.push(c);
        assert(chars@ =~= text@.take(it.index() + 1));
    }
    assert(chars@ =~= text@);
    chars
}

/// Where the first `c` stands in `text`, counted in characters; `None`
/// where `text` holds no `c`.
pub fn find(text: &str, c: char) -> (found: Option<usize>)
    ensures
        match found {
            Some(at) => at == length_before(text@, c) && at < text@.len(),
            None => length_before(text@, c) == text@.len(),
        },
{
    let chars = chars_of(text);
    let mut at: usize = 0;
    while at < chars.len()
        invariant
            at <= chars@.len(),
            chars@ == text@,
            forall|i: int| 0 <= i < at ==> text@[i] != c,
        decreases chars@.len() - at,
    {
        if chars[at] == c {
            proof {
                lemma_length_before_is(text@, c, at as int);
            }
            return Some(at);
        }
        at = at + 1;
    }
    proof {
        lemma_length_before_is(text@, c, at as int);
    }
    None
}

/// `text` without the white space at its beginning and at its end.
pub fn trim(text: &str) -> (cut: &str)
    ensures
        cut@ == trimmed(text@),
{
    let chars = chars_of(text);
    let mut start: usize = 0;
    while start < chars.len() && white_space(chars[start])
        invariant
            start <= chars@.len(),
            chars@ == text@,
            forall|i: int| 0 <= i < start ==> is_white_space(#[trigger] text@[i]),
        decreases chars@.len() - start,
    {
        start = start + 1;
    }
    proof {
        lemma_leading_space(text@);
        let n = leading_space(text@) as int;
        if n < start {
            assert(is_white_space(text@[n]));
        } else if start < n {
            assert(is_white_space(text@[start as int]));
        }
    }
    if start == chars.len() {
        let cut = text.substring_char(0, 0);
        assert(cut@ =~= trimmed(text@));
        return cut;
    }
    let mut end: usize = chars.len();
    while end > start && white_space(chars[end - 1])
        invariant
            start <= end <= chars@.len(),
            chars@ == text@,
            forall|i: int| end <= i < text@.len() ==> is_white_space(#[trigger] text@[i]),
        decreases end,
    {
        end = end - 1;
    }
    proof {
        lemma_trailing_space(text@);
        let n = text@.len() - trailing_space(text@);
        if n < end {
            assert(is_white_space(text@[end - 1]));
        } else if end < n {
            assert(is_white_space(text@[n - 1]));
        }
    }
    text.substring_char(start, end)
}

} // verus!
