//! Strings as sequences of characters: splitting, trimming, and the decimal
//! form of a number.

use vstd::prelude::*;
use vstd::std_specs::iter::IteratorSpec;
use vstd::string::StrSliceExecFns;
use vstd::string::StringExecFns;

verus! {

/// The strings of `list` as sequences of characters.
pub open spec fn strs(list: Seq<String>) -> Seq<Seq<char>> {
    list.map_values(|s: String| s@)
}

/// The string of `name`, if there is one, as a sequence of characters.
pub open spec fn opt_str(name: Option<String>) -> Option<Seq<char>> {
    match name {
        Some(s) => Some(s@),
        None => None,
    }
}

/// A copy of a list of strings.
pub fn clone_strings(list: &Vec<String>) -> (copy: Vec<String>)
    ensures
        strs(copy@) == strs(list@),
{
    let mut copy: Vec<String> = Vec::new();
    let mut i: usize = 0;
    while i < list.len()
        invariant
            i <= list@.len(),
            copy@.len() == i,
            strs(copy@) == strs(list@).take(i as int),
        decreases list@.len() - i,
    {
        let ghost before = copy@;
        copy.push(list[i].clone());
        i += 1;
        assert forall|k: int| 0 <= k < i implies strs(copy@)[k] == strs(list@)[k] by {
            if k < i - 1 {
                assert(strs(before)[k] == strs(list@).take(i - 1)[k]);
            }
        }
        assert(strs(copy@) =~= strs(list@).take(i as int));
    }
    assert(strs(list@).take(i as int) =~= strs(list@));
    copy
}

/// The characters of `s`, in order.
pub fn chars_of(s: &str) -> (chars: Vec<char>)
    ensures
        chars@ == s@,
{
    let mut chars: Vec<char> = Vec::new();
    for c in it: s.chars()
        invariant
            it.seq() == s@,
            chars@ == s@.take(it.index() as int),
    {
        chars.push(c);
        assert(chars@ =~= s@.take(it.index() + 1));
    }
    assert(chars@ =~= s@);
    chars
}

/// Position of the first `sep` in `s`, or the length of `s` where there is
/// none.
pub open spec fn index_of(s: Seq<char>, sep: char) -> nat
    decreases s.len(),
{
    if s.len() == 0 || s[0] == sep {
        0
    } else {
        1 + index_of(s.skip(1), sep)
    }
}

/// The pieces of `s` between the occurrences of `sep`: one more piece than
/// there are separators, so never none, and empty pieces are kept.
pub open spec fn split(s: Seq<char>, sep: char) -> Seq<Seq<char>>
    decreases s.len(),
{
    let at = index_of(s, sep) as int;
    if at >= s.len() {
        seq![s]
    } else {
        seq![s.take(at)] + split(s.skip(at + 1), sep)
    }
}

/// `index_of` is at most the length, no separator stands before it, and one
/// stands at it where it is less than the length.
pub proof fn lemma_index_of(s: Seq<char>, sep: char)
    ensures
        index_of(s, sep) <= s.len(),
        forall|k: int| 0 <= k < index_of(s, sep) ==> s[k] != sep,
        index_of(s, sep) < s.len() ==> s[index_of(s, sep) as int] == sep,
    decreases s.len(),
{
    if !(s.len() == 0 || s[0] == sep) {
        lemma_index_of(s.skip(1), sep);
        assert forall|k: int| 0 <= k < index_of(s, sep) implies s[k] != sep by {
            if k > 0 {
                assert(s.skip(1)[k - 1] == s[k]);
            }
        }
    }
}

/// A position before which no separator stands, and at which one stands or
/// the sequence ends, is `index_of`.
pub proof fn lemma_index_of_is(s: Seq<char>, sep: char, at: int)
    requires
        0 <= at <= s.len(),
        forall|k: int| 0 <= k < at ==> s[k] != sep,
        at < s.len() ==> s[at] == sep,
    ensures
        index_of(s, sep) == at,
{
    lemma_index_of(s, sep);
}

/// Splitting from `start`, where the next separator stands at `at`, gives
/// the piece between the two and then the pieces after the separator.
pub proof fn lemma_split_step(s: Seq<char>, sep: char, start: int, at: int)
    requires
        0 <= start <= at < s.len(),
        forall|k: int| start <= k < at ==> s[k] != sep,
        s[at] == sep,
    ensures
        split(s.skip(start), sep) == seq![s.subrange(start, at)] + split(s.skip(at + 1), sep),
{
    let rest = s.skip(start);
    lemma_index_of_is(rest, sep, at - start);
    assert(rest.take(at - start) =~= s.subrange(start, at));
    assert(rest.skip(at - start + 1) =~= s.skip(at + 1));
}

/// Splitting from `start`, where no separator follows, gives what is left as
/// one piece.
pub proof fn lemma_split_end(s: Seq<char>, sep: char, start: int)
    requires
        0 <= start <= s.len(),
        forall|k: int| start <= k < s.len() ==> s[k] != sep,
    ensures
        split(s.skip(start), sep) == seq![s.subrange(start, s.len() as int)],
{
    let rest = s.skip(start);
    lemma_index_of_is(rest, sep, rest.len() as int);
    assert(rest =~= s.subrange(start, s.len() as int));
}

/// The characters of `s` from position `from` up to, not including, `to`, as
/// a string of its own.
pub fn piece(s: &str, from: usize, to: usize) -> (part: String)
    requires
        from <= to <= s@.len(),
    ensures
        part@ == s@.subrange(from as int, to as int),
{
    s.substring_char(from, to).to_owned()
}

/// Splits `s` at every `sep`.
pub fn split_str(s: &str, sep: char) -> (parts: Vec<String>)
    ensures
        strs(parts@) == split(s@, sep),
{
    let chars = chars_of(s);
    let mut parts: Vec<String> = Vec::new();
    let mut start: usize = 0;
    let mut i: usize = 0;
    proof {
        assert(s@.skip(0) =~= s@);
        assert(strs(parts@) + split(s@, sep) =~= split(s@, sep));
    }
    while i < chars.len()
        invariant
            chars@ == s@,
            start <= i <= chars@.len(),
            forall|k: int| start <= k < i ==> s@[k] != sep,
            strs(parts@) + split(s@.skip(start as int), sep) == split(s@, sep),
        decreases chars@.len() - i,
    {
        if chars[i] == sep {
            let part = piece(s, start, i);
            proof {
                lemma_split_step(s@, sep, start as int, i as int);
                assert(strs(parts@.push(part)) =~= strs(parts@) + seq![part@]);
                assert(strs(parts@.push(part)) + split(s@.skip(i + 1), sep) =~= strs(parts@) + (
                seq![part@] + split(s@.skip(i + 1), sep)));
            }
            parts.push(part);
            start = i + 1;
        }
        i += 1;
    }
    let part = piece(s, start, chars.len());
    proof {
        lemma_split_end(s@, sep, start as int);
        assert(strs(parts@.push(part)) =~= strs(parts@) + seq![part@]);
    }
    parts.push(part);
    parts
}

/// Whether `c` is white space: what `char::is_whitespace` answers for it.
pub uninterp spec fn white_space(c: char) -> bool;

/// Calls `char::is_whitespace`, which tells whether a character counts as
/// white space in Unicode (`White_Space`). The answer depends on the
/// character alone. The contract, which is believed and not proved, gives
/// that answer the name `white_space` and claims nothing about which
/// characters those are.
#[verifier::external_body]
pub(crate) fn is_white_space(c: char) -> (white: bool)
    ensures
        white == white_space(c),
{
    c.is_whitespace()
}

/// How many characters of white space `s` begins with.
pub open spec fn leading(s: Seq<char>) -> nat
    decreases s.len(),
{
    if s.len() > 0 && white_space(s[0]) {
        1 + leading(s.skip(1))
    } else {
        0
    }
}

/// How many characters of white space `s` ends with.
pub open spec fn trailing(s: Seq<char>) -> nat
    decreases s.len(),
{
    if s.len() > 0 && white_space(s.last()) {
        1 + trailing(s.drop_last())
    } else {
        0
    }
}

/// `s` without the white space at its two ends.
pub open spec fn trim(s: Seq<char>) -> Seq<char> {
    let rest = s.skip(leading(s) as int);
    rest.take(rest.len() - trailing(rest))
}

/// `s` begins with exactly `count` characters of white space where those
/// are white space and the next one, if any, is not.
pub proof fn lemma_leading_is(s: Seq<char>, count: int)
    requires
        0 <= count <= s.len(),
        forall|k: int| 0 <= k < count ==> white_space(#[trigger] s[k]),
        count < s.len() ==> !white_space(s[count]),
    ensures
        leading(s) == count,
    decreases count,
{
    if count > 0 {
        let rest = s.skip(1);
        assert forall|k: int| 0 <= k < count - 1 implies white_space(#[trigger] rest[k]) by {
            assert(rest[k] == s[k + 1]);
        }
        lemma_leading_is(rest, count - 1);
    }
}

/// `s` ends with exactly `count` characters of white space where those are
/// white space and the one before them, if any, is not.
pub proof fn lemma_trailing_is(s: Seq<char>, count: int)
    requires
        0 <= count <= s.len(),
        forall|k: int| s.len() - count <= k < s.len() ==> white_space(#[trigger] s[k]),
        count < s.len() ==> !white_space(s[s.len() - count - 1]),
    ensures
        trailing(s) == count,
    decreases count,
{
    if count > 0 {
        let rest = s.drop_last();
        assert forall|k: int| rest.len() - (count - 1) <= k < rest.len() implies white_space(
            #[trigger] rest[k],
        ) by {
            assert(rest[k] == s[k]);
        }
        lemma_trailing_is(rest, count - 1);
    }
}

/// `s` without the white space at its two ends.
pub fn trim_str(s: &str) -> (trimmed: String)
    ensures
        trimmed@ == trim(s@),
{
    let chars = chars_of(s);
    let mut from: usize = 0;
    while from < chars.len() && is_white_space(chars[from])
        invariant
            from <= chars@.len(),
            forall|k: int| 0 <= k < from ==> white_space(#[trigger] chars@[k]),
        decreases chars@.len() - from,
    {
        from += 1;
    }
    let mut to: usize = chars.len();
    while to > from && is_white_space(chars[to - 1])
        invariant
            from <= to <= chars@.len(),
            forall|k: int| to <= k < chars@.len() ==> white_space(#[trigger] chars@[k]),
        decreases to,
    {
        to -= 1;
    }
    proof {
        lemma_leading_is(s@, from as int);
        let rest = s@.skip(from as int);
        assert forall|k: int| rest.len() - (s@.len() - to) <= k < rest.len() implies white_space(
            #[trigger] rest[k],
        ) by {
            assert(rest[k] == s@[k + from]);
        }
        lemma_trailing_is(rest, s@.len() - to);
        assert(rest.take(rest.len() - (s@.len() - to)) =~= s@.subrange(from as int, to as int));
    }
    piece(s, from, to)
}

/// The decimal digit for `d`, which is less than ten.
pub open spec fn digit(d: nat) -> char {
    if d == 0 {
        '0'
    } else if d == 1 {
        '1'
    } else if d == 2 {
        '2'
    } else if d == 3 {
        '3'
    } else if d == 4 {
        '4'
    } else if d == 5 {
        '5'
    } else if d == 6 {
        '6'
    } else if d == 7 {
        '7'
    } else if d == 8 {
        '8'
    } else {
        '9'
    }
}

/// `n` in decimal digits, without leading zeros.
pub open spec fn decimal(n: nat) -> Seq<char>
    decreases n,
{
    if n < 10 {
        seq![digit(n)]
    } else {
        decimal(n / 10).push(digit(n % 10))
    }
}

/// The decimal digit for `d` as a string.
fn digit_str(d: u64) -> (text: &'static str)
    requires
        d < 10,
    ensures
        text@ == seq![digit(d as nat)],
{
    proof {
        reveal_strlit("0");
        reveal_strlit("1");
        reveal_strlit("2");
        reveal_strlit("3");
        reveal_strlit("4");
        reveal_strlit("5");
        reveal_strlit("6");
        reveal_strlit("7");
        reveal_strlit("8");
        reveal_strlit("9");
    }
    let text = if d == 0 {
        "0"
    } else if d == 1 {
        "1"
    } else if d == 2 {
        "2"
    } else if d == 3 {
        "3"
    } else if d == 4 {
        "4"
    } else if d == 5 {
        "5"
    } else if d == 6 {
        "6"
    } else if d == 7 {
        "7"
    } else if d == 8 {
        "8"
    } else {
        "9"
    };
    assert(text@ =~= seq![digit(d as nat)]);
    text
}

/// `n` in decimal digits.
pub fn decimal_string(n: u64) -> (text: String)
    ensures
        text@ == decimal(n as nat),
    decreases n,
{
    if n < 10 {
        digit_str(n).to_owned()
    } else {
        let mut text = decimal_string(n / 10);
        text.append(digit_str(n % 10));
        assert(text@ =~= decimal(n as nat / 10).push(digit(n as nat % 10)));
        text
    }
}

/// `c` in lower case where it is one of the letters `A` to `Z`, else `c`.
pub open spec fn lower(c: char) -> char {
    if 'A' <= c && c <= 'Z' {
        ((c as u8) + 32) as char
    } else {
        c
    }
}

/// `s` with its letters `A` to `Z` in lower case.
pub open spec fn ascii_lowercase(s: Seq<char>) -> Seq<char> {
    s.map_values(|c: char| lower(c))
}

/// `c` in lower case where it is one of the letters `A` to `Z`.
pub fn to_lower(c: char) -> (l: char)
    ensures
        l == lower(c),
{
    if 'A' <= c && c <= 'Z' {
        ((c as u8) + 32) as char
    } else {
        c
    }
}

/// Whether `s` is `word` but for the case of its letters `A` to `Z`.
pub fn lowercase_is(s: &str, word: &str) -> (same: bool)
    ensures
        same == (ascii_lowercase(s@) == word@),
{
    let chars = chars_of(s);
    let expected = chars_of(word);
    if chars.len() != expected.len() {
        return false;
    }
    let mut i: usize = 0;
    while i < chars.len()
        invariant
            chars@ == s@,
            expected@ == word@,
            chars@.len() == expected@.len(),
            i <= chars@.len(),
            forall|k: int| 0 <= k < i ==> lower(chars@[k]) == expected@[k],
        decreases chars@.len() - i,
    {
        if to_lower(chars[i]) != expected[i] {
            assert(ascii_lowercase(s@)[i as int] != word@[i as int]);
            return false;
        }
        i += 1;
    }
    assert(ascii_lowercase(s@) =~= word@);
    true
}

} // verus!
