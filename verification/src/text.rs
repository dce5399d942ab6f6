//! Small operations on text, stated over sequences of characters.

use vstd::prelude::*;
use vstd::string::*;

verus! {

/// The lower-case form of an ASCII letter; any other character is left as it is.
pub open spec fn ascii_lower_char(c: char) -> char {
    if 'A' <= c <= 'Z' {
        ((c as u8) + 32) as u8 as char
    } else {
        c
    }
}

/// A text with every ASCII letter in lower case.
pub open spec fn ascii_lower(s: Seq<char>) -> Seq<char> {
    s.map_values(|c: char| ascii_lower_char(c))
}

/// The characters that Unicode counts as white space.
pub open spec fn is_white_space(c: char) -> bool {
    ||| '\u{9}' <= c <= '\u{d}'
    ||| c == ' '
    ||| c == '\u{85}'
    ||| c == '\u{a0}'
    ||| c == '\u{1680}'
    ||| '\u{2000}' <= c <= '\u{200a}'
    ||| c == '\u{2028}'
    ||| c == '\u{2029}'
    ||| c == '\u{202f}'
    ||| c == '\u{205f}'
    ||| c == '\u{3000}'
}

/// A text without the white space at its start.
pub open spec fn trim_start(s: Seq<char>) -> Seq<char>
    decreases s.len(),
{
    if s.len() > 0 && is_white_space(s.first()) {
        trim_start(s.drop_first())
    } else {
        s
    }
}

/// A text without the white space at its end.
pub open spec fn trim_end(s: Seq<char>) -> Seq<char>
    decreases s.len(),
{
    if s.len() > 0 && is_white_space(s.last()) {
        trim_end(s.drop_last())
    } else {
        s
    }
}

/// A text without the white space around it.
pub open spec fn trimmed(s: Seq<char>) -> Seq<char> {
    trim_end(trim_start(s))
}

/// A text without the occurrences of one character at its end.
pub open spec fn trim_end_of(s: Seq<char>, c: char) -> Seq<char>
    decreases s.len(),
{
    if s.len() > 0 && s.last() == c {
        trim_end_of(s.drop_last(), c)
    } else {
        s
    }
}

/// What stands before the first occurrence of a character, or the whole text if there is none.
pub open spec fn until(s: Seq<char>, stop: char) -> Seq<char>
    decreases s.len(),
{
    if s.len() == 0 || s.first() == stop {
        Seq::empty()
    } else {
        seq![s.first()] + until(s.drop_first(), stop)
    }
}

/// Whether a character occurs more than once.
pub open spec fn repeats(s: Seq<char>, c: char) -> bool {
    exists|i: int, j: int| 0 <= i < j < s.len() && #[trigger] s[i] == c && #[trigger] s[j] == c
}

/// Whether `part` occurs somewhere in `s`.
pub open spec fn has_part(s: Seq<char>, part: Seq<char>) -> bool {
    exists|i: int|
        0 <= i <= s.len() - part.len() && #[trigger] s.subrange(i, i + part.len()) == part
}

/// The decimal digit of a number below ten.
pub open spec fn digit(n: nat) -> char {
    ((48 + n) as u8) as char
}

/// The decimal form of a number.
pub open spec fn decimal(n: nat) -> Seq<char>
    decreases n,
{
    if n < 10 {
        seq![digit(n)]
    } else {
        decimal(n / 10).push(digit(n % 10))
    }
}

/// `String::push` appends one character.
pub assume_specification[ String::push ](s: &mut String, c: char)
    ensures
        final(s)@ == old(s)@.push(c),
;

/// The characters of a text.
pub(crate) fn chars_of(s: &str) -> (chars: Vec<char>)
    ensures
        chars@ == s@,
{
    let mut chars: Vec<char> = Vec::new();
    for c in it: s.chars()
        invariant
            chars@ == s@.take(it.index() as int),
            it.seq() == s@,
    {
        chars.push(c);
        assert(s@.take(it.index() + 1) =~= s@.take(it.index() as int).push(c));
    }
    assert(s@.take(s@.len() as int) =~= s@);
    chars
}

/// The text that the characters from one place to another make up.
pub(crate) fn text_of(chars: &Vec<char>, from: usize, to: usize) -> (s: String)
    requires
        from <= to <= chars@.len(),
    ensures
        s@ == chars@.subrange(from as int, to as int),
{
    let mut s = String::new();
    let mut i: usize = from;
    while i < to
        invariant
            from <= i <= to <= chars@.len(),
            s@ == chars@.subrange(from as int, i as int),
        decreases to - i,
    {
        s.push(chars[i]);
        assert(chars@.subrange(from as int, i + 1) =~= chars@.subrange(from as int, i as int).push(
            chars@[i as int],
        ));
        i = i + 1;
    }
    s
}

/// Whether two texts are the same.
pub(crate) fn same_text(a: &str, b: &str) -> (same: bool)
    ensures
        same == (a@ == b@),
{
    let left = chars_of(a);
    let right = chars_of(b);
    if left.len() != right.len() {
        return false;
    }
    let mut i: usize = 0;
    while i < left.len()
        invariant
            left@ == a@,
            right@ == b@,
            left@.len() == right@.len(),
            i <= left@.len(),
            forall|k: int| 0 <= k < i ==> left@[k] == right@[k],
        decreases left@.len() - i,
    {
        if left[i] != right[i] {
            return false;
        }
        i = i + 1;
    }
    assert(a@ =~= b@);
    true
}

/// A text followed by another.
pub(crate) fn joined(a: &str, b: &str) -> (s: String)
    ensures
        s@ == a@ + b@,
{
    let mut s = a.to_owned();
    s.append(b);
    s
}

/// The lower-case form of a character, if it is an ASCII letter.
pub(crate) fn lower_char(c: char) -> (lower: char)
    ensures
        lower == ascii_lower_char(c),
{
    if 'A' <= c && c <= 'Z' {
        ((c as u8) + 32) as char
    } else {
        c
    }
}

/// A text with every ASCII letter in lower case.
pub(crate) fn lower_text(s: &str) -> (lower: String)
    ensures
        lower@ == ascii_lower(s@),
{
    let chars = chars_of(s);
    let mut lower = String::new();
    let mut i: usize = 0;
    while i < chars.len()
        invariant
            chars@ == s@,
            i <= chars@.len(),
            lower@ == ascii_lower(s@.take(i as int)),
        decreases chars@.len() - i,
    {
        lower.push(lower_char(chars[i]));
        assert(ascii_lower(s@.take(i + 1)) =~= ascii_lower(s@.take(i as int)).push(
            ascii_lower_char(s@[i as int]),
        ));
        i = i + 1;
    }
    assert(s@.take(i as int) =~= s@);
    lower
}

/// Whether a character is white space.
pub(crate) fn white_space(c: char) -> (white: bool)
    ensures
        white == is_white_space(c),
{
    ('\u{9}' <= c && c <= '\u{d}') || c == ' ' || c == '\u{85}' || c == '\u{a0}' || c == '\u{1680}'
        || ('\u{2000}' <= c && c <= '\u{200a}') || c == '\u{2028}' || c == '\u{2029}' || c
        == '\u{202f}' || c == '\u{205f}' || c == '\u{3000}'
}

/// A text without the white space around it.
pub(crate) fn trim(s: &str) -> (core: String)
    ensures
        core@ == trimmed(s@),
{
    let chars = chars_of(s);
    let mut from: usize = 0;
    let mut to: usize = chars.len();
    assert(chars@.skip(0) =~= chars@);
    while from < to && white_space(chars[from])
        invariant
            chars@ == s@,
            to == chars@.len(),
            from <= to,
            trim_start(s@) == trim_start(chars@.skip(from as int)),
        decreases to - from,
    {
        assert(chars@.skip(from as int).drop_first() =~= chars@.skip(from + 1));
        from = from + 1;
    }
    assert(chars@.skip(from as int) =~= chars@.subrange(from as int, to as int));
    let ghost body = chars@.subrange(from as int, to as int);
    assert(trim_start(s@) == body);
    while from < to && white_space(chars[to - 1])
        invariant
            from <= to <= chars@.len(),
            trim_end(body) == trim_end(chars@.subrange(from as int, to as int)),
        decreases to - from,
    {
        assert(chars@.subrange(from as int, to as int).drop_last() =~= chars@.subrange(
            from as int,
            to - 1,
        ));
        to = to - 1;
    }
    text_of(&chars, from, to)
}

/// A text without the occurrences of one character at its end.
pub(crate) fn trim_end_matches(s: &str, c: char) -> (core: String)
    ensures
        core@ == trim_end_of(s@, c),
{
    let chars = chars_of(s);
    let mut to: usize = chars.len();
    assert(chars@.subrange(0, to as int) =~= s@);
    while to > 0 && chars[to - 1] == c
        invariant
            to <= chars@.len(),
            trim_end_of(s@, c) == trim_end_of(chars@.subrange(0, to as int), c),
        decreases to,
    {
        assert(chars@.subrange(0, to as int).drop_last() =~= chars@.subrange(0, to - 1));
        to = to - 1;
    }
    text_of(&chars, 0, to)
}

/// The place of the first occurrence of a character from `from` on, or the end.
pub(crate) fn find_from(chars: &Vec<char>, from: usize, c: char) -> (place: usize)
    requires
        from <= chars@.len(),
    ensures
        from <= place <= chars@.len(),
        forall|k: int| from <= k < place ==> chars@[k] != c,
        place < chars@.len() ==> chars@[place as int] == c,
        chars@.subrange(from as int, place as int) == until(
            chars@.subrange(from as int, chars@.len() as int),
            c,
        ),
{
    let mut place: usize = from;
    while place < chars.len() && chars[place] != c
        invariant
            from <= place <= chars@.len(),
            forall|k: int| from <= k < place ==> chars@[k] != c,
        decreases chars@.len() - place,
    {
        place = place + 1;
    }
    proof {
        let rest = chars@.subrange(from as int, chars@.len() as int);
        lemma_until(rest, c, place - from);
        assert(rest.take(place - from) =~= chars@.subrange(from as int, place as int));
    }
    place
}

/// `until` is what stands before the first place where the character occurs.
pub proof fn lemma_until(s: Seq<char>, stop: char, n: int)
    requires
        0 <= n <= s.len(),
        forall|k: int| 0 <= k < n ==> s[k] != stop,
        n < s.len() ==> s[n] == stop,
    ensures
        until(s, stop) == s.take(n),
    decreases n,
{
    if n > 0 {
        lemma_until(s.drop_first(), stop, n - 1);
        assert(seq![s.first()] + s.drop_first().take(n - 1) =~= s.take(n));
    } else {
        assert(s.take(0) =~= Seq::empty());
    }
}

/// What stands before the first occurrence of a character, or the whole text if there is none.
pub(crate) fn before_char(s: &str, stop: char) -> (head: String)
    ensures
        head@ == until(s@, stop),
{
    let chars = chars_of(s);
    let place: usize = find_from(&chars, 0, stop);
    assert(chars@.subrange(0, chars@.len() as int) =~= chars@);
    text_of(&chars, 0, place)
}

/// Whether a character occurs in a text.
pub(crate) fn contains_char(s: &str, c: char) -> (yes: bool)
    ensures
        yes == s@.contains(c),
{
    let chars = chars_of(s);
    let place: usize = find_from(&chars, 0, c);
    place < chars.len()
}

/// Whether one text starts with another.
pub(crate) fn starts_with(s: &str, head: &str) -> (yes: bool)
    ensures
        yes == head@.is_prefix_of(s@),
{
    let chars = chars_of(s);
    let start = chars_of(head);
    if start.len() > chars.len() {
        return false;
    }
    let mut i: usize = 0;
    while i < start.len()
        invariant
            chars@ == s@,
            start@ == head@,
            start@.len() <= chars@.len(),
            i <= start@.len(),
            forall|k: int| 0 <= k < i ==> start@[k] == chars@[k],
        decreases start@.len() - i,
    {
        if chars[i] != start[i] {
            return false;
        }
        i = i + 1;
    }
    assert(head@ =~= s@.subrange(0, head@.len() as int));
    true
}

/// What follows a given start of a text, if the text starts so.
pub(crate) fn strip_prefix(s: &str, head: &str) -> (rest: Option<String>)
    ensures
        rest is Some <==> head@.is_prefix_of(s@),
        rest matches Some(r) ==> r@ == s@.skip(head@.len() as int),
{
    if starts_with(s, head) {
        let chars = chars_of(s);
        let start = chars_of(head);
        assert(chars@.subrange(head@.len() as int, s@.len() as int) =~= s@.skip(head@.len() as int));
        Some(text_of(&chars, start.len(), chars.len()))
    } else {
        None
    }
}

/// Whether one text occurs in another.
pub(crate) fn contains(s: &str, part: &str) -> (yes: bool)
    ensures
        yes == has_part(s@, part@),
{
    let chars = chars_of(s);
    let wanted = chars_of(part);
    let len: usize = chars.len();
    let mut from: usize = 0;
    while wanted.len() <= len - from
        invariant
            len == chars@.len(),
            chars@ == s@,
            wanted@ == part@,
            from <= len,
            forall|k: int|
                0 <= k < from ==> #[trigger] s@.subrange(k, k + part@.len()) != part@,
        decreases len - from,
    {
        let mut i: usize = 0;
        while i < wanted.len() && chars[from + i] == wanted[i]
            invariant
                len == chars@.len(),
                from <= len,
                wanted@.len() <= len - from,
                i <= wanted@.len(),
                forall|k: int| 0 <= k < i ==> chars@[from + k] == wanted@[k],
            decreases wanted@.len() - i,
        {
            i = i + 1;
        }
        if i == wanted.len() {
            assert(s@.subrange(from as int, from + part@.len()) =~= part@);
            return true;
        }
        assert(s@.subrange(from as int, from + part@.len())[i as int] != part@[i as int]);
        from = from + 1;
    }
    false
}

/// The decimal form of a number.
pub(crate) fn decimal_text(n: u32) -> (s: String)
    ensures
        s@ == decimal(n as nat),
    decreases n,
{
    let last: char = (48u8 + (n % 10) as u8) as char;
    if n < 10 {
        let mut s = String::new();
        s.push(last);
        assert(s@ =~= seq![digit(n as nat)]);
        s
    } else {
        let mut s = decimal_text(n / 10);
        s.push(last);
        s
    }
}

} // verus!
