//! What the operations on text come to, said of the characters themselves.

use crate::text::{
    ascii_lower, decimal, has_part, is_white_space, lemma_until, repeats, trim_end, trim_end_of,
    trim_start, trimmed, until,
};
use vstd::prelude::*;

verus! {

/// All characters of a text are white space.
pub open spec fn is_blank(s: Seq<char>) -> bool {
    forall|i: int| 0 <= i < s.len() ==> is_white_space(#[trigger] s[i])
}

/// No white space stands at either end of a text.
pub open spec fn is_tight(s: Seq<char>) -> bool {
    s.len() > 0 ==> !is_white_space(s[0]) && !is_white_space(s[s.len() - 1])
}

/// All characters of a text are one and the same.
pub open spec fn is_all(s: Seq<char>, c: char) -> bool {
    forall|i: int| 0 <= i < s.len() ==> #[trigger] s[i] == c
}

/// Lowering moves the letters from A to Z by 32 code points and leaves every other character.
pub proof fn law_lowering_moves_capital_letters(s: Seq<char>, i: int)
    ensures
        ascii_lower(s).len() == s.len(),
        0 <= i < s.len() && 65 <= s[i] as int <= 90 ==> ascii_lower(s)[i] as int == s[i] as int
            + 32,
        0 <= i < s.len() && !(65 <= s[i] as int <= 90) ==> ascii_lower(s)[i] == s[i],
{
}

/// White space is what Unicode counts as such.
pub proof fn law_white_space_is_that_of_unicode(c: char)
    ensures
        is_white_space(c) <==> {
            let n = c as int;
            ||| 0x9 <= n <= 0xd
            ||| n == 0x20
            ||| n == 0x85
            ||| n == 0xa0
            ||| n == 0x1680
            ||| 0x2000 <= n <= 0x200a
            ||| n == 0x2028
            ||| n == 0x2029
            ||| n == 0x202f
            ||| n == 0x205f
            ||| n == 0x3000
        },
{
}

/// Trimming takes away the white space at both ends and nothing else.
pub proof fn law_trimming_leaves_the_core(before: Seq<char>, core: Seq<char>, after: Seq<char>)
    requires
        is_blank(before),
        is_tight(core),
        is_blank(after),
    ensures
        trimmed(before + core + after) == core,
{
    lemma_trim_start(before, core + after);
    assert(before + core + after =~= before + (core + after));
    if core.len() > 0 {
        assert((core + after).first() == core[0]);
        lemma_trim_end(core, after);
    } else {
        assert(core + after =~= after + Seq::empty());
        lemma_trim_start(after, Seq::empty());
        assert(trim_start(core + after) =~= Seq::empty());
        assert(core =~= Seq::empty());
    }
}

proof fn lemma_trim_start(before: Seq<char>, rest: Seq<char>)
    requires
        is_blank(before),
    ensures
        trim_start(before + rest) == trim_start(rest),
    decreases before.len(),
{
    if before.len() == 0 {
        assert(before + rest =~= rest);
    } else {
        assert((before + rest).first() == before[0]);
        assert((before + rest).drop_first() =~= before.drop_first() + rest);
        assert(is_blank(before.drop_first()));
        lemma_trim_start(before.drop_first(), rest);
    }
}

proof fn lemma_trim_end(core: Seq<char>, after: Seq<char>)
    requires
        core.len() > 0,
        !is_white_space(core[core.len() - 1]),
        is_blank(after),
    ensures
        trim_end(core + after) == core,
    decreases after.len(),
{
    if after.len() == 0 {
        assert(core + after =~= core);
    } else {
        assert((core + after).last() == after.last());
        assert((core + after).drop_last() =~= core + after.drop_last());
        assert(is_blank(after.drop_last()));
        lemma_trim_end(core, after.drop_last());
    }
}

/// Trimming one character at the end takes away its run there and nothing else.
pub proof fn law_trimming_one_character_leaves_the_core(core: Seq<char>, tail: Seq<char>, c: char)
    requires
        core.len() > 0 ==> core[core.len() - 1] != c,
        is_all(tail, c),
    ensures
        trim_end_of(core + tail, c) == core,
    decreases tail.len(),
{
    if tail.len() == 0 {
        assert(core + tail =~= core);
    } else {
        assert((core + tail).last() == tail.last());
        assert((core + tail).drop_last() =~= core + tail.drop_last());
        assert(is_all(tail.drop_last(), c));
        law_trimming_one_character_leaves_the_core(core, tail.drop_last(), c);
    }
}

/// What stands before a character ends at its first occurrence, or is the whole text.
pub proof fn law_until_ends_at_the_first_occurrence(head: Seq<char>, stop: char, tail: Seq<char>)
    requires
        !head.contains(stop),
    ensures
        until(head, stop) == head,
        until(head + seq![stop] + tail, stop) == head,
{
    assert forall|k: int| 0 <= k < head.len() implies head[k] != stop by {
        assert(head.contains(head[k]));
    }
    lemma_until(head, stop, head.len() as int);
    assert(head.take(head.len() as int) =~= head);
    let whole = head + seq![stop] + tail;
    lemma_until(whole, stop, head.len() as int);
    assert(whole.take(head.len() as int) =~= head);
}

/// A character repeats just where it stands in two places.
pub proof fn law_repeating_takes_two_places(a: Seq<char>, b: Seq<char>, d: Seq<char>, c: char)
    ensures
        repeats(a + seq![c] + b + seq![c] + d, c),
        !a.contains(c) ==> !repeats(a, c),
        !a.contains(c) && !b.contains(c) ==> !repeats(a + seq![c] + b, c),
{
    let twice = a + seq![c] + b + seq![c] + d;
    assert(twice[a.len() as int] == c);
    assert(twice[(a.len() + 1 + b.len()) as int] == c);
    if !a.contains(c) && !b.contains(c) {
        let once = a + seq![c] + b;
        assert forall|i: int| 0 <= i < once.len() && once[i] == c implies i == a.len() by {
            if i < a.len() {
                assert(a[i] == c);
            } else if i > a.len() {
                assert(b[i - a.len() - 1] == c);
            }
        }
    }
}

/// A part occurs in every text that is made around it.
pub proof fn law_part_occurs_in_what_surrounds_it(a: Seq<char>, part: Seq<char>, b: Seq<char>)
    ensures
        has_part(a + part + b, part),
{
    let whole = a + part + b;
    assert(whole.subrange(a.len() as int, (a.len() + part.len()) as int) =~= part);
}

/// A text in which a part occurs is made around it.
pub proof fn law_part_is_surrounded(s: Seq<char>, part: Seq<char>)
    requires
        has_part(s, part),
    ensures
        exists|a: Seq<char>, b: Seq<char>| s == #[trigger] (a + part + b),
{
    let i = choose|i: int|
        0 <= i <= s.len() - part.len() && #[trigger] s.subrange(i, i + part.len()) == part;
    let a = s.take(i);
    let b = s.skip(i + part.len());
    assert(s =~= a + s.subrange(i, i + part.len()) + b);
    assert(s == a + part + b);
}

/// The number that a text of decimal digits stands for.
pub open spec fn number_of(digits: Seq<char>) -> int
    decreases digits.len(),
{
    if digits.len() == 0 {
        0
    } else {
        number_of(digits.drop_last()) * 10 + (digits[digits.len() - 1] as int - 48)
    }
}

/// A text is the usual decimal form of a number: digits only, and no zero before other digits.
pub open spec fn is_decimal_of(digits: Seq<char>, n: int) -> bool {
    &&& digits.len() > 0
    &&& forall|i: int| 0 <= i < digits.len() ==> 48 <= #[trigger] digits[i] as int <= 57
    &&& digits.len() > 1 ==> digits[0] as int != 48
    &&& number_of(digits) == n
}

/// The decimal form of a number reads as that number.
pub proof fn law_decimal_reads_as_the_number(n: nat)
    ensures
        is_decimal_of(decimal(n), n as int),
    decreases n,
{
    if n < 10 {
        assert(decimal(n).drop_last() =~= Seq::empty());
        assert(number_of(decimal(n).drop_last()) == 0);
    } else {
        law_decimal_reads_as_the_number(n / 10);
        let head = decimal(n / 10);
        assert(decimal(n).drop_last() =~= head);
        assert(n == (n / 10) * 10 + n % 10);
        if head.len() == 1 {
            assert(head.drop_last() =~= Seq::empty());
            assert(number_of(head.drop_last()) == 0);
            assert(head[0] as int - 48 == n / 10);
        }
        assert(decimal(n)[0] == head[0]);
    }
}

} // verus!
