//! Whitespace, and trimming it from the ends of a text.

use vstd::prelude::*;
use vstd::slice::slice_subrange;

verus! {

/// The characters that Unicode classes as `White_Space`: the blank, the
/// controls from tab to carriage return, next line, and the spaces and line
/// separators beyond ASCII.
pub open spec fn is_whitespace(c: char) -> bool {
    let u = c as u32;
    ||| 0x09 <= u <= 0x0d
    ||| u == 0x20
    ||| u == 0x85
    ||| u == 0xa0
    ||| u == 0x1680
    ||| 0x2000 <= u <= 0x200a
    ||| u == 0x2028
    ||| u == 0x2029
    ||| u == 0x202f
    ||| u == 0x205f
    ||| u == 0x3000
}

/// Decides whether `c` is a whitespace character.
pub fn char_is_whitespace(c: char) -> (b: bool)
    ensures
        b == is_whitespace(c),
{
    let u: u32 = c as u32;
    (0x09 <= u && u <= 0x0d) || u == 0x20 || u == 0x85 || u == 0xa0 || u == 0x1680 || (0x2000 <= u
        && u <= 0x200a) || u == 0x2028 || u == 0x2029 || u == 0x202f || u == 0x205f || u == 0x3000
}

/// `s` without its leading whitespace.
pub open spec fn spec_trim_start(s: Seq<char>) -> Seq<char>
    decreases s.len(),
{
    if s.len() > 0 && is_whitespace(s.first()) {
        spec_trim_start(s.drop_first())
    } else {
        s
    }
}

/// `s` without its trailing whitespace.
pub open spec fn spec_trim_end(s: Seq<char>) -> Seq<char>
    decreases s.len(),
{
    if s.len() > 0 && is_whitespace(s.last()) {
        spec_trim_end(s.drop_last())
    } else {
        s
    }
}

/// `s` without its leading and trailing whitespace.
pub open spec fn spec_trim(s: Seq<char>) -> Seq<char> {
    spec_trim_end(spec_trim_start(s))
}

/// Trimming the start takes whitespace away from the front and nothing else:
/// what is left is a final part of the text that does not begin with
/// whitespace, and all that went was whitespace.
pub proof fn lemma_trim_start_shape(s: Seq<char>)
    ensures
        spec_trim_start(s).len() <= s.len(),
        spec_trim_start(s) == s.skip(s.len() - spec_trim_start(s).len()),
        forall|i: int| 0 <= i < s.len() - spec_trim_start(s).len() ==> is_whitespace(s[i]),
        spec_trim_start(s).len() > 0 ==> !is_whitespace(spec_trim_start(s).first()),
    decreases s.len(),
{
    if s.len() > 0 && is_whitespace(s.first()) {
        let rest = s.drop_first();
        lemma_trim_start_shape(rest);
        let gone = rest.len() - spec_trim_start(rest).len();
        assert(rest.skip(gone) =~= s.skip(gone + 1));
        assert forall|i: int| 0 <= i < gone + 1 implies is_whitespace(s[i]) by {
            if i > 0 {
                assert(s[i] == rest[i - 1]);
            }
        }
    } else {
        assert(s.skip(0) =~= s);
    }
}

/// Trimming the end takes whitespace away from the back and nothing else: what
/// is left is a first part of the text that does not end with whitespace, and
/// all that went was whitespace.
pub proof fn lemma_trim_end_shape(s: Seq<char>)
    ensures
        spec_trim_end(s).len() <= s.len(),
        spec_trim_end(s) == s.take(spec_trim_end(s).len() as int),
        forall|i: int| spec_trim_end(s).len() <= i < s.len() ==> is_whitespace(s[i]),
        spec_trim_end(s).len() > 0 ==> !is_whitespace(spec_trim_end(s).last()),
    decreases s.len(),
{
    if s.len() > 0 && is_whitespace(s.last()) {
        let rest = s.drop_last();
        lemma_trim_end_shape(rest);
        let kept = spec_trim_end(rest).len() as int;
        assert(rest.take(kept) =~= s.take(kept));
        assert forall|i: int| kept <= i < s.len() implies is_whitespace(s[i]) by {
            if i < rest.len() {
                assert(s[i] == rest[i]);
            }
        }
    } else {
        assert(s.take(s.len() as int) =~= s);
    }
}

/// A trimmed text is a stretch of the text it was made from, and neither begins
/// nor ends with whitespace.
pub proof fn lemma_trim_shape(s: Seq<char>)
    ensures
        exists|from: int, to: int| 0 <= from <= to <= s.len() && spec_trim(s) == s.subrange(from, to),
        spec_trim(s).len() > 0 ==> !is_whitespace(spec_trim(s).first()) && !is_whitespace(
            spec_trim(s).last(),
        ),
{
    let front = spec_trim_start(s);
    lemma_trim_start_shape(s);
    lemma_trim_end_shape(front);
    let from = s.len() - front.len();
    let to = from + spec_trim(s).len();
    assert(spec_trim(s) =~= s.subrange(from, to));
    if spec_trim(s).len() > 0 {
        assert(spec_trim(s).first() == front.first());
    }
}

/// Whether `s` neither begins nor ends with whitespace.
pub open spec fn is_trimmed(s: Seq<char>) -> bool {
    s.len() > 0 ==> !is_whitespace(s.first()) && !is_whitespace(s.last())
}

/// Trimming leaves a text alone that has no whitespace at either end.
pub proof fn lemma_trim_of_trimmed(s: Seq<char>)
    requires
        is_trimmed(s),
    ensures
        spec_trim(s) == s,
{
}

/// Trimming gives a text that trimming leaves alone.
pub proof fn lemma_trim_is_trimmed(s: Seq<char>)
    ensures
        is_trimmed(spec_trim(s)),
{
    lemma_trim_shape(s);
}

/// Whitespace put in front of a text is trimmed away with the rest.
pub proof fn lemma_trim_start_after_whitespace(c: char, s: Seq<char>)
    requires
        is_whitespace(c),
    ensures
        spec_trim_start(seq![c] + s) == spec_trim_start(s),
{
    assert((seq![c] + s).drop_first() =~= s);
}

/// The part of `s` that follows its leading whitespace.
pub fn trim_start<'a>(s: &'a [char]) -> (r: &'a [char])
    ensures
        r@ == spec_trim_start(s@),
{
    let mut i: usize = 0;
    assert(s@.skip(0) =~= s@);
    while i < s.len() && char_is_whitespace(s[i])
        invariant
            i <= s@.len(),
            spec_trim_start(s@) == spec_trim_start(s@.skip(i as int)),
        decreases s@.len() - i,
    {
        assert(s@.skip(i as int).drop_first() =~= s@.skip(i + 1));
        i += 1;
    }
    slice_subrange(s, i, s.len())
}

/// The part of `s` that precedes its trailing whitespace.
pub fn trim_end<'a>(s: &'a [char]) -> (r: &'a [char])
    ensures
        r@ == spec_trim_end(s@),
{
    let mut n: usize = s.len();
    assert(s@.take(s@.len() as int) =~= s@);
    while n > 0 && char_is_whitespace(s[n - 1])
        invariant
            n <= s@.len(),
            spec_trim_end(s@) == spec_trim_end(s@.take(n as int)),
        decreases n,
    {
        assert(s@.take(n as int).drop_last() =~= s@.take(n - 1));
        n -= 1;
    }
    slice_subrange(s, 0, n)
}

/// The part of `s` between its leading and its trailing whitespace.
pub fn trim<'a>(s: &'a [char]) -> (r: &'a [char])
    ensures
        r@ == spec_trim(s@),
{
    trim_end(trim_start(s))
}

} // verus!
