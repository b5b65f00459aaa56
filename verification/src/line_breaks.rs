//! Line breaks: stray carriage returns, and the blank line that ends the
//! headers.

use vstd::prelude::*;

verus! {

/// `s` without each `'\r'` that directly follows a `'\n'`: what is left when
/// every occurrence of the pair `"\n\r"` is replaced by `"\n"`.
pub open spec fn spec_drop_cr_after_lf(s: Seq<char>) -> Seq<char>
    decreases s.len(),
{
    if s.len() == 0 {
        s
    } else {
        let before = spec_drop_cr_after_lf(s.drop_last());
        if s.len() >= 2 && s[s.len() - 2] == '\n' && s.last() == '\r' {
            before
        } else {
            before.push(s.last())
        }
    }
}

/// Dropping characters brings in no new ones.
pub proof fn lemma_drop_cr_after_lf_contains(s: Seq<char>, c: char)
    requires
        spec_drop_cr_after_lf(s).contains(c),
    ensures
        s.contains(c),
    decreases s.len(),
{
    if s.len() > 0 {
        let before = spec_drop_cr_after_lf(s.drop_last());
        if before.contains(c) {
            lemma_drop_cr_after_lf_contains(s.drop_last(), c);
            let i = choose|i: int| 0 <= i < s.drop_last().len() && s.drop_last()[i] == c;
            assert(s[i] == c);
        } else {
            let i = choose|i: int|
                0 <= i < spec_drop_cr_after_lf(s).len() && spec_drop_cr_after_lf(s)[i] == c;
            if i < before.len() {
                assert(before[i] == c);
            }
            assert(s.last() == c);
        }
    }
}

/// Whether no `'\r'` in `s` directly follows a `'\n'`.
pub open spec fn no_cr_after_lf(s: Seq<char>) -> bool {
    forall|i: int| 0 < i < s.len() && s[i - 1] == '\n' ==> #[trigger] s[i] != '\r'
}

/// Where no `'\r'` follows a `'\n'`, nothing is dropped.
pub proof fn lemma_drop_cr_after_lf_identity(s: Seq<char>)
    requires
        no_cr_after_lf(s),
    ensures
        spec_drop_cr_after_lf(s) == s,
    decreases s.len(),
{
    if s.len() > 0 {
        let front = s.drop_last();
        assert forall|i: int| 0 < i < front.len() && front[i - 1] == '\n' implies #[trigger] front[i]
            != '\r' by {
            assert(front[i] == s[i]);
            assert(front[i - 1] == s[i - 1]);
        }
        lemma_drop_cr_after_lf_identity(front);
        assert(s.len() >= 2 && s[s.len() - 2] == '\n' ==> s[s.len() - 1] != '\r');
        assert(front.push(s.last()) =~= s);
    }
}

/// Copies `s`, leaving out each `'\r'` that directly follows a `'\n'`.
pub fn drop_cr_after_lf(s: &[char]) -> (out: Vec<char>)
    ensures
        out@ == spec_drop_cr_after_lf(s@),
{
    let mut out: Vec<char> = Vec::new();
    let mut i: usize = 0;
    while i < s.len()
        invariant
            i <= s@.len(),
            out@ == spec_drop_cr_after_lf(s@.take(i as int)),
        decreases s@.len() - i,
    {
        assert(s@.take(i + 1).drop_last() =~= s@.take(i as int));
        if !(i >= 1 && s[i - 1] == '\n' && s[i] == '\r') {
            out.push(s[i]);
        }
        i += 1;
    }
    assert(s@.take(s@.len() as int) =~= s@);
    out
}

/// Whether two line feeds stand side by side at position `i` of `s`.
pub open spec fn blank_line_at(s: Seq<char>, i: int) -> bool {
    0 <= i && i + 1 < s.len() && s[i] == '\n' && s[i + 1] == '\n'
}

/// Whether `i` is the first position of `s` at which two line feeds stand side
/// by side.
pub open spec fn first_blank_line_at(s: Seq<char>, i: int) -> bool {
    blank_line_at(s, i) && forall|j: int| 0 <= j < i ==> !blank_line_at(s, j)
}

/// The first position of `s` at which two line feeds stand side by side, if
/// there is one.
pub open spec fn spec_find_blank_line(s: Seq<char>) -> Option<int> {
    if exists|i: int| first_blank_line_at(s, i) {
        Some(choose|i: int| first_blank_line_at(s, i))
    } else {
        None
    }
}

/// Where two line feeds stand side by side at position `i` of `s` and at no
/// position before it, `i` is the position of the first blank line.
pub proof fn lemma_find_blank_line_is(s: Seq<char>, i: int)
    requires
        first_blank_line_at(s, i),
    ensures
        spec_find_blank_line(s) == Some(i),
{
    let found = choose|k: int| first_blank_line_at(s, k);
    assert(!(found < i));
    assert(!(i < found));
}

/// The position of the first pair of line feeds in `s`, if there is one.
pub fn find_blank_line(s: &[char]) -> (r: Option<usize>)
    ensures
        match r {
            Some(i) => i + 1 < s@.len() && spec_find_blank_line(s@) == Some(i as int),
            None => spec_find_blank_line(s@) is None,
        },
{
    let mut i: usize = 0;
    while s.len() - i >= 2
        invariant
            i <= s@.len(),
            forall|j: int| 0 <= j < i ==> !blank_line_at(s@, j),
        decreases s@.len() - i,
    {
        if s[i] == '\n' && s[i + 1] == '\n' {
            assert(first_blank_line_at(s@, i as int));
            return Some(i);
        }
        i += 1;
    }
    None
}

} // verus!
