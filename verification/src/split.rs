//! Finding a character in a text, cutting a text at a separator, and joining
//! the pieces again.

use vstd::prelude::*;
use vstd::slice::slice_subrange;

verus! {

/// The position of the first `c` in `s`, if there is one.
pub fn find_char(s: &[char], c: char) -> (r: Option<usize>)
    ensures
        match r {
            Some(i) => i < s@.len() && s@.index_of_first(c) == Some(i as int),
            None => s@.index_of_first(c) is None,
        },
{
    let mut i: usize = 0;
    while i < s.len()
        invariant
            i <= s@.len(),
            forall|j: int| 0 <= j < i ==> s@[j] != c,
        decreases s@.len() - i,
    {
        if s[i] == c {
            proof {
                assert(s@.contains(c));
                s@.index_of_first_ensures(c);
            }
            return Some(i);
        }
        i += 1;
    }
    proof {
        s@.index_of_first_ensures(c);
    }
    None
}

/// Where `c` stands at position `i` of `s` and nowhere before it, `i` is the
/// position of the first `c`.
pub proof fn lemma_index_of_first_is(s: Seq<char>, c: char, i: int)
    requires
        0 <= i < s.len(),
        s[i] == c,
        forall|j: int| 0 <= j < i ==> s[j] != c,
    ensures
        s.index_of_first(c) == Some(i),
{
    assert(s.contains(c));
    s.index_of_first_ensures(c);
}

/// The pieces of `s` that lie between the occurrences of `sep`, in order. There
/// is always one piece more than there are separators, and a piece may be
/// empty.
pub open spec fn spec_split(s: Seq<char>, sep: char) -> Seq<Seq<char>>
    decreases s.len(),
    via spec_split_decreases
{
    match s.index_of_first(sep) {
        None => seq![s],
        Some(i) => seq![s.take(i)] + spec_split(s.skip(i + 1), sep),
    }
}

#[via_fn]
proof fn spec_split_decreases(s: Seq<char>, sep: char) {
    s.index_of_first_ensures(sep);
}

/// The texts that the slices of `pieces` hold.
pub open spec fn texts(pieces: Seq<&[char]>) -> Seq<Seq<char>> {
    pieces.map_values(|piece: &[char]| piece@)
}

/// Cuts `s` at each occurrence of `sep`.
pub fn split<'a>(s: &'a [char], sep: char) -> (pieces: Vec<&'a [char]>)
    ensures
        texts(pieces@) == spec_split(s@, sep),
{
    let mut pieces: Vec<&'a [char]> = Vec::new();
    let mut rest: &'a [char] = s;
    loop
        invariant
            spec_split(s@, sep) == texts(pieces@) + spec_split(rest@, sep),
        decreases rest@.len(),
    {
        let ghost before = texts(pieces@);
        match find_char(rest, sep) {
            None => {
                pieces.push(rest);
                assert(texts(pieces@) =~= before + seq![rest@]);
                return pieces;
            },
            Some(i) => {
                proof {
                    rest@.index_of_first_ensures(sep);
                }
                let piece = slice_subrange(rest, 0, i);
                pieces.push(piece);
                assert(texts(pieces@) =~= before + seq![rest@.take(i as int)]);
                let n = rest.len();
                rest = slice_subrange(rest, i + 1, n);
            },
        }
    }
}

/// A text without the separator is one piece.
pub proof fn lemma_split_without_separator(s: Seq<char>, sep: char)
    requires
        !s.contains(sep),
    ensures
        spec_split(s, sep) == seq![s],
{
    s.index_of_first_ensures(sep);
}

/// A text cut at its first separator: the part before it is the first piece,
/// and the pieces of the part after it follow.
pub proof fn lemma_split_at_first_separator(a: Seq<char>, sep: char, b: Seq<char>)
    requires
        !a.contains(sep),
    ensures
        spec_split(a + seq![sep] + b, sep) == seq![a] + spec_split(b, sep),
{
    let s = a + seq![sep] + b;
    assert forall|j: int| 0 <= j < a.len() implies s[j] != sep by {
        assert(s[j] == a[j]);
        assert(a.contains(a[j]));
    }
    lemma_index_of_first_is(s, sep, a.len() as int);
    assert(s.take(a.len() as int) =~= a);
    assert(s.skip(a.len() as int + 1) =~= b);
}

/// The pieces of `pieces` written one after the other, with one `sep` between
/// each two neighbours.
pub open spec fn spec_join(pieces: Seq<Seq<char>>, sep: char) -> Seq<char>
    decreases pieces.len(),
{
    if pieces.len() == 0 {
        Seq::empty()
    } else if pieces.len() == 1 {
        pieces.first()
    } else {
        pieces.first() + seq![sep] + spec_join(pieces.drop_first(), sep)
    }
}

/// Cutting undoes joining: pieces that are free of the separator come back,
/// each as it was, when their joined text is cut.
pub proof fn lemma_split_of_join(pieces: Seq<Seq<char>>, sep: char)
    requires
        pieces.len() > 0,
        forall|i: int| 0 <= i < pieces.len() ==> !(#[trigger] pieces[i]).contains(sep),
    ensures
        spec_split(spec_join(pieces, sep), sep) == pieces,
    decreases pieces.len(),
{
    if pieces.len() == 1 {
        lemma_split_without_separator(pieces.first(), sep);
        assert(pieces =~= seq![pieces.first()]);
    } else {
        let rest = pieces.drop_first();
        assert forall|i: int| 0 <= i < rest.len() implies !(#[trigger] rest[i]).contains(sep) by {
            assert(rest[i] == pieces[i + 1]);
        }
        lemma_split_of_join(rest, sep);
        lemma_split_at_first_separator(pieces.first(), sep, spec_join(rest, sep));
        assert(seq![pieces.first()] + rest =~= pieces);
    }
}

/// Joining undoes cutting: the pieces of a text are free of the separator,
/// there is at least one, and joined they give the text back.
pub proof fn lemma_join_of_split(s: Seq<char>, sep: char)
    ensures
        spec_split(s, sep).len() > 0,
        forall|i: int|
            0 <= i < spec_split(s, sep).len() ==> !(#[trigger] spec_split(s, sep)[i]).contains(sep),
        spec_join(spec_split(s, sep), sep) == s,
    decreases s.len(),
{
    s.index_of_first_ensures(sep);
    match s.index_of_first(sep) {
        None => {},
        Some(i) => {
            let head = s.take(i);
            let tail = s.skip(i + 1);
            let pieces = spec_split(s, sep);
            lemma_join_of_split(tail, sep);
            assert(pieces.drop_first() =~= spec_split(tail, sep));
            if head.contains(sep) {
                let j = choose|j: int| 0 <= j < head.len() && head[j] == sep;
                assert(s[j] == sep);
            }
            assert forall|k: int| 0 <= k < pieces.len() implies !(#[trigger] pieces[k]).contains(
                sep,
            ) by {
                if k > 0 {
                    assert(pieces[k] == spec_split(tail, sep)[k - 1]);
                }
            }
            assert(head + seq![sep] + tail =~= s);
        },
    }
}

} // verus!
