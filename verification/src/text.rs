//! Character sequences: where a delimiter stands, and the pieces that it
//! separates.

use vstd::prelude::*;

verus! {

/// The number of characters of `s` that stand before the first `c`; the
/// length of `s` where `c` does not occur in it.
pub open spec fn offset_of(s: Seq<char>, c: char) -> nat
    decreases s.len(),
{
    if s.len() == 0 || s[0] == c {
        0
    } else {
        1 + offset_of(s.skip(1), c)
    }
}

/// The pieces of `s` between the occurrences of `c`, in order. There is
/// always at least one piece, and a piece may be empty.
pub open spec fn split(s: Seq<char>, c: char) -> Seq<Seq<char>>
    decreases s.len(),
{
    let k = offset_of(s, c) as int;
    if k < s.len() {
        seq![s.take(k)] + split(s.skip(k + 1), c)
    } else {
        seq![s]
    }
}

/// The pieces of `s` between the occurrences of `c`, without the last piece
/// where that piece is empty.
pub open spec fn split_terminator(s: Seq<char>, c: char) -> Seq<Seq<char>> {
    let pieces = split(s, c);
    if pieces.last().len() == 0 {
        pieces.drop_last()
    } else {
        pieces
    }
}

/// The pieces, each followed by `c` but the last.
pub open spec fn join(pieces: Seq<Seq<char>>, c: char) -> Seq<char>
    decreases pieces.len(),
{
    if pieces.len() == 0 {
        Seq::empty()
    } else if pieces.len() == 1 {
        pieces[0]
    } else {
        pieces[0].push(c) + join(pieces.skip(1), c)
    }
}

/// `offset_of(s, c)` is the place of the first `c` in `s`.
pub proof fn lemma_offset_of(s: Seq<char>, c: char)
    ensures
        offset_of(s, c) <= s.len(),
        forall|i: int| 0 <= i < offset_of(s, c) ==> s[i] != c,
        offset_of(s, c) < s.len() ==> s[offset_of(s, c) as int] == c,
        offset_of(s, c) < s.len() <==> s.contains(c),
    decreases s.len(),
{
    if s.len() > 0 && s[0] != c {
        let t = s.skip(1);
        lemma_offset_of(t, c);
        assert forall|i: int| 0 <= i < offset_of(s, c) implies s[i] != c by {
            if i > 0 {
                assert(s[i] == t[i - 1]);
            }
        }
    }
}

/// The first place at which `c` stands, or the length where it stands
/// nowhere, is `offset_of(s, c)`.
pub proof fn lemma_offset_of_unique(s: Seq<char>, c: char, k: int)
    requires
        0 <= k <= s.len(),
        forall|i: int| 0 <= i < k ==> s[i] != c,
        k < s.len() ==> s[k] == c,
    ensures
        offset_of(s, c) == k,
{
    lemma_offset_of(s, c);
}

/// How `split` goes on after its first piece.
pub proof fn lemma_split_first(s: Seq<char>, c: char)
    ensures
        split(s, c).len() >= 1,
        split(s, c)[0] == s.take(offset_of(s, c) as int),
        offset_of(s, c) < s.len() ==> split(s, c).skip(1) == split(
            s.skip(offset_of(s, c) as int + 1),
            c,
        ),
        offset_of(s, c) >= s.len() ==> split(s, c) == seq![s],
{
    lemma_offset_of(s, c);
}

/// How `split_terminator` goes on after its first piece.
pub proof fn lemma_split_terminator_first(s: Seq<char>, c: char)
    ensures
        s.len() == 0 ==> split_terminator(s, c) == Seq::<Seq<char>>::empty(),
        s.len() > 0 ==> split_terminator(s, c).len() >= 1 && split_terminator(s, c)[0] == s.take(
            offset_of(s, c) as int,
        ),
        offset_of(s, c) < s.len() ==> split_terminator(s, c).skip(1) == split_terminator(
            s.skip(offset_of(s, c) as int + 1),
            c,
        ),
        s.len() > 0 && offset_of(s, c) >= s.len() ==> split_terminator(s, c) == seq![s],
{
    lemma_offset_of(s, c);
    lemma_split_first(s, c);
    let k = offset_of(s, c) as int;
    if k < s.len() {
        lemma_split_first(s.skip(k + 1), c);
    }
}

/// The characters of a string, one by one.
pub fn chars_of(s: &str) -> (v: Vec<char>)
    ensures
        v@ == s@,
{
    let mut v: Vec<char> = Vec::new();
    for c in it: s.chars()
        invariant
            it.seq() == s@,
            v@ == it.seq().take(it.index() as int),
    {
        v.push(c);
    }
    v
}

/// Whether the string `word` is made of the characters `text`.
pub fn spells(word: &str, text: &[char]) -> (r: bool)
    ensures
        r == (word@ == text@),
{
    let mut i: usize = 0;
    let mut same = true;
    for c in it: word.chars()
        invariant
            it.seq() == word@,
            same ==> i == it.index() && i <= text@.len() && word@.take(i as int) == text@.take(
                i as int,
            ),
            !same ==> word@ != text@,
    {
        if same {
            if i < text.len() && text[i] == c {
                i = i + 1;
            } else {
                same = false;
            }
        }
    }
    proof {
        if same {
            assert(word@.take(i as int) =~= word@);
            if i == text@.len() {
                assert(text@.take(i as int) =~= text@);
            }
        }
    }
    same && i == text.len()
}

/// The place of the first `c` in `text` at or after `from`, or the length of
/// `text` where there is none.
pub fn offset(text: &[char], from: usize, c: char) -> (k: usize)
    requires
        from <= text@.len(),
    ensures
        from <= k <= text@.len(),
        k - from == offset_of(text@.skip(from as int), c),
{
    let mut k: usize = from;
    while k < text.len() && text[k] != c
        invariant
            from <= k <= text@.len(),
            forall|i: int| from <= i < k ==> text@[i] != c,
        decreases text@.len() - k,
    {
        k = k + 1;
    }
    proof {
        lemma_offset_of_unique(text@.skip(from as int), c, k - from);
    }
    k
}

} // verus!
