//! Splitting the ticker line that the user types into single symbols.

use vstd::prelude::*;

verus! {

/// The pieces of `s` between single spaces, as `str::split(" ")` yields them:
/// an empty line gives one empty piece, and two adjacent spaces give an
/// empty piece between them.
pub open spec fn split_on_space(s: Seq<char>) -> Seq<Seq<char>>
    decreases s.len(),
{
    if s.len() == 0 {
        seq![Seq::<char>::empty()]
    } else {
        let prev = split_on_space(s.drop_last());
        if s.last() == ' ' {
            prev.push(Seq::<char>::empty())
        } else {
            prev.update(prev.len() - 1, prev.last().push(s.last()))
        }
    }
}

/// The pieces joined back together with one space between neighbours.
pub open spec fn join_with_space(pieces: Seq<Seq<char>>) -> Seq<char>
    decreases pieces.len(),
{
    if pieces.len() == 0 {
        Seq::<char>::empty()
    } else if pieces.len() == 1 {
        pieces[0]
    } else {
        join_with_space(pieces.drop_last()) + seq![' '] + pieces.last()
    }
}

/// The number of spaces in `s`.
pub open spec fn count_spaces(s: Seq<char>) -> nat
    decreases s.len(),
{
    if s.len() == 0 {
        0
    } else {
        count_spaces(s.drop_last()) + if s.last() == ' ' { 1nat } else { 0nat }
    }
}

/// The split of a line has one piece more than the line has spaces,
/// and never an empty list of pieces.
pub proof fn lemma_split_len(s: Seq<char>)
    ensures
        split_on_space(s).len() == count_spaces(s) + 1,
    decreases s.len(),
{
    if s.len() > 0 {
        lemma_split_len(s.drop_last());
    }
}

/// Splitting a line on spaces and joining the pieces with spaces gives the
/// line back, and no piece holds a space.
pub proof fn lemma_split_join(s: Seq<char>)
    ensures
        join_with_space(split_on_space(s)) == s,
        forall|i: int, j: int|
            0 <= i < split_on_space(s).len() && 0 <= j < split_on_space(s)[i].len()
                ==> #[trigger] split_on_space(s)[i][j] != ' ',
    decreases s.len(),
{
    if s.len() > 0 {
        let init = s.drop_last();
        lemma_split_join(init);
        lemma_split_len(init);
        let prev = split_on_space(init);
        let cur = split_on_space(s);
        if s.last() == ' ' {
            assert(cur.drop_last() =~= prev);
            assert(s =~= init + seq![' '] + Seq::<char>::empty());
        } else {
            let k = prev.len() - 1;
            if prev.len() == 1 {
                assert(s =~= prev[0].push(s.last()));
            } else {
                assert(cur.drop_last() =~= prev.drop_last());
                let a = join_with_space(prev.drop_last());
                assert(init == a + seq![' '] + prev.last());
                assert(s =~= init.push(s.last()));
                assert((a + seq![' '] + prev.last()).push(s.last()) =~= a + seq![' '] + prev.last().push(s.last()));
            }
            assert forall|i: int, j: int|
                0 <= i < cur.len() && 0 <= j < cur[i].len() implies #[trigger] cur[i][j] != ' ' by {
                if i == k && j == cur[i].len() - 1 {
                } else {
                    assert(cur[i][j] == prev[i][j]);
                }
            }
        }
    }
}

/// Splits the line that the user typed into symbols at each single space,
/// keeping empty pieces and any line break that the line ends with, as
/// `str::split(" ")` does.
pub fn split_tickers(line: &str) -> (pieces: Vec<String>)
    ensures
        pieces@.map_values(|p: String| p@) == split_on_space(line@),
{
    let n = line.unicode_len();
    let mut pieces: Vec<String> = Vec::new();
    let mut start: usize = 0;
    let mut i: usize = 0;
    assert(line@.take(0) =~= Seq::<char>::empty());
    assert(line@.subrange(0, 0) =~= Seq::<char>::empty());
    assert(pieces@.map_values(|p: String| p@) =~= Seq::<Seq<char>>::empty());
    while i < n
        invariant
            n == line@.len(),
            start <= i <= n,
            pieces@.map_values(|p: String| p@).push(line@.subrange(start as int, i as int))
                == split_on_space(line@.take(i as int)),
        decreases n - i,
    {
        let c = line.get_char(i);
        let ghost prefix = line@.take(i as int);
        assert(line@.take(i + 1).drop_last() =~= prefix);
        if c == ' ' {
            let piece = line.substring_char(start, i).to_owned();
            pieces.push(piece);
            start = i + 1;
            i = i + 1;
            assert(line@.subrange(start as int, i as int) =~= Seq::<char>::empty());
        } else {
            i = i + 1;
            assert(line@.subrange(start as int, i as int)
                =~= line@.subrange(start as int, i - 1).push(c));
        }
    }
    let last = line.substring_char(start, n).to_owned();
    pieces.push(last);
    assert(line@.take(n as int) =~= line@);
    pieces
}

} // verus!
