//! Reading a ballot from a line of text: the candidates' names, separated by
//! commas, from the most to the least preferred.

use vstd::prelude::*;

verus! {

/// The byte between two names: a comma.
pub const SEPARATOR: u8 = 0x2c;

/// The names on a line: the stretches of bytes between separators. A line
/// with `n` separators has `n + 1` names, some of which may be empty.
pub open spec fn names_of(line: Seq<u8>) -> Seq<Seq<u8>>
    decreases line.len(),
{
    if line.len() == 0 {
        seq![Seq::empty()]
    } else {
        let before = names_of(line.drop_last());
        if line.last() == SEPARATOR {
            before.push(Seq::empty())
        } else {
            before.update(before.len() - 1, before.last().push(line.last()))
        }
    }
}

/// The line that lists `names` with a separator between each two.
pub open spec fn joined(names: Seq<Seq<u8>>) -> Seq<u8>
    decreases names.len(),
{
    if names.len() == 0 {
        Seq::empty()
    } else if names.len() == 1 {
        names[0]
    } else {
        joined(names.drop_last()) + seq![SEPARATOR] + names.last()
    }
}

/// The names as sequences of bytes.
pub open spec fn names_view(names: Seq<Vec<u8>>) -> Seq<Seq<u8>> {
    Seq::new(names.len(), |i: int| names[i]@)
}

/// A line has at least one name, no name holds a separator, and the names
/// joined by separators are the line again.
pub proof fn lemma_names_of(line: Seq<u8>)
    ensures
        names_of(line).len() >= 1,
        forall|i: int, j: int|
            0 <= i < names_of(line).len() && 0 <= j < names_of(line)[i].len()
                ==> #[trigger] names_of(line)[i][j] != SEPARATOR,
        joined(names_of(line)) == line,
    decreases line.len(),
{
    if line.len() == 0 {
        assert(joined(names_of(line)) =~= line);
    } else {
        let front = line.drop_last();
        let before = names_of(front);
        let names = names_of(line);
        lemma_names_of(front);
        if line.last() == SEPARATOR {
            assert(names.drop_last() =~= before);
            assert(joined(names) =~= line);
        } else {
            if before.len() == 1 {
                assert(joined(names) =~= line);
            } else {
                let head = joined(before.drop_last()) + seq![SEPARATOR];
                assert(names.drop_last() =~= before.drop_last());
                assert(names.last() == before.last().push(line.last()));
                assert(front == head + before.last());
                assert(joined(names) == head + before.last().push(line.last()));
                assert(line =~= front.push(line.last()));
                assert(head + before.last().push(line.last()) =~= (head + before.last()).push(
                    line.last(),
                ));
            }
        }
    }
}

/// Splits a line into the names it lists.
pub fn split_names(line: &[u8]) -> (names: Vec<Vec<u8>>)
    ensures
        names_view(names@) == names_of(line@),
{
    let mut names: Vec<Vec<u8>> = Vec::new();
    let mut current: Vec<u8> = Vec::new();
    let mut i: usize = 0;
    assert(line@.take(0) =~= Seq::<u8>::empty());
    assert(names_view(names@).push(current@) =~= names_of(line@.take(0)));
    while i < line.len()
        invariant
            i <= line.len(),
            names_view(names@).push(current@) == names_of(line@.take(i as int)),
        decreases line.len() - i,
    {
        let ghost done = names_view(names@);
        let ghost name = current@;
        assert(line@.take(i + 1).drop_last() =~= line@.take(i as int));
        if line[i] == SEPARATOR {
            names.push(current);
            current = Vec::new();
            assert(names_view(names@) =~= done.push(name));
        } else {
            current.push(line[i]);
            assert(done.push(current@) =~= done.push(name).update(
                done.len() as int,
                name.push(line@[i as int]),
            ));
        }
        i += 1;
    }
    assert(line@.take(i as int) =~= line@);
    let ghost done = names_view(names@);
    names.push(current);
    assert(names_view(names@) =~= done.push(current@));
    names
}

} // verus!
