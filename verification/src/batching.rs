//! Rows cut into pieces of a limited size.

use vstd::prelude::*;

verus! {

/// A row cut into pieces of `size` items; the last piece may be shorter. With a
/// size of zero there is no limit, and so one piece.
pub open spec fn chunks<T>(s: Seq<T>, size: nat) -> Seq<Seq<T>>
    decreases s.len(),
{
    if s.len() == 0 {
        seq![]
    } else if size == 0 || s.len() <= size {
        seq![s]
    } else {
        seq![s.take(size as int)] + chunks(s.skip(size as int), size)
    }
}

/// The pieces hold the row, in its order and nothing else.
pub proof fn law_chunks_hold_the_row<T>(s: Seq<T>, size: nat)
    ensures
        chunks(s, size).flatten() == s,
    decreases s.len(),
{
    if s.len() == 0 {
        assert(chunks(s, size).flatten() =~= s);
    } else if size == 0 || s.len() <= size {
        seq![s].lemma_flatten_one_element();
    } else {
        let head = s.take(size as int);
        let tail = s.skip(size as int);
        law_chunks_hold_the_row(tail, size);
        let parts = chunks(tail, size);
        assert((seq![head] + parts).drop_first() =~= parts);
        assert(head + tail =~= s);
    }
}

/// No piece is empty, and none is longer than the size.
pub proof fn law_chunks_are_limited<T>(s: Seq<T>, size: nat)
    ensures
        forall|i: int|
            0 <= i < chunks(s, size).len() ==> 0 < (#[trigger] chunks(s, size)[i]).len() && (size
                > 0 ==> chunks(s, size)[i].len() <= size),
    decreases s.len(),
{
    if s.len() > size && size > 0 {
        let head = s.take(size as int);
        let tail = s.skip(size as int);
        law_chunks_are_limited(tail, size);
        let parts = chunks(tail, size);
        assert forall|i: int| 0 <= i < chunks(s, size).len() implies 0 < (#[trigger] chunks(
            s,
            size,
        )[i]).len() <= size by {
            if i > 0 {
                assert(chunks(s, size)[i] == parts[i - 1]);
            }
        }
    }
}

} // verus!
