//! The first minimum of a sequence.

use vstd::prelude::*;

verus! {

/// The position of the smallest value, and of the first of them where
/// several are the smallest. For the empty sequence it is 0.
pub open spec fn first_minimum(values: Seq<nat>) -> int
    decreases values.len(),
{
    if values.len() <= 1 {
        0
    } else {
        let before = first_minimum(values.drop_last());
        if values.last() < values[before] {
            values.len() - 1
        } else {
            before
        }
    }
}

/// How the first minimum goes on when a value is appended: it moves to the
/// new value exactly if that value is smaller.
pub proof fn lemma_first_minimum_step(values: Seq<nat>)
    requires
        values.len() > 0,
    ensures
        values.len() == 1 ==> first_minimum(values) == 0,
        values.len() > 1 ==> first_minimum(values) == (if values.last() < values[first_minimum(
            values.drop_last(),
        )] {
            values.len() - 1
        } else {
            first_minimum(values.drop_last())
        }),
{
}

/// `first_minimum` is the position of a smallest value, and no earlier
/// position has a value as small.
pub proof fn lemma_first_minimum(values: Seq<nat>)
    requires
        values.len() > 0,
    ensures
        0 <= first_minimum(values) < values.len(),
        forall|j: int| 0 <= j < values.len() ==> values[first_minimum(values)] <= #[trigger] values[j],
        forall|j: int| 0 <= j < first_minimum(values) ==> values[first_minimum(values)] < #[trigger] values[j],
    decreases values.len(),
{
    if values.len() > 1 {
        let front = values.drop_last();
        lemma_first_minimum(front);
        assert forall|j: int| 0 <= j < front.len() implies #[trigger] front[j] == values[j] by {}
        let before = first_minimum(front);
        assert(front[before] == values[before]);
        assert forall|j: int| 0 <= j < values.len() implies values[first_minimum(values)]
            <= #[trigger] values[j] by {
            if j < front.len() {
                assert(front[before] <= front[j]);
            }
        }
        assert forall|j: int| 0 <= j < first_minimum(values) implies values[first_minimum(values)]
            < #[trigger] values[j] by {
            if j < before {
                assert(front[before] < front[j]);
            } else {
                assert(front[before] <= front[j]);
            }
        }
    }
}

/// A position with a smallest value before which every value is larger is
/// the first minimum.
pub proof fn lemma_first_minimum_unique(values: Seq<nat>, c: int)
    requires
        0 <= c < values.len(),
        forall|j: int| 0 <= j < values.len() ==> values[c] <= #[trigger] values[j],
        forall|j: int| 0 <= j < c ==> values[c] < #[trigger] values[j],
    ensures
        first_minimum(values) == c,
{
    lemma_first_minimum(values);
    let l = first_minimum(values);
    if c < l {
        assert(values[l] < values[c]);
        assert(values[c] <= values[l]);
    } else if l < c {
        assert(values[c] < values[l]);
        assert(values[l] <= values[c]);
    }
}

} // verus!
