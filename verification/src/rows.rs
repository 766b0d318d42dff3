//! Searching and filtering rows.
use vstd::prelude::*;

verus! {

/// The first row at or behind `from` that is wanted, or the number of rows.
pub open spec fn first_at<V>(rows: Seq<V>, wanted: spec_fn(V) -> bool, from: int) -> int
    decreases rows.len() - from,
{
    if from >= rows.len() {
        rows.len() as int
    } else if wanted(rows[from]) {
        from
    } else {
        first_at(rows, wanted, from + 1)
    }
}

/// The first row that is wanted is wanted, and none in front of it is.
pub proof fn lemma_first_at<V>(rows: Seq<V>, wanted: spec_fn(V) -> bool, from: int)
    requires
        0 <= from <= rows.len(),
    ensures
        from <= first_at(rows, wanted, from) <= rows.len(),
        first_at(rows, wanted, from) < rows.len() ==> wanted(rows[first_at(rows, wanted, from)]),
        forall|i: int| from <= i < first_at(rows, wanted, from) ==> !wanted(#[trigger] rows[i]),
    decreases rows.len() - from,
{
    if from < rows.len() && !wanted(rows[from]) {
        lemma_first_at(rows, wanted, from + 1);
    }
}

/// The rows that are kept, in their order.
pub open spec fn kept<V>(rows: Seq<V>, keep: spec_fn(V) -> bool) -> Seq<V>
    decreases rows.len(),
{
    if rows.len() == 0 {
        Seq::empty()
    } else {
        let earlier = kept(rows.drop_last(), keep);
        if keep(rows.last()) {
            earlier.push(rows.last())
        } else {
            earlier
        }
    }
}

/// What is kept was there, and what was there and is to be kept is kept.
pub proof fn lemma_kept<V>(rows: Seq<V>, keep: spec_fn(V) -> bool)
    ensures
        kept(rows, keep).len() <= rows.len(),
        forall|i: int|
            0 <= i < kept(rows, keep).len() ==> keep(#[trigger] kept(rows, keep)[i])
                && rows.contains(kept(rows, keep)[i]),
        forall|i: int|
            0 <= i < rows.len() && keep(#[trigger] rows[i]) ==> kept(rows, keep).contains(rows[i]),
    decreases rows.len(),
{
    if rows.len() > 0 {
        let earlier = kept(rows.drop_last(), keep);
        let all = kept(rows, keep);
        lemma_kept(rows.drop_last(), keep);
        assert forall|i: int| 0 <= i < all.len() implies keep(#[trigger] all[i]) && rows.contains(
            all[i],
        ) by {
            if i < earlier.len() {
                assert(all[i] == earlier[i]);
                assert(rows.drop_last().contains(earlier[i]));
                let j = choose|j: int|
                    0 <= j < rows.len() - 1 && rows.drop_last()[j] == earlier[i];
                assert(rows[j] == all[i]);
            } else {
                assert(all[i] == rows[rows.len() - 1]);
            }
        }
        assert forall|i: int| 0 <= i < rows.len() && keep(#[trigger] rows[i]) implies all.contains(
            rows[i],
        ) by {
            if i < rows.len() - 1 {
                assert(rows.drop_last()[i] == rows[i]);
                assert(earlier.contains(rows[i]));
                let j = choose|j: int| 0 <= j < earlier.len() && earlier[j] == rows[i];
                assert(all[j] == rows[i]);
            } else {
                assert(all[all.len() - 1] == rows[i]);
            }
        }
    }
}

/// Whether some positions in rows follow one another upwards.
pub open spec fn ascending(at: Seq<int>, length: int) -> bool {
    &&& forall|i: int| 0 <= i < at.len() ==> 0 <= #[trigger] at[i] < length
    &&& forall|i: int, j: int| 0 <= i < j < at.len() ==> #[trigger] at[i] < #[trigger] at[j]
}

/// What is kept stands where it stood, in the same order, and nothing that is to be
/// kept is left out.
pub proof fn lemma_kept_positions<V>(rows: Seq<V>, keep: spec_fn(V) -> bool) -> (at: Seq<int>)
    ensures
        ascending(at, rows.len() as int),
        at.len() == kept(rows, keep).len(),
        forall|i: int|
            0 <= i < at.len() ==> kept(rows, keep)[i] == rows[#[trigger] at[i]] && keep(
                rows[at[i]],
            ),
        forall|j: int| 0 <= j < rows.len() && keep(#[trigger] rows[j]) ==> at.contains(j),
    decreases rows.len(),
{
    if rows.len() == 0 {
        Seq::empty()
    } else {
        let front = rows.drop_last();
        let earlier = lemma_kept_positions(front, keep);
        let last = rows.len() - 1;
        assert forall|i: int| 0 <= i < earlier.len() implies front[#[trigger] earlier[i]]
            == rows[earlier[i]] by {}
        if keep(rows.last()) {
            let at = earlier.push(last);
            assert forall|i: int| 0 <= i < at.len() implies kept(rows, keep)[i]
                == rows[#[trigger] at[i]] && keep(rows[at[i]]) by {
                if i < earlier.len() {
                    assert(at[i] == earlier[i]);
                    assert(kept(rows, keep)[i] == kept(front, keep)[i]);
                }
            }
            assert forall|j: int| 0 <= j < rows.len() && keep(#[trigger] rows[j]) implies at.contains(
                j,
            ) by {
                if j < last {
                    assert(front[j] == rows[j]);
                    assert(earlier.contains(j));
                    let k = choose|k: int| 0 <= k < earlier.len() && earlier[k] == j;
                    assert(at[k] == j);
                } else {
                    assert(at[earlier.len() as int] == j);
                }
            }
            assert forall|i: int, j: int| 0 <= i < j < at.len() implies #[trigger] at[i]
                < #[trigger] at[j] by {
                assert(at[i] == earlier[i]);
                if j < earlier.len() {
                    assert(at[j] == earlier[j]);
                }
            }
            at
        } else {
            assert forall|j: int| 0 <= j < rows.len() && keep(
                #[trigger] rows[j],
            ) implies earlier.contains(j) by {
                assert(j < last);
                assert(front[j] == rows[j]);
            }
            earlier
        }
    }
}

/// The first row that is wanted is the one that is found.
pub proof fn lemma_first_is<V>(rows: Seq<V>, wanted: spec_fn(V) -> bool, index: int)
    requires
        0 <= index <= rows.len(),
        forall|i: int| 0 <= i < index ==> !wanted(#[trigger] rows[i]),
        index < rows.len() ==> wanted(rows[index]),
    ensures
        first_at(rows, wanted, 0) == index,
{
    lemma_first_at(rows, wanted, 0);
    let found = first_at(rows, wanted, 0);
    if found < index {
        assert(wanted(rows[found]));
    }
}

} // verus!
