//! How many joined pairs each probe row has left.
//!
//! A probe with other conditions learns only after a block was made which of its pairs stay. So it
//! counts the pairs of each probe row as they are found, remembers which row the count of each pair
//! went to, and takes the pairs that the conditions drop off again. A row whose count is zero in
//! the end has no match.
use crate::bitmap::all_clear;
use crate::bitmap::all_set;
use crate::bitmap::bitmap_bits;
use crate::bitmap::get_bit;
use crate::rows::pair_count;
use crate::rows::select;
use crate::scan_map::RowPtr;
use arrow2::bitmap::Bitmap;
use vstd::prelude::*;

verus! {

/// How many of the pairs that count for the rows `indexes` count for `row`.
pub open spec fn pairs_of(indexes: Seq<usize>, row: int) -> nat
    decreases indexes.len(),
{
    if indexes.len() == 0 {
        0
    } else {
        pairs_of(indexes.drop_last(), row) + if indexes.last() == row {
            1nat
        } else {
            0nat
        }
    }
}

/// How many of the pairs that count for the rows `indexes` count for `row` and have their bit in
/// `bits` clear.
pub open spec fn dropped_pairs_of(indexes: Seq<usize>, bits: Seq<bool>, row: int) -> nat
    decreases indexes.len(),
{
    if indexes.len() == 0 {
        0
    } else {
        dropped_pairs_of(indexes.drop_last(), bits, row) + if indexes.last() == row
            && !bits[indexes.len() - 1] {
            1nat
        } else {
            0nat
        }
    }
}

/// Whether the counts include the pairs that count for the rows `indexes`.
pub open spec fn includes(row_state: Seq<usize>, indexes: Seq<usize>) -> bool {
    &&& forall|k: int| 0 <= k < indexes.len() ==> (#[trigger] indexes[k]) < row_state.len()
    &&& forall|row: int|
        0 <= row < row_state.len() ==> pairs_of(indexes, row) <= #[trigger] row_state[row]
}

/// The counts without the pairs whose bit in `bits` is clear.
pub open spec fn without_dropped(
    row_state: Seq<usize>,
    indexes: Seq<usize>,
    bits: Seq<bool>,
) -> Seq<usize> {
    Seq::new(
        row_state.len(),
        |row: int| (row_state[row] - dropped_pairs_of(indexes, bits, row)) as usize,
    )
}

/// The counts with those of the rows from `from` to `to` set to zero.
pub open spec fn with_zeros(row_state: Seq<usize>, from: int, to: int) -> Seq<usize> {
    Seq::new(
        row_state.len(),
        |row: int|
            if from <= row < to {
                0usize
            } else {
                row_state[row]
            },
    )
}

/// The rows from `from` to `to` whose count is zero, in order.
pub open spec fn zero_rows(row_state: Seq<usize>, from: int, to: int) -> Seq<int>
    decreases to - from,
{
    if to <= from {
        Seq::empty()
    } else {
        let rest = zero_rows(row_state, from, to - 1);
        if row_state[to - 1] == 0 {
            rest.push(to - 1)
        } else {
            rest
        }
    }
}

/// Fewer pairs are dropped than there are.
pub proof fn dropped_are_pairs(indexes: Seq<usize>, bits: Seq<bool>, row: int)
    ensures
        dropped_pairs_of(indexes, bits, row) <= pairs_of(indexes, row),
    decreases indexes.len(),
{
    if indexes.len() > 0 {
        dropped_are_pairs(indexes.drop_last(), bits, row);
    }
}

/// Of a longer list no fewer pairs are dropped.
proof fn dropped_of_more(indexes: Seq<usize>, bits: Seq<bool>, row: int, n: int)
    requires
        0 <= n <= indexes.len(),
    ensures
        dropped_pairs_of(indexes.take(n), bits, row) <= dropped_pairs_of(indexes, bits, row),
    decreases indexes.len() - n,
{
    if n < indexes.len() {
        dropped_of_more(indexes, bits, row, n + 1);
        assert(indexes.take(n + 1).drop_last() =~= indexes.take(n));
    } else {
        assert(indexes.take(n) =~= indexes);
    }
}

/// Where every bit is set, no pair is dropped.
pub proof fn none_dropped(indexes: Seq<usize>, n: nat, row: int)
    requires
        indexes.len() <= n,
    ensures
        dropped_pairs_of(indexes, all_set(n), row) == 0,
    decreases indexes.len(),
{
    if indexes.len() > 0 {
        none_dropped(indexes.drop_last(), n, row);
    }
}

/// No pair of a row is dropped where there is none.
pub proof fn none_dropped_elsewhere(indexes: Seq<usize>, bits: Seq<bool>, row: int)
    requires
        forall|k: int| 0 <= k < indexes.len() ==> (#[trigger] indexes[k]) != row,
    ensures
        dropped_pairs_of(indexes, bits, row) == 0,
    decreases indexes.len(),
{
    if indexes.len() > 0 {
        let rest = indexes.drop_last();
        assert forall|k: int| 0 <= k < rest.len() implies (#[trigger] rest[k]) != row by {
            assert(rest[k] == indexes[k]);
        }
        none_dropped_elsewhere(rest, bits, row);
        assert(indexes[indexes.len() - 1] != row);
    }
}

/// Bits beyond the pairs do not count.
pub proof fn dropped_by_first_bits(indexes: Seq<usize>, bits: Seq<bool>, n: int, row: int)
    requires
        indexes.len() <= n <= bits.len(),
    ensures
        dropped_pairs_of(indexes, bits.take(n), row) == dropped_pairs_of(indexes, bits, row),
    decreases indexes.len(),
{
    if indexes.len() > 0 {
        dropped_by_first_bits(indexes.drop_last(), bits, n, row);
    }
}

/// One more pair of a row is one more pair of that row.
pub proof fn pairs_of_more(indexes: Seq<usize>, at: usize, count: nat, row: int)
    ensures
        pairs_of(indexes + Seq::new(count, |k: int| at), row) == pairs_of(indexes, row) + if at
            == row {
            count
        } else {
            0
        },
    decreases count,
{
    let more = indexes + Seq::new(count, |k: int| at);
    if count > 0 {
        let less = (count - 1) as nat;
        pairs_of_more(indexes, at, less, row);
        assert(more.drop_last() =~= indexes + Seq::new(less, |k: int| at));
    } else {
        assert(more =~= indexes);
    }
}

/// Takes the pairs whose bit in `validity` is clear off the counts.
pub fn drop_invalid(row_state: &mut Vec<usize>, indexes: &Vec<usize>, validity: &Bitmap)
    requires
        includes(old(row_state)@, indexes@),
        indexes@.len() <= bitmap_bits(*validity).len(),
    ensures
        final(row_state)@ == without_dropped(
            old(row_state)@,
            indexes@,
            bitmap_bits(*validity),
        ),
{
    let ghost before = row_state@;
    let ghost bits = bitmap_bits(*validity);
    assert(indexes@.take(0) =~= Seq::empty());
    assert(row_state@ =~= without_dropped(before, indexes@.take(0), bits));
    for i in 0..indexes.len()
        invariant
            bits == bitmap_bits(*validity),
            includes(before, indexes@),
            indexes@.len() <= bits.len(),
            row_state@ == without_dropped(before, indexes@.take(i as int), bits),
    {
        let ghost now = row_state@;
        assert(indexes@.take(i + 1).drop_last() =~= indexes@.take(i as int));
        let row: usize = indexes[i];
        proof {
            dropped_of_more(indexes@, bits, row as int, i + 1);
            dropped_are_pairs(indexes@, bits, row as int);
            assert(pairs_of(indexes@, row as int) <= before[row as int]);
        }
        if !get_bit(validity, i) {
            row_state[row] = row_state[row] - 1;
        }
        assert(row_state@ =~= without_dropped(before, indexes@.take(i + 1), bits));
    }
    assert(indexes@.take(indexes@.len() as int) =~= indexes@);
}

/// Takes all the pairs off the counts.
pub fn drop_all(row_state: &mut Vec<usize>, indexes: &Vec<usize>)
    requires
        includes(old(row_state)@, indexes@),
    ensures
        final(row_state)@ == without_dropped(
            old(row_state)@,
            indexes@,
            all_clear(indexes@.len()),
        ),
{
    let ghost before = row_state@;
    let ghost bits = all_clear(indexes@.len());
    assert(indexes@.take(0) =~= Seq::empty());
    assert(row_state@ =~= without_dropped(before, indexes@.take(0), bits));
    for i in 0..indexes.len()
        invariant
            bits == all_clear(indexes@.len()),
            includes(before, indexes@),
            row_state@ == without_dropped(before, indexes@.take(i as int), bits),
    {
        assert(indexes@.take(i + 1).drop_last() =~= indexes@.take(i as int));
        let row: usize = indexes[i];
        proof {
            dropped_of_more(indexes@, bits, row as int, i + 1);
            dropped_are_pairs(indexes@, bits, row as int);
            assert(pairs_of(indexes@, row as int) <= before[row as int]);
        }
        row_state[row] = row_state[row] - 1;
        assert(row_state@ =~= without_dropped(before, indexes@.take(i + 1), bits));
    }
    assert(indexes@.take(indexes@.len() as int) =~= indexes@);
}

/// Where the search for `limit` rows with a count of zero stops: behind the last of them, or at the
/// end.
pub open spec fn scan_stop(row_state: Seq<usize>, from: int, to: int, limit: int) -> int {
    let rows = zero_rows(row_state, from, to);
    if rows.len() < limit {
        to
    } else {
        rows[limit - 1] + 1
    }
}

/// The first `limit` rows with a count of zero, or all where there are fewer.
pub open spec fn scan_rows(row_state: Seq<usize>, from: int, to: int, limit: int) -> Seq<int> {
    let rows = zero_rows(row_state, from, to);
    if rows.len() < limit {
        rows
    } else {
        rows.take(limit)
    }
}

/// Runs of one row each.
pub open spec fn single_runs(rows: Seq<int>) -> Seq<(u32, u32)> {
    rows.map_values(|row: int| (row as u32, 1u32))
}

/// Counts of zero found early are found again.
proof fn zero_rows_extend(row_state: Seq<usize>, from: int, mid: int, to: int)
    requires
        from <= mid <= to,
    ensures
        zero_rows(row_state, from, mid).len() <= zero_rows(row_state, from, to).len(),
        zero_rows(row_state, from, mid) == zero_rows(row_state, from, to).take(
            zero_rows(row_state, from, mid).len() as int,
        ),
    decreases to - mid,
{
    if mid < to {
        zero_rows_extend(row_state, from, mid, to - 1);
        let part = zero_rows(row_state, from, mid);
        assert(part =~= zero_rows(row_state, from, to).take(part.len() as int));
    } else {
        let all = zero_rows(row_state, from, to);
        assert(all =~= all.take(all.len() as int));
    }
}

/// Looks, from row `from` to row `to`, for `limit` rows with a count of zero. Sets the counts of
/// the rows it comes by to zero, and returns the row at which it stopped and the rows it found.
pub fn scan_zero_rows(
    row_state: &mut Vec<usize>,
    from: usize,
    to: usize,
    limit: usize,
) -> (found: (usize, Vec<(u32, u32)>))
    requires
        from <= to <= old(row_state)@.len(),
        limit > 0,
    ensures
        found.0 == scan_stop(old(row_state)@, from as int, to as int, limit as int),
        found.1@ == single_runs(scan_rows(old(row_state)@, from as int, to as int, limit as int)),
        final(row_state)@ == with_zeros(old(row_state)@, from as int, found.0 as int),
        from <= found.0 <= to,
{
    let ghost before = row_state@;
    let mut rows: Vec<(u32, u32)> = Vec::new();
    let mut row: usize = from;
    assert(rows@ =~= single_runs(zero_rows(before, from as int, from as int)));
    assert(row_state@ =~= with_zeros(before, from as int, from as int));
    while row < to && rows.len() < limit
        invariant
            from <= row <= to <= before.len(),
            rows@.len() <= limit,
            row_state@ == with_zeros(before, from as int, row as int),
            rows@ == single_runs(zero_rows(before, from as int, row as int)),
            rows@.len() == limit ==> row > from && zero_rows(before, from as int, row as int)[limit
                - 1] == row - 1,
            limit > 0,
        decreases to - row,
    {
        let ghost found = zero_rows(before, from as int, row as int);
        if row_state[row] == 0 {
            rows.push((row as u32, 1));
            assert(rows@ =~= single_runs(found.push(row as int)));
        }
        row_state[row] = 0;
        row = row + 1;
        assert(row_state@ =~= with_zeros(before, from as int, row as int));
    }
    proof {
        zero_rows_extend(before, from as int, row as int, to as int);
    }
    (row, rows)
}

/// The pairs that are dropped and those that stay are all the pairs.
pub proof fn dropped_and_kept_pairs(
    indexes: Seq<usize>,
    pairs: Seq<(int, RowPtr)>,
    bits: Seq<bool>,
    row: int,
)
    requires
        indexes.len() == pairs.len(),
        forall|k: int| 0 <= k < indexes.len() ==> (#[trigger] indexes[k]) == pairs[k].0,
    ensures
        dropped_pairs_of(indexes, bits, row) + pair_count(select(pairs, bits), row) == pair_count(
            pairs,
            row,
        ),
    decreases indexes.len(),
{
    if indexes.len() > 0 {
        let n = indexes.len() - 1;
        assert(indexes[n] == pairs[n].0);
        assert forall|k: int| 0 <= k < indexes.drop_last().len() implies (
        #[trigger] indexes.drop_last()[k]) == pairs.drop_last()[k].0 by {
            assert(indexes[k] == pairs[k].0);
        }
        dropped_and_kept_pairs(indexes.drop_last(), pairs.drop_last(), bits, row);
        let rest = select(pairs.drop_last(), bits);
        if bits[n] {
            assert(rest.push(pairs.last()).drop_last() =~= rest);
        }
    }
}

/// What is found up to where the search stops is what is found.
pub proof fn scan_finds_up_to_stop(row_state: Seq<usize>, from: int, to: int, limit: int)
    requires
        from <= to,
        limit > 0,
    ensures
        from <= scan_stop(row_state, from, to, limit) <= to,
        scan_rows(row_state, from, to, limit) == zero_rows(
            row_state,
            from,
            scan_stop(row_state, from, to, limit),
        ),
        scan_rows(row_state, from, to, limit).len() <= limit,
        scan_rows(row_state, from, to, limit).len() < limit ==> scan_stop(
            row_state,
            from,
            to,
            limit,
        ) == to,
    decreases to - from,
{
    let rows = zero_rows(row_state, from, to);
    if from < to {
        scan_finds_up_to_stop(row_state, from, to - 1, limit);
        let rest = zero_rows(row_state, from, to - 1);
        if rest.len() >= limit {
            assert(rows.take(limit) =~= rest.take(limit));
            assert(rows[limit - 1] == rest[limit - 1]);
        } else if rows.len() >= limit {
            assert(rows.take(limit) =~= rows);
        }
    }
}

proof fn dropped_pairs_are_counted(
    indexes: Seq<usize>,
    bits: Seq<bool>,
    row: int,
    is_lost: spec_fn(int) -> bool,
    n: nat,
)
    requires
        n <= indexes.len(),
        forall|k: int|
            0 <= k < indexes.len() ==> #[trigger] is_lost(k) == (indexes[k] == row && !bits[k]),
    ensures
        dropped_pairs_of(indexes.take(n as int), bits, row) == Seq::new(n, |k: int| k).filter(
            is_lost,
        ).len(),
    decreases n,
{
    let all = Seq::new(n, |k: int| k);
    reveal(Seq::filter);
    if n > 0 {
        dropped_pairs_are_counted(indexes, bits, row, is_lost, (n - 1) as nat);
        assert(indexes.take(n as int).drop_last() =~= indexes.take(n - 1));
        assert(all.drop_last() =~= Seq::new((n - 1) as nat, |k: int| k));
        assert(is_lost(n - 1) == (indexes[n - 1] == row && !bits[n - 1]));
    }
}

/// A row loses as many of its count as there are pairs that are lost to it: that count for it, and
/// have their bit clear.
pub proof fn rows_lose_their_dropped_pairs(
    row_state: Seq<usize>,
    indexes: Seq<usize>,
    bits: Seq<bool>,
    row: int,
    is_lost: spec_fn(int) -> bool,
)
    requires
        includes(row_state, indexes),
        0 <= row < row_state.len(),
        forall|k: int|
            0 <= k < indexes.len() ==> #[trigger] is_lost(k) == (indexes[k] == row && !bits[k]),
    ensures
        without_dropped(row_state, indexes, bits).len() == row_state.len(),
        without_dropped(row_state, indexes, bits)[row] == row_state[row] - Seq::new(
            indexes.len(),
            |k: int| k,
        ).filter(is_lost).len(),
{
    dropped_pairs_are_counted(indexes, bits, row, is_lost, indexes.len());
    assert(indexes.take(indexes.len() as int) =~= indexes);
    dropped_are_pairs(indexes, bits, row);
}

/// The counts of the rows gone by are zero, and the others as they were.
pub proof fn counts_gone_by_are_zero(row_state: Seq<usize>, from: int, to: int)
    ensures
        with_zeros(row_state, from, to).len() == row_state.len(),
        forall|row: int|
            0 <= row < row_state.len() && from <= row < to ==> (#[trigger] with_zeros(
                row_state,
                from,
                to,
            )[row]) == 0,
        forall|row: int|
            0 <= row < row_state.len() && !(from <= row < to) ==> (#[trigger] with_zeros(
                row_state,
                from,
                to,
            )[row]) == row_state[row],
{
}

proof fn zero_rows_are_found_in_order(row_state: Seq<usize>, from: int, to: int)
    ensures
        forall|k: int|
            0 <= k < zero_rows(row_state, from, to).len() ==> {
                let row = #[trigger] zero_rows(row_state, from, to)[k];
                from <= row < to && row_state[row] == 0
            },
        forall|j: int, k: int|
            0 <= j < k < zero_rows(row_state, from, to).len() ==> #[trigger] zero_rows(
                row_state,
                from,
                to,
            )[j] < #[trigger] zero_rows(row_state, from, to)[k],
        forall|row: int|
            from <= row < to && #[trigger] row_state[row] == 0 ==> zero_rows(
                row_state,
                from,
                to,
            ).contains(row),
    decreases to - from,
{
    if from < to {
        zero_rows_are_found_in_order(row_state, from, to - 1);
        let rest = zero_rows(row_state, from, to - 1);
        let all = zero_rows(row_state, from, to);
        assert forall|k: int| 0 <= k < rest.len() implies rest[k] == #[trigger] all[k] by {}
        assert forall|row: int|
            from <= row < to && #[trigger] row_state[row] == 0 implies all.contains(row) by {
            if row < to - 1 {
                let k = choose|k: int| 0 <= k < rest.len() && rest[k] == row;
                assert(all[k] == row);
            } else {
                assert(all[rest.len() as int] == row);
            }
        }
    }
}

/// A search for rows with a count of zero finds such rows, in order, and no more than the limit;
/// it passes none by; and it stops behind the last of as many as the limit, or else at the end.
pub proof fn scan_passes_no_row_by(row_state: Seq<usize>, from: int, to: int, limit: int)
    requires
        from <= to,
        limit > 0,
    ensures
        ({
            let rows = scan_rows(row_state, from, to, limit);
            let stop = scan_stop(row_state, from, to, limit);
            &&& from <= stop <= to
            &&& rows.len() <= limit
            &&& forall|k: int|
                0 <= k < rows.len() ==> from <= #[trigger] rows[k] < stop && row_state[rows[k]]
                    == 0
            &&& forall|j: int, k: int|
                0 <= j < k < rows.len() ==> #[trigger] rows[j] < #[trigger] rows[k]
            &&& forall|row: int|
                from <= row < stop && #[trigger] row_state[row] == 0 ==> rows.contains(row)
            &&& rows.len() < limit ==> stop == to
            &&& rows.len() == limit ==> stop == rows.last() + 1
        }),
{
    let rows = scan_rows(row_state, from, to, limit);
    let stop = scan_stop(row_state, from, to, limit);
    scan_finds_up_to_stop(row_state, from, to, limit);
    zero_rows_are_found_in_order(row_state, from, stop);
}

/// Rows are put into runs of one row each, in order.
pub proof fn single_runs_are_of_their_rows(rows: Seq<int>)
    ensures
        single_runs(rows).len() == rows.len(),
        forall|k: int|
            0 <= k < rows.len() ==> (#[trigger] single_runs(rows)[k]) == (rows[k] as u32, 1u32),
{
}

} // verus!
