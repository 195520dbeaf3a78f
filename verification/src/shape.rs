//! How the rows of a join result are spread over its blocks.
//!
//! There are two kinds of blocks: those of joined pairs, and those of rows without a match.
use crate::block::shown_null_rows;
use crate::block::shown_pairs;
use crate::block::ResultView;
use vstd::arithmetic::div_mod::lemma_fundamental_div_mod_converse;
use vstd::prelude::*;

verus! {

/// The number of blocks of `size` rows that it takes for `rows` rows.
pub open spec fn blocks_for(rows: nat, size: nat) -> nat {
    ((rows + size - 1) / size as int) as nat
}

/// The number of blocks of joined pairs, or of the others.
pub open spec fn block_count<B>(results: Seq<ResultView<B>>, joined: bool) -> nat
    decreases results.len(),
{
    if results.len() == 0 {
        0
    } else {
        block_count(results.drop_last(), joined) + if results.last().is_joined() == joined {
            1nat
        } else {
            0nat
        }
    }
}

/// The number of rows that the blocks of joined pairs, or the others, were made of.
pub open spec fn row_count<B>(results: Seq<ResultView<B>>, joined: bool) -> nat
    decreases results.len(),
{
    if results.len() == 0 {
        0
    } else {
        row_count(results.drop_last(), joined) + if results.last().is_joined() == joined {
            results.last().block.num_rows
        } else {
            0
        }
    }
}

/// Whether every block but the last of its kind was made of `size` rows.
pub open spec fn full_but_last<B>(results: Seq<ResultView<B>>, joined: bool, size: nat) -> bool {
    forall|i: int, j: int|
        0 <= i < j < results.len() && (#[trigger] results[i]).is_joined() == joined && (
        #[trigger] results[j]).is_joined() == joined ==> results[i].block.num_rows == size
}

/// Whether every block of a kind was made of `size` rows.
pub open spec fn all_full<B>(results: Seq<ResultView<B>>, joined: bool, size: nat) -> bool {
    forall|i: int|
        0 <= i < results.len() && (#[trigger] results[i]).is_joined() == joined
            ==> results[i].block.num_rows == size
}

/// Whether every block was made of at least one row, and of no more than `size`.
pub open spec fn sized<B>(results: Seq<ResultView<B>>, size: nat) -> bool {
    forall|k: int|
        0 <= k < results.len() ==> 0 < (#[trigger] results[k]).block.num_rows <= size
}

/// Whether every block is made of the rows that it stands for.
pub open spec fn all_fit<B>(results: Seq<ResultView<B>>, is_probe_projected: bool) -> bool {
    forall|k: int|
        0 <= k < results.len() ==> (#[trigger] results[k]).fits_rows(is_probe_projected)
}

/// Whether the blocks of joined pairs come before the others.
pub open spec fn joined_first<B>(results: Seq<ResultView<B>>) -> bool {
    forall|i: int, j: int|
        0 <= i < j < results.len() && (#[trigger] results[j]).is_joined() ==> (
        #[trigger] results[i]).is_joined()
}

/// Each block is of one kind.
pub proof fn blocks_are_of_two_kinds<B>(results: Seq<ResultView<B>>)
    ensures
        block_count(results, true) + block_count(results, false) == results.len(),
    decreases results.len(),
{
    if results.len() > 0 {
        blocks_are_of_two_kinds(results.drop_last());
    }
}

/// A result with one more block, where those of its kind were full.
pub proof fn one_more_block<B>(
    results: Seq<ResultView<B>>,
    result: ResultView<B>,
    joined: bool,
    size: nat,
)
    requires
        full_but_last(results, joined, size),
        result.is_joined() == joined ==> all_full(results, joined, size),
    ensures
        full_but_last(results.push(result), joined, size),
        all_full(results, joined, size) && (result.is_joined() == joined
            ==> result.block.num_rows == size) ==> all_full(results.push(result), joined, size),
{
    let more = results.push(result);
    assert forall|i: int, j: int|
        0 <= i < j < more.len() && (#[trigger] more[i]).is_joined() == joined && (
        #[trigger] more[j]).is_joined() == joined implies more[i].block.num_rows == size by {
        assert(more[i] == results[i]);
        if j < results.len() {
            assert(more[j] == results[j]);
        }
    }
}

proof fn full_blocks_hold_their_rows<B>(results: Seq<ResultView<B>>, joined: bool, size: nat)
    requires
        all_full(results, joined, size),
    ensures
        row_count(results, joined) == block_count(results, joined) * size,
    decreases results.len(),
{
    let count = block_count(results, joined);
    if results.len() > 0 {
        let rest = results.drop_last();
        assert forall|i: int| 0 <= i < rest.len() && (#[trigger] rest[i]).is_joined()
            == joined implies rest[i].block.num_rows == size by {
            assert(rest[i] == results[i]);
        }
        full_blocks_hold_their_rows(rest, joined, size);
        assert(results[results.len() - 1] == results.last());
        let less = block_count(rest, joined);
        assert((less + 1) * size == less * size + size) by (nonlinear_arith);
    } else {
        assert(count * size == 0) by (nonlinear_arith)
            requires
                count == 0,
        ;
    }
}

proof fn last_block_holds_the_rest<B>(results: Seq<ResultView<B>>, joined: bool, size: nat)
    requires
        full_but_last(results, joined, size),
        sized(results, size),
    ensures
        row_count(results, joined) <= block_count(results, joined) * size,
        block_count(results, joined) > 0 ==> (block_count(results, joined) - 1) * size < row_count(
            results,
            joined,
        ),
        block_count(results, joined) == 0 ==> row_count(results, joined) == 0,
    decreases results.len(),
{
    if results.len() > 0 {
        let rest = results.drop_last();
        let n = results.len() - 1;
        let less = block_count(rest, joined);
        assert(0 < results[n].block.num_rows <= size);
        if results[n].is_joined() == joined {
            assert forall|i: int| 0 <= i < rest.len() && (#[trigger] rest[i]).is_joined()
                == joined implies rest[i].block.num_rows == size by {
                assert(rest[i] == results[i]);
                assert(results[i].is_joined() == joined && results[n].is_joined() == joined);
            }
            full_blocks_hold_their_rows(rest, joined, size);
            assert((less + 1) * size == less * size + size) by (nonlinear_arith);
        } else {
            assert forall|i: int, j: int|
                0 <= i < j < rest.len() && (#[trigger] rest[i]).is_joined() == joined && (
                #[trigger] rest[j]).is_joined() == joined implies rest[i].block.num_rows
                == size by {
                assert(rest[i] == results[i]);
                assert(rest[j] == results[j]);
            }
            assert forall|k: int| 0 <= k < rest.len() implies 0 < (
            #[trigger] rest[k]).block.num_rows <= size by {
                assert(rest[k] == results[k]);
            }
            last_block_holds_the_rest(rest, joined, size);
        }
    } else {
        let count = block_count(results, joined);
        assert(count * size == 0) by (nonlinear_arith)
            requires
                count == 0,
        ;
    }
}

/// Where every block but the last of a kind is full, there are no more of them than their rows
/// take.
pub proof fn no_more_blocks_than_it_takes<B>(
    results: Seq<ResultView<B>>,
    joined: bool,
    size: nat,
)
    requires
        size > 0,
        full_but_last(results, joined, size),
        sized(results, size),
    ensures
        block_count(results, joined) == blocks_for(row_count(results, joined), size),
{
    last_block_holds_the_rest(results, joined, size);
    let count = block_count(results, joined) as int;
    let rows = row_count(results, joined) as int;
    let size = size as int;
    let above = rows + size - 1;
    if count > 0 {
        assert((count - 1) * size == count * size - size) by (nonlinear_arith);
    } else {
        assert(count * size == 0) by (nonlinear_arith)
            requires
                count == 0,
        ;
    }
    assert(count * size == size * count) by (nonlinear_arith);
    lemma_fundamental_div_mod_converse(above, size, count, above - count * size);
}

/// The rows that the blocks of a result stand for are those that they were made of.
pub proof fn shown_rows_are_counted<B>(results: Seq<ResultView<B>>, is_probe_projected: bool)
    requires
        all_fit(results, is_probe_projected),
    ensures
        shown_null_rows(results).len() == row_count(results, false),
        (forall|k: int| 0 <= k < results.len() ==> (#[trigger] results[k]).filter is None)
            ==> shown_pairs(results).len() == row_count(results, true),
    decreases results.len(),
{
    if results.len() > 0 {
        let rest = results.drop_last();
        assert(results[results.len() - 1].fits_rows(is_probe_projected));
        assert forall|k: int| 0 <= k < rest.len() implies (#[trigger] rest[k]).fits_rows(
            is_probe_projected,
        ) by {
            assert(rest[k] == results[k]);
        }
        if forall|k: int| 0 <= k < results.len() ==> (#[trigger] results[k]).filter is None {
            assert(results[results.len() - 1].filter is None);
            assert forall|k: int| 0 <= k < rest.len() implies (
            #[trigger] rest[k]).filter is None by {
                assert(rest[k] == results[k]);
            }
        }
        shown_rows_are_counted(rest, is_probe_projected);
    }
}

} // verus!
