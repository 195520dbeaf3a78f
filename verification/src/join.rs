//! What a probe of a hash join table is given, and what it can ask for and end with.
use crate::bitmap::bitmap_bits;
use arrow2::bitmap::Bitmap;
use vstd::prelude::*;

verus! {

/// The joins that keep every probe row.
#[derive(Clone, Copy, Debug, PartialEq, Eq, Structural)]
pub enum JoinType {
    /// Each probe row with its matches, or with nulls where it has none.
    Left,
    /// As `Left`, for a scalar subquery: a probe row may have one match at most.
    LeftSingle,
    /// As `Left`, and the build rows without a match are kept too.
    Full,
}

/// How the join was planned.
#[derive(Clone, Copy, Debug)]
pub struct HashJoinDesc {
    pub join_type: JoinType,
    /// The keys of a correlated subquery are probed whatever their validity.
    pub from_correlated_subquery: bool,
}

/// A data type, by the number under which the engine knows it.
#[derive(Clone, Copy, Debug, PartialEq, Eq, Structural)]
pub struct DataType {
    pub id: u32,
}

/// The build side of the join, as far as a probe has to know it.
pub struct JoinHashTable {
    pub hash_join_desc: HashJoinDesc,
    /// The type of each field of the build side, in order.
    pub build_schema: Vec<DataType>,
    /// The number of rows of each build chunk.
    pub chunk_rows: Vec<usize>,
    /// Whether columns of the build side are part of the result.
    pub is_build_projected: bool,
}

/// What the probes of one processor share.
pub struct ProbeState {
    /// The number of rows at which a block of the result is complete.
    pub max_block_size: usize,
    /// The validity to use for a complete block.
    pub true_validity: Bitmap,
}

/// Why a probe ended without a result.
#[derive(Debug)]
pub enum ErrorCode<E> {
    /// A scalar subquery has more than one row.
    Internal,
    /// The query was interrupted.
    AbortedQuery,
    /// The work on a block failed.
    Block(E),
}

impl<E> ErrorCode<E> {
    /// The text that goes with an error of the probe itself.
    pub fn message(&self) -> (message: Option<&'static str>)
        ensures
            message is None <==> self is Block,
            self is Internal ==> message.unwrap()@
                == "Scalar subquery can't return more than one row"@,
            self is AbortedQuery ==> message.unwrap()@
                == "Aborted query, because the server is shutting down or the query was killed."@,
    {
        match self {
            ErrorCode::Internal => Some("Scalar subquery can't return more than one row"),
            ErrorCode::AbortedQuery => Some(
                "Aborted query, because the server is shutting down or the query was killed.",
            ),
            ErrorCode::Block(_) => None,
        }
    }
}

/// What a probe needs done before it can go on.
#[derive(Clone, Copy, Debug, PartialEq, Eq, Structural)]
pub enum Action {
    /// Look the key of probe row `row` up, whatever its validity. The matches take the places from
    /// `occupied` on, and there are `capacity` places in all. Where there is no row left, say so.
    ProbeHashTable { row: usize, occupied: usize, capacity: usize },
    /// As `ProbeHashTable`, but subject to the validity of the key.
    ProbeKey { row: usize, occupied: usize, capacity: usize },
    /// Go on with the matches of probe row `row` from where the last look-up stopped.
    NextIncomplete { row: usize, incomplete_ptr: u64, occupied: usize, capacity: usize },
    /// See whether the query was interrupted.
    LoadInterrupt,
    /// Make the pending block.
    BuildBlock,
    /// Evaluate the other conditions of the join on the block just made.
    OtherFilters,
    /// Keep of the block just made the rows that the filter selects.
    FilterBlock,
    /// Nothing: the probe has ended.
    Finish,
}

/// The sum of a list of row counts.
pub open spec fn row_total(counts: Seq<usize>) -> nat
    decreases counts.len(),
{
    if counts.len() == 0 {
        0
    } else {
        row_total(counts.drop_last()) + counts.last() as nat
    }
}

proof fn row_total_grows(counts: Seq<usize>, n: int)
    requires
        0 <= n <= counts.len(),
    ensures
        row_total(counts.take(n)) <= row_total(counts),
    decreases counts.len() - n,
{
    if n < counts.len() {
        row_total_grows(counts, n + 1);
        assert(counts.take(n + 1).drop_last() =~= counts.take(n));
    } else {
        assert(counts.take(n) =~= counts);
    }
}

impl JoinHashTable {
    /// The number of rows of the build side.
    pub fn build_num_rows(&self) -> (total: usize)
        requires
            row_total(self.chunk_rows@) <= usize::MAX,
        ensures
            total == row_total(self.chunk_rows@),
            total == 0 <==> forall|i: int|
                0 <= i < self.chunk_rows@.len() ==> (#[trigger] self.chunk_rows@[i]) == 0,
    {
        let mut total: usize = 0;
        for i in 0..self.chunk_rows.len()
            invariant
                row_total(self.chunk_rows@) <= usize::MAX,
                total == row_total(self.chunk_rows@.take(i as int)),
        {
            proof {
                row_total_grows(self.chunk_rows@, i + 1);
                assert(self.chunk_rows@.take(i + 1).drop_last() =~= self.chunk_rows@.take(
                    i as int,
                ));
            }
            total = total + self.chunk_rows[i];
        }
        proof {
            assert(self.chunk_rows@.take(self.chunk_rows@.len() as int) =~= self.chunk_rows@);
            no_rows_in_no_chunk(self.chunk_rows@);
        }
        total
    }
}

/// What stays the same throughout one probe.
pub struct Setup {
    pub join_type: JoinType,
    pub from_correlated_subquery: bool,
    pub build_schema: Seq<DataType>,
    pub is_build_projected: bool,
    pub is_probe_projected: bool,
    pub build_num_rows: nat,
    pub input_num_rows: nat,
    pub max_block_size: nat,
    pub true_validity: Seq<bool>,
}

/// The setup of a probe of `table` with an input block of `input_num_rows` rows.
pub open spec fn setup_of(
    table: JoinHashTable,
    probe_state: ProbeState,
    input_num_rows: usize,
    is_probe_projected: bool,
) -> Setup {
    Setup {
        join_type: table.hash_join_desc.join_type,
        from_correlated_subquery: table.hash_join_desc.from_correlated_subquery,
        build_schema: table.build_schema@,
        is_build_projected: table.is_build_projected,
        is_probe_projected,
        build_num_rows: row_total(table.chunk_rows@),
        input_num_rows: input_num_rows as nat,
        max_block_size: probe_state.max_block_size as nat,
        true_validity: bitmap_bits(probe_state.true_validity),
    }
}

/// A list of row counts with one more is of that many rows more, and an empty one of none.
pub proof fn every_row_is_counted(counts: Seq<usize>, more: usize)
    ensures
        row_total(Seq::<usize>::empty()) == 0,
        row_total(counts.push(more)) == row_total(counts) + more,
{
    assert(counts.push(more).drop_last() =~= counts);
}

/// There are no rows exactly where no chunk has any.
pub proof fn no_rows_in_no_chunk(counts: Seq<usize>)
    ensures
        row_total(counts) == 0 <==> forall|i: int|
            0 <= i < counts.len() ==> (#[trigger] counts[i]) == 0,
    decreases counts.len(),
{
    if counts.len() > 0 {
        let rest = counts.drop_last();
        no_rows_in_no_chunk(rest);
        assert(counts[counts.len() - 1] == counts.last());
        if row_total(counts) == 0 {
            assert forall|i: int| 0 <= i < counts.len() implies (#[trigger] counts[i]) == 0 by {
                if i < rest.len() {
                    assert(rest[i] == counts[i]);
                }
            }
        } else {
            if forall|i: int| 0 <= i < counts.len() ==> (#[trigger] counts[i]) == 0 {
                assert forall|i: int| 0 <= i < rest.len() implies (#[trigger] rest[i]) == 0 by {
                    assert(rest[i] == counts[i]);
                }
            }
        }
    }
}

/// The setup of a probe is what it was given.
pub proof fn setup_is_what_was_given(
    table: JoinHashTable,
    probe_state: ProbeState,
    input_num_rows: usize,
    is_probe_projected: bool,
)
    ensures
        ({
            let setup = setup_of(table, probe_state, input_num_rows, is_probe_projected);
            &&& setup.join_type == table.hash_join_desc.join_type
            &&& setup.from_correlated_subquery == table.hash_join_desc.from_correlated_subquery
            &&& setup.build_schema == table.build_schema@
            &&& setup.is_build_projected == table.is_build_projected
            &&& setup.is_probe_projected == is_probe_projected
            &&& setup.build_num_rows == 0 <==> forall|i: int|
                0 <= i < table.chunk_rows@.len() ==> (#[trigger] table.chunk_rows@[i]) == 0
            &&& setup.input_num_rows == input_num_rows
            &&& setup.max_block_size == probe_state.max_block_size
            &&& setup.true_validity == bitmap_bits(probe_state.true_validity)
        }),
{
    no_rows_in_no_chunk(table.chunk_rows@);
}

} // verus!
