//! The blocks of a join result.
//!
//! A block is described by the rows that it joins and by what becomes of the columns of each side;
//! the columns themselves are made elsewhere, from that description.
use crate::bitmap::all_set;
use crate::bitmap::all_valid;
use crate::bitmap::bitmap_bits;
use crate::bitmap::share;
use crate::join::setup_of;
use crate::join::DataType;
use crate::join::JoinHashTable;
use crate::join::JoinType;
use crate::join::ProbeState;
use crate::join::Setup;
use crate::rows::expand;
use crate::rows::expand_append;
use crate::rows::pair_up;
use crate::rows::select;
use crate::scan_map::RowPtr;
use arrow2::bitmap::Bitmap;
use vstd::prelude::*;

verus! {

/// What becomes of the probe columns of a block.
pub enum ProbeColumns {
    /// The rows taken from the input, as they are.
    Taken,
    /// The rows taken from the input, made nullable with this validity.
    Nullable(Bitmap),
}

/// A column that is null in every row.
#[derive(Clone, Copy, Debug, PartialEq, Eq, Structural)]
pub enum NullColumn {
    /// A null of this type as it stands.
    Of(DataType),
    /// A null of this type made nullable.
    OfNullable(DataType),
}

/// What becomes of the build columns of a block.
pub enum BuildColumns {
    /// The gathered build rows, made nullable with this validity.
    Nullable(Bitmap),
    /// In place of the gathered columns, which have no rows, those that [`nulls_of_gathered`] gives
    /// for their types.
    NullOfGathered,
    /// These columns, one for each field of the build schema: the probe rows have no match.
    NullOfSchema(Vec<NullColumn>),
}

/// A block to be made.
pub struct JoinBlock {
    /// The probe rows to be taken from the input, if the probe columns are part of the result: a
    /// run `(row, count)` is `count` times the input row `row`.
    pub probe_indexes: Vec<(u32, u32)>,
    /// The build rows that go with them, one each, or none where the probe rows have no match.
    pub build_indexes: Option<Vec<RowPtr>>,
    /// The probe columns, if they are part of the result.
    pub probe: Option<ProbeColumns>,
    /// The build columns, if they are part of the result.
    pub build: Option<BuildColumns>,
    pub num_rows: usize,
}

/// The probe columns of a block, with the validity as bits.
pub enum ProbeView {
    Taken,
    Nullable(Seq<bool>),
}

/// The build columns of a block, with the validity as bits.
pub enum BuildView {
    Nullable(Seq<bool>),
    NullOfGathered,
    NullOfSchema(Seq<NullColumn>),
}

/// A block as a mathematical value.
pub struct BlockView {
    pub probe_indexes: Seq<(u32, u32)>,
    pub build_indexes: Option<Seq<RowPtr>>,
    pub probe: Option<ProbeView>,
    pub build: Option<BuildView>,
    pub num_rows: nat,
}

impl View for ProbeColumns {
    type V = ProbeView;

    open spec fn view(&self) -> ProbeView {
        match self {
            ProbeColumns::Taken => ProbeView::Taken,
            ProbeColumns::Nullable(validity) => ProbeView::Nullable(bitmap_bits(*validity)),
        }
    }
}

impl View for BuildColumns {
    type V = BuildView;

    open spec fn view(&self) -> BuildView {
        match self {
            BuildColumns::Nullable(validity) => BuildView::Nullable(bitmap_bits(*validity)),
            BuildColumns::NullOfGathered => BuildView::NullOfGathered,
            BuildColumns::NullOfSchema(columns) => BuildView::NullOfSchema(columns@),
        }
    }
}

impl View for JoinBlock {
    type V = BlockView;

    open spec fn view(&self) -> BlockView {
        BlockView {
            probe_indexes: self.probe_indexes@,
            build_indexes: match self.build_indexes {
                Some(ptrs) => Some(ptrs@),
                None => None,
            },
            probe: match self.probe {
                Some(columns) => Some(columns@),
                None => None,
            },
            build: match self.build {
                Some(columns) => Some(columns@),
                None => None,
            },
            num_rows: self.num_rows as nat,
        }
    }
}

/// The columns of a block without build rows: for each field of `schema`, in order, a null of its
/// type as it stands.
pub open spec fn schema_nulls(schema: Seq<DataType>) -> Seq<NullColumn> {
    schema.map_values(|data_type: DataType| NullColumn::Of(data_type))
}

/// What stands in place of gathered columns without rows: for each of their types, in order, a null
/// of that type made nullable.
pub open spec fn gathered_nulls(types: Seq<DataType>) -> Seq<NullColumn> {
    types.map_values(|data_type: DataType| NullColumn::OfNullable(data_type))
}

/// The probe rows to be taken from the input for a block of the rows `runs`: none where the probe
/// columns are not part of the result.
pub open spec fn taken_rows(runs: Seq<(u32, u32)>, is_probe_projected: bool) -> Seq<(u32, u32)> {
    if is_probe_projected {
        runs
    } else {
        Seq::empty()
    }
}

/// The validity for a block of `rows` matched rows.
pub open spec fn block_validity(setup: Setup, rows: nat) -> Seq<bool> {
    if rows == setup.max_block_size {
        setup.true_validity
    } else {
        all_set(rows)
    }
}

/// The block that joins the probe rows of `runs` with the build rows at `ptrs`. A full join makes
/// the probe columns nullable, and every join the build columns.
pub open spec fn matched_block(
    setup: Setup,
    runs: Seq<(u32, u32)>,
    ptrs: Seq<RowPtr>,
) -> BlockView {
    BlockView {
        probe_indexes: taken_rows(runs, setup.is_probe_projected),
        build_indexes: Some(ptrs),
        probe: if !setup.is_probe_projected {
            None
        } else if setup.join_type == JoinType::Full {
            Some(ProbeView::Nullable(block_validity(setup, ptrs.len())))
        } else {
            Some(ProbeView::Taken)
        },
        build: if !setup.is_build_projected {
            None
        } else if setup.build_num_rows == 0 {
            Some(BuildView::NullOfGathered)
        } else {
            Some(BuildView::Nullable(block_validity(setup, ptrs.len())))
        },
        num_rows: ptrs.len(),
    }
}

/// The block of `occupied` rows that shows the first of the probe rows `indexes` with nulls on the
/// build side.
pub open spec fn null_block(
    join_type: JoinType,
    build_schema: Seq<DataType>,
    indexes: Seq<(u32, u32)>,
    occupied: nat,
    is_probe_projected: bool,
    is_build_projected: bool,
) -> BlockView {
    BlockView {
        probe_indexes: taken_rows(indexes.take(occupied as int), is_probe_projected),
        build_indexes: None,
        probe: if !is_probe_projected {
            None
        } else if join_type == JoinType::Full {
            Some(ProbeView::Nullable(all_set(occupied)))
        } else {
            Some(ProbeView::Taken)
        },
        build: if is_build_projected {
            Some(BuildView::NullOfSchema(schema_nulls(build_schema)))
        } else {
            None
        },
        num_rows: occupied,
    }
}

/// The columns that stand in place of gathered columns of the types `types`, which have no rows.
pub fn nulls_of_gathered(types: &Vec<DataType>) -> (columns: Vec<NullColumn>)
    ensures
        columns@ == gathered_nulls(types@),
        columns@.len() == types@.len(),
        forall|i: int|
            0 <= i < types@.len() ==> (#[trigger] columns@[i]) == NullColumn::OfNullable(types@[i]),
{
    let mut columns: Vec<NullColumn> = Vec::new();
    for i in 0..types.len()
        invariant
            columns@ =~= gathered_nulls(types@.take(i as int)),
    {
        columns.push(NullColumn::OfNullable(types[i]));
    }
    assert(types@.take(types@.len() as int) =~= types@);
    columns
}

impl JoinHashTable {
    /// The block that joins the probe rows of `probe_indexes` with the build rows at
    /// `build_indexes`.
    pub(crate) fn create_matched_block(
        &self,
        probe_state: &ProbeState,
        probe_indexes: Vec<(u32, u32)>,
        build_indexes: Vec<RowPtr>,
        build_num_rows: usize,
        Ghost(input_num_rows): Ghost<usize>,
        is_probe_projected: bool,
    ) -> (block: JoinBlock)
        requires
            build_num_rows == crate::join::row_total(self.chunk_rows@),
            build_indexes@.len() <= usize::MAX - 7,
        ensures
            block@ == matched_block(
                setup_of(*self, *probe_state, input_num_rows, is_probe_projected),
                probe_indexes@,
                build_indexes@,
            ),
            block.num_rows == build_indexes@.len(),
            block.build_indexes == Some(build_indexes),
            block.probe_indexes@.len() == if is_probe_projected {
                probe_indexes@.len()
            } else {
                0
            },
            block.probe is None <==> !is_probe_projected,
            block.probe == Some(ProbeColumns::Taken) <==> is_probe_projected
                && !(self.hash_join_desc.join_type is Full),
            block.build is None <==> !self.is_build_projected,
            block.build == Some(BuildColumns::NullOfGathered) <==> self.is_build_projected
                && build_num_rows == 0,
            block.build matches Some(columns) ==> !(columns is NullOfSchema),
    {
        let num_rows: usize = build_indexes.len();
        let probe = if is_probe_projected {
            if self.hash_join_desc.join_type == JoinType::Full {
                Some(ProbeColumns::Nullable(Self::matched_validity(probe_state, num_rows)))
            } else {
                Some(ProbeColumns::Taken)
            }
        } else {
            None
        };
        let build = if self.is_build_projected {
            if build_num_rows == 0 {
                Some(BuildColumns::NullOfGathered)
            } else {
                Some(BuildColumns::Nullable(Self::matched_validity(probe_state, num_rows)))
            }
        } else {
            None
        };
        let probe_indexes = if is_probe_projected {
            probe_indexes
        } else {
            Vec::new()
        };
        JoinBlock { probe_indexes, build_indexes: Some(build_indexes), probe, build, num_rows }
    }

    /// The validity for a block of `num_rows` matched rows: the one at hand for a complete block,
    /// else a new one.
    fn matched_validity(probe_state: &ProbeState, num_rows: usize) -> (validity: Bitmap)
        requires
            num_rows <= usize::MAX - 7,
        ensures
            bitmap_bits(validity) == if num_rows == probe_state.max_block_size {
                bitmap_bits(probe_state.true_validity)
            } else {
                all_set(num_rows as nat)
            },
    {
        if num_rows == probe_state.max_block_size {
            share(&probe_state.true_validity)
        } else {
            all_valid(num_rows)
        }
    }

    /// For each field of the build schema, in order, a column of nulls of its type.
    fn nulls_of_schema(&self) -> (columns: Vec<NullColumn>)
        ensures
            columns@ == schema_nulls(self.build_schema@),
    {
        let mut columns: Vec<NullColumn> = Vec::new();
        for i in 0..self.build_schema.len()
            invariant
                columns@ =~= schema_nulls(self.build_schema@.take(i as int)),
        {
            columns.push(NullColumn::Of(self.build_schema[i]));
        }
        assert(self.build_schema@.take(self.build_schema@.len() as int) =~= self.build_schema@);
        columns
    }

    /// The block of `occupied` rows that shows the first of the probe rows `indexes` with nulls on
    /// the build side. Where the probe columns are not part of the result, `indexes` is not read.
    pub fn create_left_join_null_block(
        &self,
        indexes: &Vec<(u32, u32)>,
        occupied: usize,
        is_probe_projected: bool,
        is_build_projected: bool,
    ) -> (block: JoinBlock)
        requires
            is_probe_projected ==> occupied <= indexes@.len(),
            is_probe_projected && self.hash_join_desc.join_type == JoinType::Full ==> occupied
                <= usize::MAX - 7,
        ensures
            block@ == null_block(
                self.hash_join_desc.join_type,
                self.build_schema@,
                indexes@,
                occupied as nat,
                is_probe_projected,
                is_build_projected,
            ),
            block.num_rows == occupied,
            block.build_indexes is None,
            block.probe is None <==> !is_probe_projected,
            block.probe == Some(ProbeColumns::Taken) <==> is_probe_projected
                && !(self.hash_join_desc.join_type is Full),
            block.build is None <==> !is_build_projected,
            block.build matches Some(columns) ==> columns is NullOfSchema,
    {
        let mut probe_indexes: Vec<(u32, u32)> = Vec::new();
        if is_probe_projected {
            for i in 0..occupied
                invariant
                    occupied <= indexes@.len(),
                    probe_indexes@ =~= indexes@.take(i as int),
            {
                probe_indexes.push(indexes[i]);
            }
        }
        let probe = if is_probe_projected {
            if self.hash_join_desc.join_type == JoinType::Full {
                Some(ProbeColumns::Nullable(all_valid(occupied)))
            } else {
                Some(ProbeColumns::Taken)
            }
        } else {
            None
        };
        let build = if is_build_projected {
            Some(BuildColumns::NullOfSchema(self.nulls_of_schema()))
        } else {
            None
        };
        JoinBlock { probe_indexes, build_indexes: None, probe, build, num_rows: occupied }
    }
}

/// A block of the result: what was to be made, which of its rows were kept, and what was made.
pub struct ResultBlock<B> {
    pub block: JoinBlock,
    /// The probe rows that it stands for.
    pub runs: Ghost<Seq<(u32, u32)>>,
    /// The rows that the other conditions of the join left, if not all.
    pub filter: Option<Bitmap>,
    pub data: B,
}

/// A block of the result as a mathematical value.
pub struct ResultView<B> {
    pub block: BlockView,
    /// The probe rows that the block stands for, whether they are taken from the input or not.
    pub runs: Seq<(u32, u32)>,
    pub filter: Option<Seq<bool>>,
    pub data: B,
}

impl<B> View for ResultBlock<B> {
    type V = ResultView<B>;

    open spec fn view(&self) -> ResultView<B> {
        ResultView {
            block: self.block@,
            runs: self.runs@,
            filter: match self.filter {
                Some(filter) => Some(bitmap_bits(filter)),
                None => None,
            },
            data: self.data,
        }
    }
}

impl<B> ResultView<B> {
    /// The joined pairs that the block shows.
    pub open spec fn pairs(self) -> Seq<(int, RowPtr)> {
        match self.filter {
            Some(bits) => select(block_pairs(Some(self.block), self.runs), bits),
            None => block_pairs(Some(self.block), self.runs),
        }
    }

    /// The probe rows that the block shows without a match.
    pub open spec fn null_rows(self) -> Seq<int> {
        block_null_rows(Some(self.block), self.runs)
    }

    /// Whether the block shows joined pairs.
    pub open spec fn is_joined(self) -> bool {
        self.block.build_indexes is Some
    }

    /// Whether the block is made of the rows that it stands for: it takes the probe rows, where the
    /// probe columns are part of the result, and has a row for each of them, and for each build
    /// row.
    pub open spec fn fits_rows(self, is_probe_projected: bool) -> bool {
        block_fits_rows(self.block, self.runs, is_probe_projected)
    }
}

/// A list of result blocks as mathematical values.
pub open spec fn result_views<B>(results: Seq<ResultBlock<B>>) -> Seq<ResultView<B>> {
    results.map_values(|result: ResultBlock<B>| result@)
}

/// The joined pairs that a list of result blocks shows, in order.
pub open spec fn shown_pairs<B>(results: Seq<ResultView<B>>) -> Seq<(int, RowPtr)>
    decreases results.len(),
{
    if results.len() == 0 {
        Seq::empty()
    } else {
        shown_pairs(results.drop_last()) + results.last().pairs()
    }
}

/// The probe rows that a list of result blocks shows without a match, in order.
pub open spec fn shown_null_rows<B>(results: Seq<ResultView<B>>) -> Seq<int>
    decreases results.len(),
{
    if results.len() == 0 {
        Seq::empty()
    } else {
        shown_null_rows(results.drop_last()) + results.last().null_rows()
    }
}

/// Whether a block is made of the probe rows `runs`, and of the build rows that go with them.
pub open spec fn block_fits_rows(
    block: BlockView,
    runs: Seq<(u32, u32)>,
    is_probe_projected: bool,
) -> bool {
    &&& block.probe_indexes == taken_rows(runs, is_probe_projected)
    &&& expand(runs).len() == block.num_rows
    &&& block.build_indexes matches Some(ptrs) ==> ptrs.len() == block.num_rows
}

/// Whether `bits` says of each of `rows` rows, and of no other, that it is valid.
pub open spec fn all_rows_valid(bits: Seq<bool>, rows: nat) -> bool {
    &&& bits.len() == rows
    &&& forall|i: int| 0 <= i < rows ==> #[trigger] bits[i]
}

/// Whether `columns` are a null of the type of each field of `schema`, as it stands, in order.
pub open spec fn are_nulls_of(columns: Seq<NullColumn>, schema: Seq<DataType>) -> bool {
    &&& columns.len() == schema.len()
    &&& forall|i: int|
        0 <= i < schema.len() ==> (#[trigger] columns[i]) == NullColumn::Of(schema[i])
}

/// Whether a block has the columns that the join is to show. Each side is there exactly when it is
/// part of the result. Joined rows show the values of their build rows, made nullable, unless there
/// are no build rows at all; rows without a match show a null for each field of the build side. The
/// probe columns are made nullable by a full join, and by no other.
pub open spec fn has_columns(setup: Setup, block: BlockView) -> bool {
    &&& block.probe is Some <==> setup.is_probe_projected
    &&& match block.probe {
        Some(ProbeView::Taken) => setup.join_type is Left || setup.join_type is LeftSingle,
        Some(ProbeView::Nullable(bits)) => {
            &&& setup.join_type is Full
            &&& if block.build_indexes is Some && block.num_rows == setup.max_block_size {
                bits == setup.true_validity
            } else {
                all_rows_valid(bits, block.num_rows)
            }
        },
        None => true,
    }
    &&& block.build is Some <==> setup.is_build_projected
    &&& match block.build {
        Some(BuildView::Nullable(bits)) => {
            &&& block.build_indexes is Some
            &&& setup.build_num_rows > 0
            &&& if block.num_rows == setup.max_block_size {
                bits == setup.true_validity
            } else {
                all_rows_valid(bits, block.num_rows)
            }
        },
        Some(BuildView::NullOfGathered) => {
            &&& block.build_indexes is Some
            &&& setup.build_num_rows == 0
        },
        Some(BuildView::NullOfSchema(columns)) => {
            &&& block.build_indexes is None
            &&& are_nulls_of(columns, setup.build_schema)
        },
        None => true,
    }
}

/// Whether every block of a result has the columns that the join is to show.
pub open spec fn all_have_columns<B>(setup: Setup, results: Seq<ResultView<B>>) -> bool {
    forall|k: int| 0 <= k < results.len() ==> has_columns(setup, (#[trigger] results[k]).block)
}

/// The pairs that a block shows, if there is one, where it stands for the probe rows `runs`.
pub open spec fn block_pairs(
    block: Option<BlockView>,
    runs: Seq<(u32, u32)>,
) -> Seq<(int, RowPtr)> {
    match block {
        Some(block) => match block.build_indexes {
            Some(ptrs) => pair_up(runs, ptrs),
            None => Seq::empty(),
        },
        None => Seq::empty(),
    }
}

/// The rows that a block shows without a match, if there is one, where it stands for the probe rows
/// `runs`.
pub open spec fn block_null_rows(block: Option<BlockView>, runs: Seq<(u32, u32)>) -> Seq<int> {
    match block {
        Some(block) => match block.build_indexes {
            Some(ptrs) => Seq::empty(),
            None => expand(runs),
        },
        None => Seq::empty(),
    }
}

/// Every validity that a block is given says of each of its rows, and of no other, that it is
/// valid, provided that the one at hand for a complete block does.
pub proof fn every_shown_row_is_valid(
    setup: Setup,
    runs: Seq<(u32, u32)>,
    ptrs: Seq<RowPtr>,
    indexes: Seq<(u32, u32)>,
    occupied: nat,
)
    requires
        setup.true_validity == all_set(setup.max_block_size),
    ensures
        ({
            let matched = matched_block(setup, runs, ptrs);
            &&& matched.probe matches Some(ProbeView::Nullable(bits)) ==> bits == all_set(
                matched.num_rows,
            )
            &&& matched.build matches Some(BuildView::Nullable(bits)) ==> bits == all_set(
                matched.num_rows,
            )
        }),
        ({
            let alone = null_block(
                setup.join_type,
                setup.build_schema,
                indexes,
                occupied,
                setup.is_probe_projected,
                setup.is_build_projected,
            );
            alone.probe matches Some(ProbeView::Nullable(bits)) ==> bits == all_set(alone.num_rows)
        }),
{
}

/// Two blocks of the same columns as one: the rows of the first, and behind them those of the
/// second.
pub open spec fn stacked(first: BlockView, second: BlockView) -> BlockView {
    BlockView {
        probe_indexes: first.probe_indexes + second.probe_indexes,
        build_indexes: match (first.build_indexes, second.build_indexes) {
            (Some(one), Some(other)) => Some(one + other),
            _ => None,
        },
        probe: match (first.probe, second.probe) {
            (Some(ProbeView::Nullable(one)), Some(ProbeView::Nullable(other))) => Some(
                ProbeView::Nullable(one + other),
            ),
            _ => first.probe,
        },
        build: match (first.build, second.build) {
            (Some(BuildView::Nullable(one)), Some(BuildView::Nullable(other))) => Some(
                BuildView::Nullable(one + other),
            ),
            _ => first.build,
        },
        num_rows: first.num_rows + second.num_rows,
    }
}

/// The block of a list of rows without a match is that of its first `first` rows followed by that
/// of the rest: the same columns, and the rows of the one behind those of the other.
pub proof fn null_block_in_parts(
    join_type: JoinType,
    build_schema: Seq<DataType>,
    indexes: Seq<(u32, u32)>,
    first: nat,
    occupied: nat,
    is_probe_projected: bool,
    is_build_projected: bool,
)
    requires
        first <= occupied,
        is_probe_projected ==> occupied <= indexes.len(),
    ensures
        ({
            let whole = null_block(
                join_type,
                build_schema,
                indexes,
                occupied,
                is_probe_projected,
                is_build_projected,
            );
            let one = null_block(
                join_type,
                build_schema,
                indexes,
                first,
                is_probe_projected,
                is_build_projected,
            );
            let other = null_block(
                join_type,
                build_schema,
                indexes.skip(first as int),
                (occupied - first) as nat,
                is_probe_projected,
                is_build_projected,
            );
            &&& whole == stacked(one, other)
            &&& whole.build == one.build
            &&& whole.build == other.build
            &&& expand(whole.probe_indexes) == expand(one.probe_indexes) + expand(
                other.probe_indexes,
            )
        }),
{
    let rest = (occupied - first) as nat;
    let one = taken_rows(indexes.take(first as int), is_probe_projected);
    let other = taken_rows(indexes.skip(first as int).take(rest as int), is_probe_projected);
    assert(taken_rows(indexes.take(occupied as int), is_probe_projected) =~= one + other);
    assert(all_set(occupied) =~= all_set(first) + all_set(rest));
    expand_append(one, other);
}

/// Where the probe columns are not part of the result, a block of rows without a match is the same
/// whatever the rows are.
pub proof fn null_block_without_probe_columns(
    join_type: JoinType,
    build_schema: Seq<DataType>,
    indexes: Seq<(u32, u32)>,
    others: Seq<(u32, u32)>,
    occupied: nat,
    is_build_projected: bool,
)
    ensures
        null_block(join_type, build_schema, indexes, occupied, false, is_build_projected)
            == null_block(join_type, build_schema, others, occupied, false, is_build_projected),
{
}

/// A block without build rows has a column for each field of the build schema, of that field's type
/// as it stands; and as many columns stand in place of gathered ones as were gathered, each of its
/// type made nullable.
pub proof fn null_columns_follow_their_types(schema: Seq<DataType>, field: int)
    requires
        0 <= field < schema.len(),
    ensures
        schema_nulls(schema).len() == schema.len(),
        schema_nulls(schema)[field] == NullColumn::Of(schema[field]),
        gathered_nulls(schema).len() == schema.len(),
        gathered_nulls(schema)[field] == NullColumn::OfNullable(schema[field]),
{
}

/// A block of matched rows, of whatever join, has the columns that the join is to show: where the
/// build columns are part of the result and there are build rows, it shows the values of the rows
/// at `ptrs`. Every row of it is valid, provided that the validity at hand for a complete block
/// says so of each row of one.
pub proof fn matched_rows_show_their_build_rows(
    setup: Setup,
    runs: Seq<(u32, u32)>,
    ptrs: Seq<RowPtr>,
)
    ensures
        ({
            let block = matched_block(setup, runs, ptrs);
            &&& has_columns(setup, block)
            &&& block.build_indexes == Some(ptrs)
            &&& block.num_rows == ptrs.len()
            &&& setup.is_probe_projected ==> block.probe_indexes == runs
            &&& !setup.is_probe_projected ==> block.probe_indexes.len() == 0
            &&& block.build is None <==> !setup.is_build_projected
            &&& block.build == Some(BuildView::NullOfGathered) <==> setup.is_build_projected
                && setup.build_num_rows == 0
            &&& all_rows_valid(setup.true_validity, setup.max_block_size) ==> {
                &&& setup.is_build_projected && setup.build_num_rows > 0 ==> exists|
                    bits: Seq<bool>,
                |
                    block.build == Some(BuildView::Nullable(bits)) && #[trigger] all_rows_valid(
                        bits,
                        ptrs.len(),
                    )
                &&& setup.is_probe_projected && setup.join_type is Full ==> exists|
                    bits: Seq<bool>,
                |
                    block.probe == Some(ProbeView::Nullable(bits)) && #[trigger] all_rows_valid(
                        bits,
                        ptrs.len(),
                    )
            }
        }),
{
    let bits = block_validity(setup, ptrs.len());
    if ptrs.len() != setup.max_block_size {
        assert(all_rows_valid(bits, ptrs.len()));
    }
}

/// A block of rows without a match, of whatever join, has the columns that the join is to show:
/// where the build columns are part of the result, a null of its type for each field of the build
/// side.
pub proof fn rows_without_a_match_show_nulls(
    setup: Setup,
    indexes: Seq<(u32, u32)>,
    occupied: nat,
)
    ensures
        ({
            let block = null_block(
                setup.join_type,
                setup.build_schema,
                indexes,
                occupied,
                setup.is_probe_projected,
                setup.is_build_projected,
            );
            &&& has_columns(setup, block)
            &&& block.build_indexes is None
            &&& block.num_rows == occupied
            &&& setup.is_probe_projected ==> block.probe_indexes == indexes.take(occupied as int)
            &&& !setup.is_probe_projected ==> block.probe_indexes.len() == 0
            &&& setup.is_build_projected ==> exists|columns: Seq<NullColumn>|
                block.build == Some(BuildView::NullOfSchema(columns)) && #[trigger] are_nulls_of(
                    columns,
                    setup.build_schema,
                )
            &&& !setup.is_build_projected ==> block.build is None
            &&& setup.is_probe_projected && setup.join_type is Full ==> exists|bits: Seq<bool>|
                block.probe == Some(ProbeView::Nullable(bits)) && #[trigger] all_rows_valid(
                    bits,
                    occupied,
                )
        }),
{
    assert(all_rows_valid(all_set(occupied), occupied));
    assert(are_nulls_of(schema_nulls(setup.build_schema), setup.build_schema));
}

/// Which columns of nulls stand for the build side, and which for gathered columns, follows from
/// their types alone: one each, in order.
pub proof fn columns_of_nulls_are_in_order(types: Seq<DataType>)
    ensures
        are_nulls_of(schema_nulls(types), types),
        gathered_nulls(types).len() == types.len(),
        forall|i: int|
            0 <= i < types.len() ==> (#[trigger] gathered_nulls(types)[i])
                == NullColumn::OfNullable(types[i]),
{
}

/// The view of a block is of what the block holds.
pub proof fn block_is_seen_as_it_is(block: JoinBlock)
    ensures
        block@.num_rows == block.num_rows,
        block@.probe_indexes == block.probe_indexes@,
        block@.build_indexes is Some <==> block.build_indexes is Some,
        block.build_indexes matches Some(ptrs) ==> block@.build_indexes == Some(ptrs@),
        match block.probe {
            Some(ProbeColumns::Taken) => block@.probe == Some(ProbeView::Taken),
            Some(ProbeColumns::Nullable(validity)) => block@.probe == Some(
                ProbeView::Nullable(bitmap_bits(validity)),
            ),
            None => block@.probe is None,
        },
        match block.build {
            Some(BuildColumns::Nullable(validity)) => block@.build == Some(
                BuildView::Nullable(bitmap_bits(validity)),
            ),
            Some(BuildColumns::NullOfGathered) => block@.build == Some(BuildView::NullOfGathered),
            Some(BuildColumns::NullOfSchema(columns)) => block@.build == Some(
                BuildView::NullOfSchema(columns@),
            ),
            None => block@.build is None,
        },
{
}

/// The view of a result is of what its blocks hold, one for one.
pub proof fn result_is_seen_as_it_is<B>(results: Seq<ResultBlock<B>>)
    ensures
        result_views(results).len() == results.len(),
        forall|k: int|
            0 <= k < results.len() ==> {
                let seen = #[trigger] result_views(results)[k];
                &&& seen.block == results[k].block@
                &&& seen.data == results[k].data
                &&& match results[k].filter {
                    Some(filter) => seen.filter == Some(bitmap_bits(filter)),
                    None => seen.filter is None,
                }
            },
{
}

} // verus!
