use arrow2::bitmap::Bitmap;
use hash_join_probe::bitmap::all_valid;
use hash_join_probe::bitmap::covers;
use hash_join_probe::block::nulls_of_gathered;
use hash_join_probe::block::BuildColumns;
use hash_join_probe::block::JoinBlock;
use hash_join_probe::block::NullColumn;
use hash_join_probe::block::ProbeColumns;
use hash_join_probe::join::DataType;
use hash_join_probe::join::ErrorCode;
use hash_join_probe::join::HashJoinDesc;
use hash_join_probe::join::JoinHashTable;
use hash_join_probe::join::JoinType;
use hash_join_probe::row_state::drop_all;
use hash_join_probe::row_state::drop_invalid;
use hash_join_probe::row_state::scan_zero_rows;
use hash_join_probe::scan_map::mark;
use hash_join_probe::scan_map::mark_all;
use hash_join_probe::scan_map::mark_selected;
use hash_join_probe::scan_map::RowPtr;

fn ptr(chunk_index: u32, row_index: u32) -> RowPtr {
    RowPtr { chunk_index, row_index }
}

fn bits(bitmap: &Bitmap) -> Vec<bool> {
    bitmap.iter().collect()
}

fn table(join_type: JoinType, is_build_projected: bool) -> JoinHashTable {
    JoinHashTable {
        hash_join_desc: HashJoinDesc { join_type, from_correlated_subquery: false },
        build_schema: vec![DataType { id: 11 }, DataType { id: 4 }, DataType { id: 11 }],
        chunk_rows: vec![2, 0, 3],
        is_build_projected,
    }
}

/// The columns of nulls on the build side of a block.
fn null_columns(block: &JoinBlock) -> Vec<NullColumn> {
    match &block.build {
        Some(BuildColumns::NullOfSchema(columns)) => columns.clone(),
        _ => panic!("other build columns"),
    }
}

fn schema_nulls() -> Vec<NullColumn> {
    [11, 4, 11].iter().map(|id| NullColumn::Of(DataType { id: *id })).collect()
}

#[test]
fn all_valid_has_as_many_set_bits() {
    for rows in [0, 1, 7, 8, 9, 64, 100] {
        assert_eq!(bits(&all_valid(rows)), vec![true; rows]);
    }
}

#[test]
fn covers_compares_with_the_number_of_bits() {
    let bitmap = Bitmap::from([true, false, true]);
    assert!(covers(&bitmap, 0));
    assert!(covers(&bitmap, 3));
    assert!(!covers(&bitmap, 4));
    assert!(covers(&Bitmap::new(), 0));
    assert!(!covers(&Bitmap::new(), 1));
}

#[test]
fn marks_set_flags_and_no_others() {
    let mut map = vec![vec![false, false], vec![], vec![true, false, false]];
    mark(&mut map, ptr(2, 1));
    assert_eq!(map, vec![vec![false, false], vec![], vec![true, true, false]]);
    mark_all(&mut map, &vec![ptr(0, 1), ptr(2, 1), ptr(0, 1)]);
    assert_eq!(map, vec![vec![false, true], vec![], vec![true, true, false]]);
    mark_all(&mut map, &vec![]);
    assert_eq!(map, vec![vec![false, true], vec![], vec![true, true, false]]);
}

#[test]
fn marks_in_turn_are_marks_in_one() {
    let first = vec![ptr(0, 0), ptr(1, 1)];
    let second = vec![ptr(1, 1), ptr(1, 0)];
    let mut in_turn = vec![vec![false, false], vec![false, false]];
    let mut in_one = in_turn.clone();
    mark_all(&mut in_turn, &first);
    mark_all(&mut in_turn, &second);
    mark_all(&mut in_one, &[first.clone(), second.clone()].concat());
    assert_eq!(in_turn, in_one);
    let mut the_other_way = vec![vec![false, false], vec![false, false]];
    mark_all(&mut the_other_way, &second);
    mark_all(&mut the_other_way, &first);
    assert_eq!(the_other_way, in_one);
    assert_eq!(in_one, vec![vec![true, false], vec![true, true]]);
}

#[test]
fn selected_marks_go_by_the_bits() {
    let mut map = vec![vec![false; 3]];
    let validity = Bitmap::from([true, false, true, true]);
    // The second row has no flag, and is not selected.
    mark_selected(&mut map, &vec![ptr(0, 2), ptr(9, 9), ptr(0, 0)], &validity);
    assert_eq!(map, vec![vec![true, false, true]]);
}

#[test]
fn dropped_pairs_are_taken_off_the_counts() {
    let mut counts = vec![3, 0, 2];
    drop_invalid(&mut counts, &vec![0, 0, 2, 0], &Bitmap::from([false, true, false, false]));
    assert_eq!(counts, vec![1, 0, 1]);
    let mut counts = vec![3, 0, 2];
    drop_all(&mut counts, &vec![0, 2, 2]);
    assert_eq!(counts, vec![2, 0, 0]);
}

#[test]
fn scan_stops_at_the_limit_or_the_end() {
    let mut counts = vec![0, 4, 0, 0, 7, 0, 5];
    assert_eq!(scan_zero_rows(&mut counts, 0, 6, 2), (3, vec![(0, 1), (2, 1)]));
    assert_eq!(counts, vec![0, 0, 0, 0, 7, 0, 5]);
    assert_eq!(scan_zero_rows(&mut counts, 3, 6, 2), (6, vec![(3, 1), (5, 1)]));
    assert_eq!(counts, vec![0, 0, 0, 0, 0, 0, 5]);
    assert_eq!(scan_zero_rows(&mut counts, 6, 6, 2), (6, vec![]));
    assert_eq!(scan_zero_rows(&mut counts, 6, 7, 2), (7, vec![]));
    assert_eq!(counts, vec![0; 7]);
}

#[test]
fn build_rows_are_those_of_all_chunks() {
    assert_eq!(table(JoinType::Left, true).build_num_rows(), 5);
    let mut empty = table(JoinType::Left, true);
    empty.chunk_rows = vec![];
    assert_eq!(empty.build_num_rows(), 0);
}

#[test]
fn null_block_of_a_left_join() {
    let indexes = vec![(4, 1), (6, 1), (9, 1)];
    let block = table(JoinType::Left, true).create_left_join_null_block(&indexes, 2, true, true);
    assert_eq!(block.probe_indexes, vec![(4, 1), (6, 1)]);
    assert!(block.build_indexes.is_none());
    assert!(matches!(block.probe, Some(ProbeColumns::Taken)));
    assert_eq!(null_columns(&block), schema_nulls());
    assert_eq!(block.num_rows, 2);
}

#[test]
fn null_block_of_a_full_join_has_nullable_probe_columns() {
    let indexes = vec![(0, 1), (1, 1), (2, 1)];
    let block = table(JoinType::Full, true).create_left_join_null_block(&indexes, 3, true, true);
    match &block.probe {
        Some(ProbeColumns::Nullable(validity)) => assert_eq!(bits(validity), vec![true; 3]),
        _ => panic!("not nullable"),
    }
    assert_eq!(null_columns(&block), schema_nulls());
}

#[test]
fn null_block_has_only_the_sides_asked_for() {
    let table = table(JoinType::Full, true);
    let block = table.create_left_join_null_block(&vec![(3, 1)], 1, false, true);
    assert!(block.probe.is_none());
    assert!(block.build.is_some());
    let block = table.create_left_join_null_block(&vec![(3, 1)], 1, true, false);
    assert!(block.probe.is_some());
    assert!(block.build.is_none());
    let block = table.create_left_join_null_block(&vec![], 0, false, false);
    assert!(block.probe.is_none());
    assert!(block.build.is_none());
    assert_eq!(block.num_rows, 0);
}

#[test]
fn errors_have_their_message() {
    assert_eq!(
        ErrorCode::<u8>::Internal.message(),
        Some("Scalar subquery can't return more than one row")
    );
    assert_eq!(
        ErrorCode::<u8>::AbortedQuery.message(),
        Some("Aborted query, because the server is shutting down or the query was killed.")
    );
    assert_eq!(ErrorCode::Block(3u8).message(), None);
}

#[test]
fn null_block_without_probe_columns_reads_no_index() {
    let table = table(JoinType::Full, true);
    for indexes in [vec![], vec![(7, 1)], vec![(1, 1), (2, 1), (3, 1), (4, 1)]] {
        let block = table.create_left_join_null_block(&indexes, 3, false, true);
        assert!(block.probe_indexes.is_empty());
        assert!(block.build_indexes.is_none());
        assert!(block.probe.is_none());
        assert_eq!(null_columns(&block), schema_nulls());
        assert_eq!(block.num_rows, 3);
    }
    let block = table.create_left_join_null_block(&vec![], usize::MAX, false, true);
    assert_eq!(block.num_rows, usize::MAX);
}

#[test]
fn null_block_of_an_empty_schema_has_no_columns() {
    let mut table = table(JoinType::Left, true);
    table.build_schema = vec![];
    let block = table.create_left_join_null_block(&vec![(3, 1)], 1, true, true);
    assert!(null_columns(&block).is_empty());
}

#[test]
fn null_block_is_that_of_its_parts() {
    let table = table(JoinType::Full, true);
    let indexes: Vec<(u32, u32)> = vec![(2, 1), (3, 1), (5, 1), (8, 1), (9, 1)];
    for one in 0..5 {
        let whole = table.create_left_join_null_block(&indexes, 4, true, true);
        let rest = indexes[one..].to_vec();
        let first_part = table.create_left_join_null_block(&indexes, one, true, true);
        let second_part = table.create_left_join_null_block(&rest, 4 - one, true, true);
        let parts = [first_part.probe_indexes.clone(), second_part.probe_indexes.clone()];
        assert_eq!(whole.probe_indexes, parts.concat());
        assert_eq!(whole.num_rows, first_part.num_rows + second_part.num_rows);
        assert_eq!(null_columns(&whole), null_columns(&first_part));
        assert_eq!(null_columns(&whole), null_columns(&second_part));
    }
}

#[test]
fn gathered_columns_become_nulls_of_their_nullable_types() {
    let types = vec![DataType { id: 3 }, DataType { id: 0 }, DataType { id: 3 }];
    assert_eq!(
        nulls_of_gathered(&types),
        vec![
            NullColumn::OfNullable(DataType { id: 3 }),
            NullColumn::OfNullable(DataType { id: 0 }),
            NullColumn::OfNullable(DataType { id: 3 }),
        ]
    );
    assert!(nulls_of_gathered(&vec![]).is_empty());
}
