use arrow2::bitmap::Bitmap;
use hash_join_probe::bitmap::all_valid;
use hash_join_probe::block::BuildColumns;
use hash_join_probe::block::JoinBlock;
use hash_join_probe::block::ProbeColumns;
use hash_join_probe::block::ResultBlock;
use hash_join_probe::join::Action;
use hash_join_probe::join::DataType;
use hash_join_probe::join::ErrorCode;
use hash_join_probe::join::HashJoinDesc;
use hash_join_probe::join::JoinHashTable;
use hash_join_probe::join::JoinType;
use hash_join_probe::join::ProbeState;
use hash_join_probe::left_join::LeftJoinProbe;
use hash_join_probe::scan_map::RowPtr;

/// A joined row: a probe row and its match, if it has one.
type Row = (u32, Option<RowPtr>);

fn ptr(chunk_index: u32, row_index: u32) -> RowPtr {
    RowPtr { chunk_index, row_index }
}

fn ptrs(n: u32) -> Vec<RowPtr> {
    (0..n).map(|i| ptr(0, i)).collect()
}

fn bits(bitmap: &Bitmap) -> Vec<bool> {
    bitmap.iter().collect()
}

fn table(join_type: JoinType) -> JoinHashTable {
    JoinHashTable {
        hash_join_desc: HashJoinDesc { join_type, from_correlated_subquery: false },
        build_schema: vec![DataType { id: 11 }, DataType { id: 4 }, DataType { id: 11 }],
        chunk_rows: vec![4, 6],
        is_build_projected: true,
    }
}

fn probe_state(max_block_size: usize) -> ProbeState {
    ProbeState { max_block_size, true_validity: all_valid(max_block_size) }
}

fn rows_of(block: &JoinBlock) -> Vec<Row> {
    let mut rows: Vec<u32> = vec![];
    for (row, count) in &block.probe_indexes {
        for _ in 0..*count {
            rows.push(*row);
        }
    }
    assert_eq!(rows.len(), block.num_rows);
    match &block.build_indexes {
        Some(found) => {
            assert_eq!(rows.len(), found.len());
            rows.into_iter().zip(found.iter().map(|p| Some(*p))).collect()
        }
        None => rows.into_iter().map(|row| (row, None)).collect(),
    }
}

/// Answers a search for the matches `all` from `from` on, with room for `room`.
fn search(all: &[RowPtr], from: usize, room: usize) -> (Vec<RowPtr>, u64) {
    let to = all.len().min(from + room);
    let rest = if to < all.len() { to as u64 } else { 0 };
    (all[from..to].to_vec(), rest)
}

/// Runs a probe of the rows whose matches are given. `interrupt_at` is the number of looks at the
/// flag after which it is set, `fail_at` that of blocks after which one fails.
fn run(
    mut probe: LeftJoinProbe<Vec<Row>, &'static str>,
    matches: &[Vec<RowPtr>],
    map: &mut Vec<Vec<bool>>,
    interrupt_at: usize,
    fail_at: usize,
) -> Result<Vec<ResultBlock<Vec<Row>>>, ErrorCode<&'static str>> {
    let mut looks = 0;
    let mut made = 0;
    loop {
        match probe.action() {
            Action::ProbeKey { row, occupied, capacity }
            | Action::ProbeHashTable { row, occupied, capacity } => {
                if row == matches.len() {
                    probe.keys_exhausted();
                } else {
                    let (matched, rest) = search(&matches[row], 0, capacity - occupied);
                    assert!(probe.fits(&matched));
                    probe.probed(matched, rest);
                }
            }
            Action::NextIncomplete { row, incomplete_ptr, occupied, capacity } => {
                let (matched, rest) =
                    search(&matches[row], incomplete_ptr as usize, capacity - occupied);
                assert!(probe.fits(&matched));
                probe.continued(matched, rest);
            }
            Action::LoadInterrupt => {
                probe.interrupt_loaded(looks == interrupt_at);
                looks += 1;
            }
            Action::BuildBlock => {
                if made == fail_at {
                    probe.block_failed("no memory");
                } else {
                    let rows = rows_of(probe.block().unwrap());
                    let num_rows = rows.len();
                    probe.block_built(map, rows, num_rows);
                }
                made += 1;
            }
            Action::Finish => return probe.into_result(),
            Action::OtherFilters | Action::FilterBlock => unreachable!(),
        }
    }
}

const NEVER: usize = usize::MAX;

fn join(
    join_type: JoinType,
    max_block_size: usize,
    matches: &[Vec<RowPtr>],
) -> Vec<ResultBlock<Vec<Row>>> {
    let table = table(join_type);
    let state = probe_state(max_block_size);
    let mut map = vec![vec![false; 4], vec![false; 6]];
    run(table.probe_left_join(&state, matches.len(), true), matches, &mut map, NEVER, NEVER)
        .unwrap()
}

/// The matched rows and the rows without a match of a result.
fn split(blocks: &[ResultBlock<Vec<Row>>]) -> (Vec<Row>, Vec<Row>) {
    let rows: Vec<Row> = blocks.iter().flat_map(|b| b.data.iter().cloned()).collect();
    rows.into_iter().partition(|row| row.1.is_some())
}

fn expected(matches: &[Vec<RowPtr>]) -> (Vec<Row>, Vec<Row>) {
    let mut pairs = vec![];
    let mut alone = vec![];
    for (i, found) in matches.iter().enumerate() {
        for p in found {
            pairs.push((i as u32, Some(*p)));
        }
        if found.is_empty() {
            alone.push((i as u32, None));
        }
    }
    (pairs, alone)
}

#[test]
fn result_is_the_left_join_for_many_shapes() {
    for shape in 0..256u32 {
        // Four rows of 0, 1, 2 or 3 matches.
        let matches: Vec<Vec<RowPtr>> = (0..4).map(|i| ptrs((shape >> (2 * i)) & 3)).collect();
        for max_block_size in 1..6 {
            let blocks = join(JoinType::Left, max_block_size, &matches);
            assert_eq!(split(&blocks), expected(&matches));
            for b in &blocks {
                assert!(b.block.num_rows > 0);
                assert!(b.block.num_rows <= max_block_size);
                assert!(b.filter.is_none());
                assert_eq!(b.data, rows_of(&b.block));
            }
        }
    }
}

#[test]
fn blocks_are_cut_at_the_block_size() {
    let matches = vec![ptrs(1), ptrs(0), ptrs(3), ptrs(0), ptrs(1)];
    let blocks = join(JoinType::Left, 2, &matches);
    let data: Vec<Vec<Row>> = blocks.into_iter().map(|b| b.data).collect();
    assert_eq!(
        data,
        vec![
            vec![(0, Some(ptr(0, 0))), (2, Some(ptr(0, 0)))],
            vec![(2, Some(ptr(0, 1))), (2, Some(ptr(0, 2)))],
            vec![(1, None), (3, None)],
            vec![(4, Some(ptr(0, 0)))],
        ]
    );
}

#[test]
fn a_key_with_many_matches_is_one_run_per_block() {
    let blocks = join(JoinType::Left, 3, &[ptrs(0), ptrs(4)]);
    let runs: Vec<Vec<(u32, u32)>> =
        blocks.into_iter().map(|b| b.block.probe_indexes).collect();
    assert_eq!(runs, vec![vec![(1, 3)], vec![(1, 1)], vec![(0, 1)]]);
}

#[test]
fn no_rows_give_no_blocks() {
    assert!(join(JoinType::Left, 4, &[]).is_empty());
    assert!(join(JoinType::Full, 4, &[]).is_empty());
}

#[test]
fn probes_say_what_to_look_up() {
    let mut table = table(JoinType::Left);
    let state = probe_state(8);
    let mut probe: LeftJoinProbe<(), ()> = table.probe_left_join(&state, 3, true);
    assert_eq!(probe.action(), Action::ProbeKey { row: 0, occupied: 0, capacity: 8 });
    assert!(probe.block().is_none());
    probe.probed(ptrs(2), 0);
    assert_eq!(probe.action(), Action::ProbeKey { row: 1, occupied: 2, capacity: 8 });
    assert!(probe.fits(&ptrs(6)));
    assert!(!probe.fits(&ptrs(7)));
    probe.probed(ptrs(6), 77);
    assert_eq!(probe.action(), Action::LoadInterrupt);
    assert!(!probe.fits(&ptrs(0)));
    probe.interrupt_loaded(false);
    assert_eq!(probe.action(), Action::BuildBlock);
    probe.block_built(&mut vec![], (), 8);
    assert_eq!(
        probe.action(),
        Action::NextIncomplete { row: 1, incomplete_ptr: 77, occupied: 0, capacity: 8 }
    );
    // Nothing more is found: on to the next key.
    probe.continued(vec![], 0);
    assert_eq!(probe.action(), Action::ProbeKey { row: 2, occupied: 0, capacity: 8 });

    table.hash_join_desc.from_correlated_subquery = true;
    let probe: LeftJoinProbe<(), ()> = table.probe_left_join(&state, 3, true);
    assert_eq!(probe.action(), Action::ProbeHashTable { row: 0, occupied: 0, capacity: 8 });
}

#[test]
fn an_empty_block_is_no_part_of_the_result() {
    let table = table(JoinType::Full);
    let state = probe_state(4);
    let mut probe: LeftJoinProbe<&str, ()> = table.probe_left_join(&state, 1, true);
    probe.probed(vec![], 0);
    // The last row has the block of matched rows made, though there are none.
    assert_eq!(probe.action(), Action::LoadInterrupt);
    probe.interrupt_loaded(false);
    assert_eq!(probe.block().unwrap().num_rows, 0);
    probe.block_built(&mut vec![], "empty", 0);
    probe.keys_exhausted();
    assert_eq!(probe.block().unwrap().num_rows, 1);
    probe.block_built(&mut vec![], "alone", 1);
    let blocks = probe.into_result().unwrap();
    assert_eq!(blocks.len(), 1);
    assert_eq!(blocks[0].data, "alone");
}

#[test]
fn a_scalar_subquery_may_have_one_match() {
    let table = table(JoinType::LeftSingle);
    let mut map = vec![];
    for max_block_size in 1..5 {
        let state = probe_state(max_block_size);
        let matches = vec![ptrs(1), ptrs(0), ptrs(1), ptrs(1)];
        let probe = table.probe_left_join(&state, 4, true);
        let blocks = run(probe, &matches, &mut map, NEVER, NEVER).unwrap();
        assert_eq!(split(&blocks), expected(&matches));
    }
}

#[test]
fn a_scalar_subquery_fails_at_the_second_match() {
    let table = table(JoinType::LeftSingle);
    for max_block_size in 1..5 {
        let state = probe_state(max_block_size);
        for at in 0..3 {
            let mut matches = vec![ptrs(1), ptrs(1), ptrs(0)];
            matches[at] = ptrs(2);
            let probe = table.probe_left_join(&state, 3, true);
            let error = run(probe, &matches, &mut vec![], NEVER, NEVER).err().unwrap();
            assert!(matches!(error, ErrorCode::Internal));
        }
    }
    // The other joins take any number of matches.
    assert_eq!(join(JoinType::Left, 4, &[ptrs(2)]).len(), 1);
    assert_eq!(join(JoinType::Full, 4, &[ptrs(2)]).len(), 1);
}

#[test]
fn an_interruption_aborts_the_query() {
    let table = table(JoinType::Left);
    let state = probe_state(2);
    let matches = vec![ptrs(3), ptrs(0), ptrs(0), ptrs(1)];
    // Two blocks of matched rows and one full block of rows without a match are each preceded by a
    // look at the flag.
    for at in 0..3 {
        let probe = table.probe_left_join(&state, 4, true);
        let error = run(probe, &matches, &mut vec![], at, NEVER).err().unwrap();
        assert!(matches!(error, ErrorCode::AbortedQuery));
    }
    let probe = table.probe_left_join(&state, 4, true);
    assert!(run(probe, &matches, &mut vec![], 3, NEVER).is_ok());
}

#[test]
fn the_last_null_block_is_made_without_a_look_at_the_flag() {
    let table = table(JoinType::Left);
    let state = probe_state(4);
    let mut probe: LeftJoinProbe<u8, ()> = table.probe_left_join(&state, 1, true);
    probe.probed(vec![], 0);
    probe.interrupt_loaded(false);
    probe.block_built(&mut vec![], 1, 0);
    probe.keys_exhausted();
    assert_eq!(probe.action(), Action::BuildBlock);
}

#[test]
fn a_failure_of_a_block_is_handed_on() {
    let table = table(JoinType::Left);
    let state = probe_state(2);
    let matches = vec![ptrs(3), ptrs(0), ptrs(0), ptrs(1), ptrs(0)];
    let mut failures = 0;
    for at in 0..9 {
        let probe = table.probe_left_join(&state, 5, true);
        match run(probe, &matches, &mut vec![], NEVER, at) {
            Err(ErrorCode::Block(error)) => {
                assert_eq!(error, "no memory");
                failures += 1;
            }
            Err(_) => panic!("another error"),
            Ok(_) => {}
        }
    }
    // Two blocks of matched rows, an empty one at the last row, and two of rows without a match.
    assert_eq!(failures, 5);
}

#[test]
fn a_full_join_flags_the_rows_it_shows() {
    let table = table(JoinType::Full);
    let state = probe_state(2);
    let matches = vec![vec![ptr(1, 5), ptr(0, 1), ptr(1, 0)], vec![], vec![ptr(0, 1)]];
    let mut map = vec![vec![false; 4], vec![false; 6]];
    let probe = table.probe_left_join(&state, 3, true);
    let blocks = run(probe, &matches, &mut map, NEVER, NEVER).unwrap();
    assert_eq!(split(&blocks), expected(&matches));
    assert_eq!(
        map,
        vec![vec![false, true, false, false], vec![true, false, false, false, false, true]]
    );
}

#[test]
fn no_other_join_flags_rows() {
    for join_type in [JoinType::Left, JoinType::LeftSingle] {
        let table = table(join_type);
        let state = probe_state(2);
        let mut map = vec![vec![false; 4]];
        let probe = table.probe_left_join(&state, 2, true);
        run(probe, &[ptrs(1), ptrs(1)], &mut map, NEVER, NEVER).unwrap();
        assert_eq!(map, vec![vec![false; 4]]);
    }
}

#[test]
fn flags_are_set_only_for_what_was_made() {
    let table = table(JoinType::Full);
    let state = probe_state(1);
    let mut map = vec![vec![false; 4]];
    let probe = table.probe_left_join(&state, 1, true);
    assert!(run(probe, &[ptrs(3)], &mut map, NEVER, 2).is_err());
    assert_eq!(map, vec![vec![true, true, false, false]]);
}

#[test]
fn columns_of_a_full_join_are_nullable() {
    for b in join(JoinType::Full, 2, &[ptrs(2), ptrs(0), ptrs(1)]) {
        match &b.block.probe {
            Some(ProbeColumns::Nullable(validity)) => {
                assert_eq!(bits(validity), vec![true; b.block.num_rows])
            }
            _ => panic!("not nullable"),
        }
        match (&b.block.build_indexes, &b.block.build) {
            (Some(_), Some(BuildColumns::Nullable(validity))) => {
                assert_eq!(bits(validity), vec![true; b.block.num_rows])
            }
            (None, Some(BuildColumns::NullOfSchema(columns))) => assert_eq!(columns.len(), 3),
            _ => panic!("other build columns"),
        }
    }
}

#[test]
fn probe_columns_of_a_left_join_are_taken() {
    for b in join(JoinType::Left, 2, &[ptrs(2), ptrs(0), ptrs(1)]) {
        assert!(matches!(b.block.probe, Some(ProbeColumns::Taken)));
    }
}

#[test]
fn a_complete_block_shares_the_validity_at_hand() {
    let table = table(JoinType::Full);
    // Not what a query would use: it shows which validity was taken.
    let state =
        ProbeState { max_block_size: 2, true_validity: Bitmap::from([false, true]) };
    let mut probe: LeftJoinProbe<(), ()> = table.probe_left_join(&state, 2, true);
    probe.probed(ptrs(2), 0);
    probe.interrupt_loaded(false);
    match (&probe.block().unwrap().probe, &probe.block().unwrap().build) {
        (Some(ProbeColumns::Nullable(p)), Some(BuildColumns::Nullable(b))) => {
            assert_eq!(bits(p), vec![false, true]);
            assert_eq!(bits(b), vec![false, true]);
        }
        _ => panic!("not nullable"),
    }
    probe.block_built(&mut vec![vec![false; 2]], (), 2);
    probe.probed(ptrs(1), 0);
    probe.interrupt_loaded(false);
    match &probe.block().unwrap().build {
        Some(BuildColumns::Nullable(b)) => assert_eq!(bits(b), vec![true]),
        _ => panic!("not nullable"),
    }
}

#[test]
fn an_empty_build_side_gives_nulls() {
    let mut table = table(JoinType::Left);
    table.chunk_rows = vec![0, 0];
    let state = probe_state(4);
    let mut probe: LeftJoinProbe<(), ()> = table.probe_left_join(&state, 1, true);
    probe.probed(vec![], 0);
    probe.interrupt_loaded(false);
    assert!(matches!(probe.block().unwrap().build, Some(BuildColumns::NullOfGathered)));
}

#[test]
fn only_projected_sides_are_made() {
    let mut table = table(JoinType::Full);
    table.is_build_projected = false;
    let state = probe_state(2);
    let mut probe: LeftJoinProbe<(), ()> = table.probe_left_join(&state, 2, false);
    probe.probed(ptrs(2), 0);
    probe.interrupt_loaded(false);
    let block = probe.block().unwrap();
    assert!(block.probe.is_none());
    assert!(block.build.is_none());
    assert_eq!(block.num_rows, 2);
    assert!(block.probe_indexes.is_empty());
    assert_eq!(block.build_indexes, Some(ptrs(2)));
    probe.block_built(&mut vec![vec![false; 2]], (), 2);
    probe.probed(vec![], 0);
    probe.interrupt_loaded(false);
    probe.block_built(&mut vec![], (), 0);
    probe.keys_exhausted();
    assert!(probe.block().unwrap().probe.is_none());
    assert!(probe.block().unwrap().build.is_none());
    assert!(probe.block().unwrap().probe_indexes.is_empty());
    assert_eq!(probe.block().unwrap().num_rows, 1);
}

/// The sizes of the blocks of joined pairs, and of the others.
fn sizes(blocks: &[ResultBlock<Vec<Row>>]) -> (Vec<usize>, Vec<usize>) {
    let (joined, alone): (Vec<&JoinBlock>, Vec<&JoinBlock>) =
        blocks.iter().map(|b| &b.block).partition(|b| b.build_indexes.is_some());
    (
        joined.iter().map(|b| b.num_rows).collect(),
        alone.iter().map(|b| b.num_rows).collect(),
    )
}

fn cut(rows: usize, size: usize) -> Vec<usize> {
    let mut sizes = vec![size; rows / size];
    if rows % size > 0 {
        sizes.push(rows % size);
    }
    sizes
}

#[test]
fn every_block_but_the_last_of_its_kind_is_full() {
    for shape in 0..256u32 {
        let matches: Vec<Vec<RowPtr>> = (0..4).map(|i| ptrs((shape >> (2 * i)) & 3)).collect();
        let (pairs, alone) = expected(&matches);
        for size in 1..6 {
            let blocks = join(JoinType::Left, size, &matches);
            assert_eq!(sizes(&blocks), (cut(pairs.len(), size), cut(alone.len(), size)));
        }
    }
}

#[test]
fn the_block_size_does_not_matter() {
    let matches = vec![ptrs(3), ptrs(0), vec![ptr(1, 5)], ptrs(0), ptrs(2)];
    let table = table(JoinType::Full);
    for size in 1..9 {
        let state = probe_state(size);
        let mut map = vec![vec![false; 4], vec![false; 6]];
        let probe = table.probe_left_join(&state, 5, true);
        let blocks = run(probe, &matches, &mut map, NEVER, NEVER).unwrap();
        assert_eq!(split(&blocks), expected(&matches));
        assert_eq!(map[0], vec![true, true, true, false]);
        assert_eq!(map[1], vec![false, false, false, false, false, true]);
    }
}
