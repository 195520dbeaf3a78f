use arrow2::bitmap::Bitmap;
use hash_join_probe::bitmap::all_valid;
use hash_join_probe::bitmap::covers;
use hash_join_probe::block::BuildColumns;
use hash_join_probe::block::JoinBlock;
use hash_join_probe::block::ResultBlock;
use hash_join_probe::join::Action;
use hash_join_probe::join::DataType;
use hash_join_probe::join::ErrorCode;
use hash_join_probe::join::HashJoinDesc;
use hash_join_probe::join::JoinHashTable;
use hash_join_probe::join::JoinType;
use hash_join_probe::join::ProbeState;
use hash_join_probe::left_join_conjunct::ConjunctProbe;
use hash_join_probe::scan_map::RowPtr;

/// A joined row: a probe row and its match, if it has one.
type Row = (u32, Option<RowPtr>);

type Outcome = (Result<Vec<ResultBlock<Vec<Row>>>, ErrorCode<&'static str>>, Vec<usize>);

const NEVER: usize = usize::MAX;

fn ptr(chunk_index: u32, row_index: u32) -> RowPtr {
    RowPtr { chunk_index, row_index }
}

fn ptrs(n: u32) -> Vec<RowPtr> {
    (0..n).map(|i| ptr(0, i)).collect()
}

fn table(join_type: JoinType) -> JoinHashTable {
    JoinHashTable {
        hash_join_desc: HashJoinDesc { join_type, from_correlated_subquery: false },
        build_schema: vec![DataType { id: 11 }, DataType { id: 4 }, DataType { id: 11 }],
        chunk_rows: vec![4, 6],
        is_build_projected: true,
    }
}

fn probe_state(max_block_size: usize) -> ProbeState {
    ProbeState { max_block_size, true_validity: all_valid(max_block_size) }
}

fn rows_of(block: &JoinBlock) -> Vec<Row> {
    let mut rows: Vec<u32> = vec![];
    for (row, count) in &block.probe_indexes {
        for _ in 0..*count {
            rows.push(*row);
        }
    }
    assert_eq!(rows.len(), block.num_rows);
    match &block.build_indexes {
        Some(found) => {
            assert_eq!(rows.len(), found.len());
            rows.into_iter().zip(found.iter().map(|p| Some(*p))).collect()
        }
        None => rows.into_iter().map(|row| (row, None)).collect(),
    }
}

/// Answers a search for the matches `all` from `from` on, with room for `room`.
fn search(all: &[RowPtr], from: usize, room: usize) -> (Vec<RowPtr>, u64) {
    let to = all.len().min(from + room);
    let rest = if to < all.len() { to as u64 } else { 0 };
    (all[from..to].to_vec(), rest)
}

/// Runs a probe of the rows whose matches are given, of which those stay that `stays` accepts.
/// `interrupt_at` is the number of looks at the flag after which it is set, `fail_at` that of
/// operations on blocks after which one fails.
fn run(
    mut probe: ConjunctProbe<Vec<Row>, &'static str>,
    matches: &[Vec<RowPtr>],
    map: &mut Vec<Vec<bool>>,
    stays: &dyn Fn(Row) -> bool,
    interrupt_at: usize,
    fail_at: usize,
) -> Outcome {
    let mut looks = 0;
    let mut operations = 0;
    let mut in_hand: Option<Vec<Row>> = None;
    loop {
        let action = probe.action();
        if action == Action::BuildBlock
            || action == Action::OtherFilters
            || action == Action::FilterBlock
        {
            operations += 1;
            if operations == fail_at {
                probe.block_failed("no memory");
                continue;
            }
        }
        match action {
            Action::ProbeKey { row, occupied, capacity }
            | Action::ProbeHashTable { row, occupied, capacity } => {
                if row == matches.len() {
                    probe.keys_exhausted();
                } else {
                    let (matched, rest) = search(&matches[row], 0, capacity - occupied);
                    assert!(probe.fits(&matched));
                    probe.probed(matched, rest);
                }
            }
            Action::NextIncomplete { row, incomplete_ptr, occupied, capacity } => {
                let (matched, rest) =
                    search(&matches[row], incomplete_ptr as usize, capacity - occupied);
                assert!(probe.fits(&matched));
                probe.continued(matched, rest);
            }
            Action::LoadInterrupt => {
                probe.interrupt_loaded(looks == interrupt_at);
                looks += 1;
            }
            Action::BuildBlock => {
                let rows = rows_of(probe.block().unwrap());
                let num_rows = rows.len();
                in_hand = probe.block_built(rows, num_rows);
            }
            Action::OtherFilters => {
                let rows = in_hand.take().unwrap();
                let kept: Vec<bool> = rows.iter().map(|row| stays(*row)).collect();
                let all_true = kept.iter().all(|k| *k);
                let all_false = !kept.iter().any(|k| *k);
                let validity =
                    if all_true || all_false { None } else { Some(Bitmap::from(kept)) };
                in_hand = probe.filters_evaluated(map, rows, validity, all_true, all_false);
            }
            Action::FilterBlock => {
                let rows = in_hand.take().unwrap();
                let filter = probe.filter().unwrap();
                assert!(covers(filter, rows.len()));
                let left: Vec<Row> =
                    rows.iter().zip(filter.iter()).filter(|x| x.1).map(|x| *x.0).collect();
                probe.block_filtered(left);
            }
            Action::Finish => return probe.into_result(),
        }
    }
}

fn join(
    join_type: JoinType,
    max_block_size: usize,
    matches: &[Vec<RowPtr>],
    stays: &dyn Fn(Row) -> bool,
) -> (Vec<ResultBlock<Vec<Row>>>, Vec<usize>, Vec<Vec<bool>>) {
    let table = table(join_type);
    let state = probe_state(max_block_size);
    let mut map = vec![vec![false; 4], vec![false; 6]];
    let probe = table.probe_left_join_with_conjunct(&state, vec![], matches.len(), true);
    let (result, counts) = run(probe, matches, &mut map, stays, NEVER, NEVER);
    (result.unwrap(), counts, map)
}

/// The matched rows and the rows without a match of a result.
fn split(blocks: &[ResultBlock<Vec<Row>>]) -> (Vec<Row>, Vec<Row>) {
    let rows: Vec<Row> = blocks.iter().flat_map(|b| b.data.iter().cloned()).collect();
    rows.into_iter().partition(|row| row.1.is_some())
}

fn expected(matches: &[Vec<RowPtr>], stays: &dyn Fn(Row) -> bool) -> (Vec<Row>, Vec<Row>) {
    let mut pairs = vec![];
    let mut alone = vec![];
    for (i, found) in matches.iter().enumerate() {
        let kept: Vec<Row> =
            found.iter().map(|p| (i as u32, Some(*p))).filter(|row| stays(*row)).collect();
        if kept.is_empty() {
            alone.push((i as u32, None));
        }
        pairs.extend(kept);
    }
    (pairs, alone)
}

fn even_build_row(row: Row) -> bool {
    row.1.unwrap().row_index % 2 == 0
}

fn odd_build_row(row: Row) -> bool {
    !even_build_row(row)
}

fn any(_: Row) -> bool {
    true
}

fn none(_: Row) -> bool {
    false
}

#[test]
fn result_is_the_filtered_left_join_for_many_shapes() {
    let conditions: [&dyn Fn(Row) -> bool; 4] = [&even_build_row, &odd_build_row, &any, &none];
    for shape in 0..256u32 {
        // Four rows of 0, 1, 2 or 3 matches.
        let matches: Vec<Vec<RowPtr>> = (0..4).map(|i| ptrs((shape >> (2 * i)) & 3)).collect();
        for max_block_size in 1..6 {
            for stays in conditions {
                let (blocks, counts, _) = join(JoinType::Left, max_block_size, &matches, stays);
                assert_eq!(split(&blocks), expected(&matches, stays));
                assert_eq!(counts, vec![0; 4]);
                for b in &blocks {
                    assert!(b.block.num_rows > 0);
                    assert!(b.block.num_rows <= max_block_size);
                }
            }
        }
    }
}

#[test]
fn rows_without_a_match_come_last_in_blocks_of_the_block_size() {
    let matches = vec![ptrs(0), ptrs(2), ptrs(0), ptrs(1), ptrs(0), ptrs(0)];
    let (blocks, _, _) = join(JoinType::Left, 2, &matches, &odd_build_row);
    let data: Vec<Vec<Row>> = blocks.into_iter().map(|b| b.data).collect();
    assert_eq!(
        data,
        vec![
            vec![(1, Some(ptr(0, 1)))],
            vec![(0, None), (2, None)],
            vec![(3, None), (4, None)],
            vec![(5, None)],
        ]
    );
}

#[test]
fn a_block_keeps_the_filter_it_was_put_through() {
    let (blocks, _, _) = join(JoinType::Left, 4, &[ptrs(3)], &even_build_row);
    assert_eq!(blocks.len(), 1);
    let filter: Vec<bool> = blocks[0].filter.as_ref().unwrap().iter().collect();
    assert_eq!(filter, vec![true, false, true]);
    assert_eq!(blocks[0].data, vec![(0, Some(ptr(0, 0))), (0, Some(ptr(0, 2)))]);
    let (blocks, _, _) = join(JoinType::Left, 4, &[ptrs(3)], &any);
    assert!(blocks[0].filter.is_none());
}

#[test]
fn conditions_that_hold_leave_the_left_join() {
    let matches = vec![ptrs(1), ptrs(0), ptrs(3), ptrs(0), ptrs(1)];
    let (blocks, _, _) = join(JoinType::Left, 2, &matches, &any);
    let (pairs, alone) = split(&blocks);
    assert_eq!(pairs.len(), 5);
    assert_eq!(alone, vec![(1, None), (3, None)]);
}

#[test]
fn conditions_that_fail_leave_every_row_alone() {
    let (blocks, counts, map) = join(JoinType::Full, 2, &[ptrs(3), ptrs(1)], &none);
    assert_eq!(split(&blocks), (vec![], vec![(0, None), (1, None)]));
    assert_eq!(counts, vec![0, 0]);
    assert_eq!(map, vec![vec![false; 4], vec![false; 6]]);
}

#[test]
fn a_full_join_flags_the_rows_that_stay() {
    let matches = vec![vec![ptr(1, 5), ptr(0, 2), ptr(1, 0)], vec![ptr(0, 1)], vec![ptr(0, 2)]];
    for max_block_size in 1..7 {
        let (_, _, map) = join(JoinType::Full, max_block_size, &matches, &even_build_row);
        assert_eq!(map[0], vec![false, false, true, false]);
        assert_eq!(map[1], vec![true, false, false, false, false, false]);
        let (_, _, map) = join(JoinType::Full, max_block_size, &matches, &any);
        assert_eq!(map[0], vec![false, true, true, false]);
        assert_eq!(map[1], vec![true, false, false, false, false, true]);
        let (_, _, map) = join(JoinType::Left, max_block_size, &matches, &any);
        assert_eq!(map, vec![vec![false; 4], vec![false; 6]]);
    }
}

#[test]
fn counts_are_renewed_only_where_they_do_not_reach() {
    let table = table(JoinType::Left);
    let state = probe_state(4);
    for given in [vec![], vec![0; 2], vec![0; 3], vec![0; 5]] {
        let len = if given.len() < 3 { 3 } else { given.len() };
        let matches = vec![ptrs(1), ptrs(0), ptrs(2)];
        let probe = table.probe_left_join_with_conjunct(&state, given, 3, true);
        let (result, counts) = run(probe, &matches, &mut vec![], &any, NEVER, NEVER);
        assert_eq!(split(&result.unwrap()), expected(&matches, &any));
        assert_eq!(counts, vec![0; len]);
    }
}

#[test]
fn counts_serve_one_probe_after_another() {
    let table = table(JoinType::Left);
    let state = probe_state(2);
    let mut counts = vec![];
    for matches in [vec![ptrs(3), ptrs(0)], vec![ptrs(0), ptrs(1)], vec![ptrs(2)]] {
        let probe = table.probe_left_join_with_conjunct(&state, counts, matches.len(), true);
        let (result, left) = run(probe, &matches, &mut vec![], &even_build_row, NEVER, NEVER);
        assert_eq!(split(&result.unwrap()), expected(&matches, &even_build_row));
        counts = left;
        assert_eq!(counts, vec![0, 0]);
    }
}

#[test]
fn a_count_that_is_not_zero_hides_a_row() {
    let table = table(JoinType::Left);
    let state = probe_state(2);
    let probe = table.probe_left_join_with_conjunct(&state, vec![0, 5], 2, true);
    let matches = vec![ptrs(0), ptrs(0)];
    let (result, counts) = run(probe, &matches, &mut vec![], &any, NEVER, NEVER);
    assert_eq!(split(&result.unwrap()), (vec![], vec![(0, None)]));
    assert_eq!(counts, vec![0, 0]);
}

#[test]
fn a_scalar_subquery_fails_at_the_second_match_whatever_stays() {
    let table = table(JoinType::LeftSingle);
    for max_block_size in 1..5 {
        let state = probe_state(max_block_size);
        let matches = vec![ptrs(1), ptrs(2)];
        let probe = table.probe_left_join_with_conjunct(&state, vec![], 2, true);
        let (result, _) = run(probe, &matches, &mut vec![], &none, NEVER, NEVER);
        assert!(matches!(result, Err(ErrorCode::Internal)));
        let matches = vec![ptrs(1), ptrs(0), ptrs(1)];
        let probe = table.probe_left_join_with_conjunct(&state, vec![], 3, true);
        let (result, _) = run(probe, &matches, &mut vec![], &any, NEVER, NEVER);
        assert_eq!(split(&result.unwrap()), expected(&matches, &any));
    }
}

#[test]
fn an_interruption_aborts_the_query_with_conditions() {
    let table = table(JoinType::Left);
    let state = probe_state(2);
    let matches = vec![ptrs(3), ptrs(0), ptrs(0), ptrs(1)];
    for at in 0..2 {
        let probe = table.probe_left_join_with_conjunct(&state, vec![], 4, true);
        let (result, _) = run(probe, &matches, &mut vec![], &any, at, NEVER);
        assert!(matches!(result, Err(ErrorCode::AbortedQuery)));
    }
    // Rows without a match are not preceded by a look at the flag.
    let probe = table.probe_left_join_with_conjunct(&state, vec![], 4, true);
    let (result, _) = run(probe, &matches, &mut vec![], &any, 2, NEVER);
    assert!(result.is_ok());
}

#[test]
fn a_failure_on_a_block_is_handed_on() {
    let table = table(JoinType::Full);
    let state = probe_state(2);
    let matches = vec![ptrs(2), ptrs(0), ptrs(0), ptrs(0)];
    let mut failures = 0;
    for at in 1..12 {
        let mut map = vec![vec![false; 4]];
        let probe = table.probe_left_join_with_conjunct(&state, vec![], 4, true);
        let (result, counts) = run(probe, &matches, &mut map, &even_build_row, NEVER, at);
        match result {
            Err(ErrorCode::Block(error)) => {
                assert_eq!(error, "no memory");
                failures += 1;
                // The block is made and evaluated; then flags and counts are as if it was kept.
                if at == 1 || at == 2 {
                    assert_eq!(counts, vec![2, 0, 0, 0]);
                    assert_eq!(map, vec![vec![false; 4]]);
                } else if at == 3 {
                    assert_eq!(counts, vec![1, 0, 0, 0]);
                    assert_eq!(map, vec![vec![true, false, false, false]]);
                }
            }
            Err(_) => panic!("another error"),
            Ok(_) => {}
        }
    }
    // Making, evaluating and filtering the first block; an empty block at the last row; two blocks
    // of rows without a match.
    assert_eq!(failures, 6);
}

#[test]
fn probes_with_conditions_say_what_they_need() {
    let mut table = table(JoinType::Full);
    table.hash_join_desc.from_correlated_subquery = true;
    let state = probe_state(2);
    let mut probe: ConjunctProbe<&str, ()> =
        table.probe_left_join_with_conjunct(&state, vec![], 2, true);
    assert_eq!(probe.action(), Action::ProbeHashTable { row: 0, occupied: 0, capacity: 2 });
    assert!(!probe.fits(&ptrs(3)));
    assert!(probe.fits(&ptrs(2)));
    probe.probed(ptrs(2), 9);
    assert_eq!(probe.action(), Action::LoadInterrupt);
    assert!(!probe.fits(&ptrs(0)));
    probe.interrupt_loaded(false);
    assert_eq!(probe.action(), Action::BuildBlock);
    assert!(matches!(probe.block().unwrap().build, Some(BuildColumns::Nullable(_))));
    assert_eq!(probe.block_built("made", 2), Some("made"));
    assert_eq!(probe.action(), Action::OtherFilters);
    let mut map = vec![vec![false; 2]];
    let validity = Some(Bitmap::from([false, true]));
    assert_eq!(probe.filters_evaluated(&mut map, "made", validity, false, false), Some("made"));
    assert_eq!(map, vec![vec![false, true]]);
    assert_eq!(probe.action(), Action::FilterBlock);
    assert_eq!(probe.filter().unwrap().iter().collect::<Vec<bool>>(), vec![false, true]);
    probe.block_filtered("filtered");
    assert!(probe.filter().is_none());
    assert_eq!(
        probe.action(),
        Action::NextIncomplete { row: 0, incomplete_ptr: 9, occupied: 0, capacity: 2 }
    );
    probe.continued(ptrs(1), 0);
    assert_eq!(probe.action(), Action::ProbeHashTable { row: 1, occupied: 1, capacity: 2 });
    probe.probed(vec![], 0);
    probe.interrupt_loaded(false);
    assert_eq!(probe.block().unwrap().probe_indexes, vec![(0, 1)]);
    assert_eq!(probe.block_built("more", 1), Some("more"));
    // That all rows stay is what counts first.
    assert_eq!(probe.filters_evaluated(&mut map, "more", None, true, true), None);
    assert_eq!(map, vec![vec![true, true]]);
    probe.keys_exhausted();
    assert_eq!(probe.action(), Action::BuildBlock);
    assert_eq!(probe.block().unwrap().probe_indexes, vec![(1, 1)]);
    assert_eq!(probe.block_built("alone", 1), None);
    assert_eq!(probe.action(), Action::Finish);
    let (result, counts) = probe.into_result();
    let data: Vec<&str> = result.unwrap().into_iter().map(|b| b.data).collect();
    assert_eq!(data, vec!["filtered", "more", "alone"]);
    assert_eq!(counts, vec![0, 0]);
}

#[test]
fn conditions_that_hold_give_as_many_blocks_as_none() {
    for shape in 0..256u32 {
        let matches: Vec<Vec<RowPtr>> = (0..4).map(|i| ptrs((shape >> (2 * i)) & 3)).collect();
        let (pairs, alone) = expected(&matches, &any);
        for size in 1..6 {
            let (blocks, _, _) = join(JoinType::Left, size, &matches, &any);
            let joined = (pairs.len() + size - 1) / size;
            let others = (alone.len() + size - 1) / size;
            assert_eq!(blocks.len(), joined + others);
            for (k, b) in blocks.iter().enumerate() {
                assert_eq!(b.block.build_indexes.is_some(), k < joined);
                if k + 1 != joined && k + 1 != joined + others {
                    assert_eq!(b.block.num_rows, size);
                }
            }
        }
    }
}

#[test]
fn a_probe_can_be_repeated_with_the_counts_it_left() {
    let table = table(JoinType::Full);
    let state = probe_state(2);
    let matches = vec![ptrs(3), ptrs(0), ptrs(1)];
    // The last two counts are of no row of the input, and stay as they are.
    let mut counts = vec![0, 0, 0, 7, 1];
    let mut seen: Option<Vec<Vec<Row>>> = None;
    let mut map = vec![vec![false; 4]];
    for _ in 0..3 {
        let probe = table.probe_left_join_with_conjunct(&state, counts, 3, true);
        let (result, left) = run(probe, &matches, &mut map, &even_build_row, NEVER, NEVER);
        let data: Vec<Vec<Row>> = result.unwrap().into_iter().map(|b| b.data).collect();
        assert_eq!(left, vec![0, 0, 0, 7, 1]);
        assert_eq!(map, vec![vec![true, false, true, false]]);
        if let Some(seen) = &seen {
            assert_eq!(&data, seen);
        }
        seen = Some(data);
        counts = left;
    }
    assert_eq!(
        seen.unwrap(),
        vec![
            vec![(0, Some(ptr(0, 0)))],
            vec![(0, Some(ptr(0, 2))), (2, Some(ptr(0, 0)))],
            vec![(1, None)],
        ]
    );
}

#[test]
fn the_block_size_does_not_matter_with_conditions() {
    let matches = vec![ptrs(3), ptrs(0), vec![ptr(1, 5)], ptrs(1)];
    for size in 1..8 {
        let (blocks, _, map) = join(JoinType::Full, size, &matches, &even_build_row);
        assert_eq!(split(&blocks), expected(&matches, &even_build_row));
        assert_eq!(map[0], vec![true, false, true, false]);
        assert_eq!(map[1], vec![false; 6]);
    }
}
