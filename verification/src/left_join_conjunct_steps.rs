//! What a probe of a left join with other conditions asks for, and what becomes of the answer.
//!
//! Each law is of any run, and of what may be told next. Rows are numbered by the keys that were
//! told before.
use crate::block::has_columns;
use crate::block::ResultView;
use crate::event::last_ptr;
use crate::event::matches_told;
use crate::event::within_row;
use crate::event::Event;
use crate::event::Phase;
use crate::join::Action;
use crate::join::ErrorCode;
use crate::join::Setup;
use crate::left_join_conjunct::ConjunctView;
use crate::left_join_conjunct_laws::after_keys;
use crate::left_join_conjunct_laws::counts_used;
use crate::left_join_conjunct_laws::error_tells_its_cause;
use crate::left_join_conjunct_laws::every_block_has_its_columns;
use crate::left_join_conjunct_laws::is_run;
use crate::left_join_conjunct_laws::run_goes_on;
use crate::left_join_conjunct_laws::state;
use crate::left_join_conjunct_laws::verdicts_told;
use crate::left_join_steps::asks_for_key;
use crate::row_state::includes;
use crate::row_state::pairs_of;
use crate::row_state::pairs_of_more;
use crate::row_state::rows_lose_their_dropped_pairs;
use crate::row_state::scan_passes_no_row_by;
use crate::row_state::scan_rows;
use crate::row_state::single_runs;
use crate::row_state::without_dropped;
use crate::rows::selected_have_their_bit_set;
use crate::scan_map::RowPtr;
use vstd::prelude::*;

verus! {

/// What a probe knows of where it stands.
spec fn knows_its_place<B, E>(
    setup: Setup,
    first: Seq<usize>,
    at: ConjunctView<B, E>,
    events: Seq<Event<B, E>>,
) -> bool {
    &&& at.phase != Phase::NullInterrupt
    &&& !after_keys(at.phase) && at.phase != Phase::Failed ==> {
        &&& matches_told(events).len() == at.row + if within_row(at.phase) {
            1nat
        } else {
            0nat
        }
        &&& at.scan_row == 0
    }
    &&& at.incomplete_ptr == last_ptr(events)
    &&& at.build_indexes.len() <= setup.max_block_size
    &&& at.phase == Phase::Incomplete ==> at.build_indexes.len() == 0 && at.incomplete_ptr != 0
    &&& at.phase == Phase::Block || at.phase == Phase::Filters || at.phase == Phase::Filtered
        ==> at.block.unwrap().build_indexes is Some && at.build_indexes.len() == 0
    &&& at.block is Some <==> at.has_block()
    &&& at.filter is Some <==> at.phase == Phase::Filtered
    &&& after_keys(at.phase) && at.block is Some ==> at.block.unwrap().build_indexes is None
    &&& at.scan_row <= setup.input_num_rows <= at.row_state.len()
    &&& at.row_state.len() == first.len()
    &&& at.phase == Phase::LastNullBlock || at.phase == Phase::Finished ==> at.scan_row
        == setup.input_num_rows
}

/// What a scan finds.
proof fn scan_is_of_zero_counts<B, E>(setup: Setup, at: ConjunctView<B, E>)
    requires
        at.scan_row <= setup.input_num_rows <= at.row_state.len(),
    ensures
        finds_zero_counts(setup, at, at.scan(setup)),
{
    let limit = if setup.max_block_size == 0 {
        1
    } else {
        setup.max_block_size as int
    };
    let from = at.scan_row as int;
    let to = setup.input_num_rows as int;
    let rows = scan_rows(at.row_state, from, to, limit);
    scan_passes_no_row_by(at.row_state, from, to, limit);
    assert(single_runs(rows).take(rows.len() as int) =~= single_runs(rows));
    if rows.len() > 0 {
        assert(is_next_of_zero_counts(setup, at, at.scan(setup), rows));
    } else {
        assert forall|row: int| from <= row < to implies (#[trigger] at.row_state[row]) != 0 by {
            assert(!rows.contains(row));
        }
    }
}

/// Whether `rows` are the rows of the input from where `at` stands up to where `next` does whose
/// count in `at` is zero, in order; as many as a block has rows, or all.
pub open spec fn is_next_of_zero_counts<B, E>(
    setup: Setup,
    at: ConjunctView<B, E>,
    next: ConjunctView<B, E>,
    rows: Seq<int>,
) -> bool {
    let limit = if setup.max_block_size == 0 {
        1
    } else {
        setup.max_block_size
    };
    &&& at.scan_row <= next.scan_row <= setup.input_num_rows
    &&& forall|k: int|
        0 <= k < rows.len() ==> at.scan_row <= #[trigger] rows[k] < next.scan_row
            && at.row_state[rows[k]] == 0
    &&& forall|j: int, k: int| 0 <= j < k < rows.len() ==> #[trigger] rows[j] < #[trigger] rows[k]
    &&& forall|row: int|
        at.scan_row <= row < next.scan_row && #[trigger] at.row_state[row] == 0 ==> rows.contains(
            row,
        )
    &&& rows.len() <= limit
    &&& rows.len() < limit ==> next.scan_row == setup.input_num_rows
    &&& rows.len() == limit ==> next.scan_row == rows.last() + 1
    &&& next.block_runs.len() == rows.len()
    &&& forall|k: int|
        0 <= k < rows.len() ==> (#[trigger] next.block_runs[k]) == (rows[k] as u32, 1u32)
}

/// Whether `next` has gone on from `at` to the next rows of the input whose count is zero: they are
/// to be made a block, or, where there are none, the probe is done. The counts of the rows gone by
/// are zero, and the others as they were.
pub open spec fn finds_zero_counts<B, E>(
    setup: Setup,
    at: ConjunctView<B, E>,
    next: ConjunctView<B, E>,
) -> bool {
    &&& next.results == at.results
    &&& next.error == at.error
    &&& next.row_state.len() == at.row_state.len()
    &&& forall|row: int|
        0 <= row < at.row_state.len() ==> #[trigger] next.row_state[row] == if at.scan_row <= row
            < next.scan_row {
            0
        } else {
            at.row_state[row]
        }
    &&& next.action(setup) is BuildBlock || next.action(setup) is Finish
    &&& next.action(setup) is BuildBlock ==> {
        let block = next.block.unwrap();
        &&& exists|rows: Seq<int>|
            rows.len() > 0 && #[trigger] is_next_of_zero_counts(setup, at, next, rows)
        &&& next.block is Some
        &&& block.build_indexes is None
        &&& block.num_rows == next.block_runs.len()
        &&& block.probe_indexes == if setup.is_probe_projected {
            next.block_runs
        } else {
            Seq::empty()
        }
    }
    &&& next.action(setup) is Finish ==> {
        &&& next.phase is Finished
        &&& forall|row: int|
            at.scan_row <= row < setup.input_num_rows ==> (#[trigger] at.row_state[row]) != 0
        &&& next.scan_row == setup.input_num_rows
    }
}

#[verifier::rlimit(30)]
proof fn run_knows_its_place<B, E>(
    setup: Setup,
    row_state: Seq<usize>,
    events: Seq<Event<B, E>>,
)
    requires
        is_run(setup, row_state, events),
    ensures
        knows_its_place(
            setup,
            counts_used(setup, row_state),
            state(setup, row_state, events),
            events,
        ),
    decreases events.len(),
{
    if events.len() > 0 {
        let past = events.drop_last();
        let before = state(setup, row_state, past);
        run_knows_its_place(setup, row_state, past);
        match events.last() {
            Event::KeysExhausted => scan_is_of_zero_counts(setup, before),
            Event::BlockBuilt { data, .. } => {
                if before.phase == Phase::NullBlock {
                    let made = ConjunctView {
                        block: None,
                        block_runs: Seq::empty(),
                        ..before.keep_block(data)
                    };
                    scan_is_of_zero_counts(setup, made);
                    scan_passes_no_row_by(
                        made.row_state,
                        made.scan_row as int,
                        setup.input_num_rows as int,
                        if setup.max_block_size == 0 {
                            1
                        } else {
                            setup.max_block_size as int
                        },
                    );
                }
            },
            _ => {},
        }
        if events.last() is KeysExhausted {
            scan_passes_no_row_by(
                before.row_state,
                before.scan_row as int,
                setup.input_num_rows as int,
                if setup.max_block_size == 0 {
                    1
                } else {
                    setup.max_block_size as int
                },
            );
        }
    }
}

/// What a probe knows of the pairs that wait to be put to the other conditions.
spec fn counts_its_pairs<B, E>(at: ConjunctView<B, E>) -> bool {
    &&& !after_keys(at.phase) && at.phase != Phase::Failed && at.phase != Phase::Filtered
        ==> includes(at.row_state, at.row_state_indexes)
    &&& at.phase == Phase::Key || at.phase == Phase::Interrupt || at.phase == Phase::Incomplete
        ==> at.row_state_indexes.len() == at.build_indexes.len()
    &&& at.phase == Phase::Block || at.phase == Phase::Filters ==> at.row_state_indexes.len()
        == at.block.unwrap().build_indexes.unwrap().len()
}

proof fn run_counts_its_pairs<B, E>(
    setup: Setup,
    row_state: Seq<usize>,
    events: Seq<Event<B, E>>,
)
    requires
        is_run(setup, row_state, events),
        matches_told(events).len() <= usize::MAX,
    ensures
        counts_its_pairs(state(setup, row_state, events)),
    decreases events.len(),
{
    if events.len() > 0 {
        let past = events.drop_last();
        let before = state(setup, row_state, past);
        let at = state(setup, row_state, events);
        run_counts_its_pairs(setup, row_state, past);
        run_knows_its_place(setup, row_state, past);
        match events.last() {
            Event::Probed { matched, .. } => {
                if at.phase != Phase::Failed && matched.len() > 0 {
                    more_pairs_are_counted(before, at, matched);
                }
            },
            Event::Continued { matched, .. } => {
                if at.phase != Phase::Failed && matched.len() > 0 {
                    more_pairs_are_counted(before, at, matched);
                }
            },
            _ => {},
        }
        if at.row_state_indexes.len() == 0 {
            assert forall|row: int| 0 <= row < at.row_state.len() implies pairs_of(
                at.row_state_indexes,
                row,
            ) <= #[trigger] at.row_state[row] by {}
        }
    }
}

proof fn more_pairs_are_counted<B, E>(
    before: ConjunctView<B, E>,
    at: ConjunctView<B, E>,
    matched: Seq<RowPtr>,
)
    requires
        includes(before.row_state, before.row_state_indexes),
        before.row < before.row_state.len(),
        before.row <= usize::MAX,
        before.row_state[before.row as int] + matched.len() <= usize::MAX,
        at.row_state == before.row_state.update(
            before.row as int,
            (before.row_state[before.row as int] + matched.len()) as usize,
        ),
        at.row_state_indexes == before.row_state_indexes + Seq::new(
            matched.len(),
            |k: int| before.row as int as usize,
        ),
    ensures
        includes(at.row_state, at.row_state_indexes),
{
    let row = before.row as usize;
    assert(at.row_state_indexes =~= before.row_state_indexes + Seq::new(
        matched.len(),
        |k: int| row,
    ));
    assert forall|r: int| 0 <= r < at.row_state.len() implies pairs_of(at.row_state_indexes, r)
        <= #[trigger] at.row_state[r] by {
        pairs_of_more(before.row_state_indexes, row, matched.len(), r);
        assert(pairs_of(before.row_state_indexes, r) <= before.row_state[r]);
    }
}

/// A key is looked up subject to its validity, whatever the join, exactly when the join is not from
/// a correlated subquery. The row is that of the next key, the matches take the places behind those
/// that wait, and there are as many places as a block has rows.
pub proof fn keys_are_looked_up_in_turn<B, E>(
    setup: Setup,
    row_state: Seq<usize>,
    events: Seq<Event<B, E>>,
)
    requires
        is_run(setup, row_state, events),
        setup.max_block_size <= usize::MAX,
        matches_told(events).len() <= usize::MAX,
    ensures
        ({
            let at = state(setup, row_state, events);
            let action = at.action(setup);
            &&& action is ProbeKey <==> at.phase is Key && !setup.from_correlated_subquery
            &&& action is ProbeHashTable <==> at.phase is Key && setup.from_correlated_subquery
            &&& action matches Action::ProbeKey { row, occupied, capacity } ==> {
                &&& row == matches_told(events).len()
                &&& occupied == at.build_indexes.len()
                &&& capacity == setup.max_block_size
            }
            &&& action matches Action::ProbeHashTable { row, occupied, capacity } ==> {
                &&& row == matches_told(events).len()
                &&& occupied == at.build_indexes.len()
                &&& capacity == setup.max_block_size
            }
        }),
{
    run_knows_its_place(setup, row_state, events);
}

/// A search that stopped short goes on for the same key, from where it stopped, with all the places
/// of a block.
pub proof fn searches_go_on_where_they_stopped<B, E>(
    setup: Setup,
    row_state: Seq<usize>,
    events: Seq<Event<B, E>>,
)
    requires
        is_run(setup, row_state, events),
        setup.max_block_size <= usize::MAX,
        matches_told(events).len() <= usize::MAX,
    ensures
        ({
            let at = state(setup, row_state, events);
            at.action(setup) matches Action::NextIncomplete {
                row,
                incomplete_ptr,
                occupied,
                capacity,
            } ==> {
                &&& row == matches_told(events).len() - 1
                &&& incomplete_ptr == last_ptr(events)
                &&& incomplete_ptr != 0
                &&& occupied == 0
                &&& capacity == setup.max_block_size
            }
        }),
{
    run_knows_its_place(setup, row_state, events);
}

/// Whether there is a place for each of `matched`, and the count of the row `row` can take them. A
/// scalar subquery that is to be refused counts nothing.
pub open spec fn can_take<B, E>(
    setup: Setup,
    at: ConjunctView<B, E>,
    row: int,
    before: nat,
    matched: Seq<RowPtr>,
) -> bool {
    &&& at.build_indexes.len() + matched.len() <= setup.max_block_size
    &&& matched.len() > 0 && !(setup.join_type is LeftSingle && before + matched.len() > 1) ==> {
        &&& row < at.row_state.len()
        &&& at.row_state[row] + matched.len() <= usize::MAX
    }
}

/// A probe can be told the answer to what it asks for, and nothing else: matches as far as there
/// are places for them, or that there are no more keys, where it asks for a key; more matches where
/// it asks for more; a verdict on each row where it asks for the other conditions, unless all stay
/// or none does; and so on.
pub proof fn what_is_asked_for_can_be_told<B, E>(
    setup: Setup,
    row_state: Seq<usize>,
    events: Seq<Event<B, E>>,
    event: Event<B, E>,
)
    requires
        is_run(setup, row_state, events),
    ensures
        ({
            let at = state(setup, row_state, events);
            let told = matches_told(events);
            let action = at.action(setup);
            at.accepts(setup, event) <==> match event {
                Event::Probed { matched, .. } => asks_for_key(action) && setup.input_num_rows > 0
                    && can_take(setup, at, told.len() as int, 0, matched),
                Event::KeysExhausted => asks_for_key(action),
                Event::Continued { matched, .. } => action is NextIncomplete && can_take(
                    setup,
                    at,
                    told.len() - 1,
                    told.last().len(),
                    matched,
                ),
                Event::Interrupt { .. } => action is LoadInterrupt,
                Event::BlockBuilt { .. } => action is BuildBlock,
                Event::Filters { bits, all_true, all_false, .. } => {
                    &&& action is OtherFilters
                    &&& all_true || all_false || (bits is Some
                        && at.block.unwrap().build_indexes.unwrap().len() <= bits.unwrap().len())
                },
                Event::BlockFiltered { .. } => action is FilterBlock,
                Event::BlockFailed { .. } => action is BuildBlock || action is OtherFilters
                    || action is FilterBlock,
            }
        }),
        state(setup, row_state, events).action(setup) is Finish <==> state(
            setup,
            row_state,
            events,
        ).phase is Finished || state(setup, row_state, events).phase is Failed,
{
    run_knows_its_place(setup, row_state, events);
    run_knows_matches(setup, row_state, events);
}

/// What a probe knows of the matches of the row at hand.
proof fn run_knows_matches<B, E>(
    setup: Setup,
    row_state: Seq<usize>,
    events: Seq<Event<B, E>>,
)
    requires
        is_run(setup, row_state, events),
    ensures
        within_row(state(setup, row_state, events).phase) && !after_keys(
            state(setup, row_state, events).phase,
        ) ==> matches_told(events).len() > 0 && state(setup, row_state, events).row_matched == (
        matches_told(events).last().len() > 0),
    decreases events.len(),
{
    if events.len() > 0 {
        let past = events.drop_last();
        run_knows_matches(setup, row_state, past);
        run_knows_its_place(setup, row_state, past);
        run_knows_its_place(setup, row_state, events);
        let told = matches_told(past);
        match events.last() {
            Event::Continued { matched, .. } => {
                assert(matches_told(events).last() == told.last() + matched);
            },
            _ => {},
        }
    }
}

/// A probe begins with nothing but the counts it is given, or zeros where those do not reach, and
/// asks for the first key.
pub proof fn what_comes_first<B, E>(setup: Setup, row_state: Seq<usize>)
    ensures
        ({
            let at = state(setup, row_state, Seq::<Event<B, E>>::empty());
            &&& asks_for_key(at.action(setup))
            &&& at.results.len() == 0
            &&& at.build_indexes.len() == 0
            &&& at.probe_indexes.len() == 0
            &&& at.row_state_indexes.len() == 0
            &&& at.error is None
            &&& row_state.len() >= setup.input_num_rows ==> at.row_state == row_state
            &&& row_state.len() < setup.input_num_rows ==> {
                &&& at.row_state.len() == setup.input_num_rows
                &&& forall|row: int|
                    0 <= row < setup.input_num_rows ==> (#[trigger] at.row_state[row]) == 0
            }
            &&& verdicts_told(setup, row_state, Seq::<Event<B, E>>::empty()).len() == 0
        }),
{
}

/// Whether matches of the row `row` were taken: they wait for a block, count for the row, and are
/// remembered as counting for it.
pub open spec fn takes_matches<B, E>(
    at: ConjunctView<B, E>,
    next: ConjunctView<B, E>,
    row: int,
    matched: Seq<RowPtr>,
) -> bool {
    &&& next.build_indexes == at.build_indexes + matched
    &&& next.probe_indexes == if matched.len() > 0 {
        at.probe_indexes.push((row as u32, matched.len() as u32))
    } else {
        at.probe_indexes
    }
    &&& next.row_state.len() == at.row_state.len()
    &&& forall|r: int|
        0 <= r < at.row_state.len() ==> #[trigger] next.row_state[r] == at.row_state[r] + if r
            == row {
            matched.len()
        } else {
            0
        }
    &&& next.row_state_indexes.len() == at.row_state_indexes.len() + matched.len()
    &&& forall|k: int|
        0 <= k < at.row_state_indexes.len() ==> #[trigger] next.row_state_indexes[k]
            == at.row_state_indexes[k]
    &&& forall|k: int|
        at.row_state_indexes.len() <= k < next.row_state_indexes.len() ==> (
        #[trigger] next.row_state_indexes[k]) == row
}

/// What the matches of a key lead to. A scalar subquery is refused a second match. Else they wait
/// for a block and count for their row; the block is due where they fill it, or the row is the last
/// of the input, and else the next key is asked for.
pub proof fn what_follows_a_key<B, E>(
    setup: Setup,
    row_state: Seq<usize>,
    events: Seq<Event<B, E>>,
    matched: Seq<RowPtr>,
    incomplete_ptr: u64,
)
    requires
        is_run(setup, row_state, events),
        matches_told(events).len() <= usize::MAX,
        state(setup, row_state, events).accepts(setup, Event::Probed { matched, incomplete_ptr }),
    ensures
        ({
            let row = matches_told(events).len();
            let at = state(setup, row_state, events);
            let next = state(
                setup,
                row_state,
                events.push(Event::Probed { matched, incomplete_ptr }),
            );
            let refused = setup.join_type is LeftSingle && matched.len() > 1;
            let is_due = at.build_indexes.len() + matched.len() >= setup.max_block_size || row + 1
                == setup.input_num_rows;
            &&& next.results == at.results
            &&& next.action(setup) is Finish <==> refused
            &&& next.error == if refused {
                Some(ErrorCode::<E>::Internal)
            } else {
                None
            }
            &&& next.action(setup) is LoadInterrupt <==> !refused && is_due
            &&& asks_for_key(next.action(setup)) <==> !refused && !is_due
            &&& refused ==> next.row_state == at.row_state
            &&& !refused ==> takes_matches(at, next, row as int, matched)
        }),
{
    let event = Event::<B, E>::Probed { matched, incomplete_ptr };
    run_knows_its_place(setup, row_state, events);
    error_tells_its_cause(setup, row_state, events);
    run_goes_on(setup, row_state, events, event);
    let at = state(setup, row_state, events);
    assert(matched.len() == 0 ==> at.build_indexes + matched =~= at.build_indexes);
}

/// What more matches of a key lead to. A scalar subquery is refused a second match, counting those
/// told before. Else the matches wait for a block and count for their row; the block is due where
/// they fill it, or the row is the last of the input.
pub proof fn what_follows_more_matches<B, E>(
    setup: Setup,
    row_state: Seq<usize>,
    events: Seq<Event<B, E>>,
    matched: Seq<RowPtr>,
    incomplete_ptr: u64,
)
    requires
        is_run(setup, row_state, events),
        matches_told(events).len() <= usize::MAX,
        state(setup, row_state, events).accepts(
            setup,
            Event::Continued { matched, incomplete_ptr },
        ),
    ensures
        ({
            let told = matches_told(events);
            let at = state(setup, row_state, events);
            let next = state(
                setup,
                row_state,
                events.push(Event::Continued { matched, incomplete_ptr }),
            );
            let refused = setup.join_type is LeftSingle && matched.len() > 0 && told.last().len()
                + matched.len() > 1;
            let is_due = matched.len() >= setup.max_block_size || told.len()
                == setup.input_num_rows;
            &&& next.results == at.results
            &&& next.action(setup) is Finish <==> refused
            &&& next.error == if refused {
                Some(ErrorCode::<E>::Internal)
            } else {
                None
            }
            &&& next.action(setup) is LoadInterrupt <==> !refused && is_due
            &&& asks_for_key(next.action(setup)) <==> !refused && !is_due
            &&& refused ==> next.row_state == at.row_state
            &&& !refused ==> takes_matches(at, next, told.len() - 1, matched)
        }),
{
    let event = Event::<B, E>::Continued { matched, incomplete_ptr };
    run_knows_its_place(setup, row_state, events);
    run_knows_matches(setup, row_state, events);
    error_tells_its_cause(setup, row_state, events);
    run_goes_on(setup, row_state, events, event);
    let at = state(setup, row_state, events);
    assert(matched.len() == 0 ==> at.build_indexes + matched =~= at.build_indexes);
}

/// What a look whether the query was interrupted leads to. An interrupted query is aborted. Else a
/// block is made of all matched rows that wait; it has the columns that the join is to show.
pub proof fn what_follows_a_look_at_the_flag<B, E>(
    setup: Setup,
    row_state: Seq<usize>,
    events: Seq<Event<B, E>>,
    interrupted: bool,
)
    requires
        is_run(setup, row_state, events),
        state(setup, row_state, events).accepts(setup, Event::Interrupt { interrupted }),
    ensures
        ({
            let at = state(setup, row_state, events);
            let next = state(setup, row_state, events.push(Event::Interrupt { interrupted }));
            &&& next.results == at.results
            &&& next.row_state == at.row_state
            &&& next.row_state_indexes == at.row_state_indexes
            &&& interrupted ==> next.action(setup) is Finish && next.error == Some(
                ErrorCode::<E>::AbortedQuery,
            )
            &&& !interrupted ==> {
                let block = next.block.unwrap();
                &&& next.action(setup) is BuildBlock
                &&& next.error is None
                &&& next.block is Some
                &&& has_columns(setup, block)
                &&& block.build_indexes == Some(at.build_indexes)
                &&& block.num_rows == at.build_indexes.len()
                &&& block.probe_indexes == if setup.is_probe_projected {
                    at.probe_indexes
                } else {
                    Seq::empty()
                }
                &&& next.block_runs == at.probe_indexes
                &&& next.build_indexes.len() == 0
                &&& next.probe_indexes.len() == 0
            }
        }),
{
    run_knows_its_place(setup, row_state, events);
    error_tells_its_cause(setup, row_state, events);
    run_goes_on(setup, row_state, events, Event::Interrupt { interrupted });
    every_block_has_its_columns(
        setup,
        row_state,
        events.push(Event::Interrupt { interrupted }),
    );
}

/// Whether the probe is done with the block at hand: nothing is left of it, and the search for
/// matches of the row goes on if it stopped short, at `ptr`; else the next key is asked for.
pub open spec fn is_done_with_block<B, E>(
    setup: Setup,
    at: ConjunctView<B, E>,
    next: ConjunctView<B, E>,
    ptr: u64,
) -> bool {
    &&& next.error is None
    &&& next.block is None
    &&& next.filter is None
    &&& next.row_state_indexes.len() == 0
    &&& next.build_indexes == at.build_indexes
    &&& next.probe_indexes == at.probe_indexes
    &&& next.action(setup) is NextIncomplete <==> ptr != 0
    &&& asks_for_key(next.action(setup)) <==> ptr == 0
}

/// What a block of matched rows that was made leads to: an empty one to nothing; any other has yet
/// to be put to the other conditions, and is no part of the result before.
pub proof fn what_follows_a_block_of_pairs<B, E>(
    setup: Setup,
    row_state: Seq<usize>,
    events: Seq<Event<B, E>>,
    data: B,
    num_rows: nat,
)
    requires
        is_run(setup, row_state, events),
        state(setup, row_state, events).accepts(setup, Event::BlockBuilt { data, num_rows }),
        state(setup, row_state, events).block.unwrap().build_indexes is Some,
    ensures
        ({
            let at = state(setup, row_state, events);
            let next = state(
                setup,
                row_state,
                events.push(Event::BlockBuilt { data, num_rows }),
            );
            &&& next.results == at.results
            &&& next.row_state == at.row_state
            &&& num_rows == 0 ==> is_done_with_block(setup, at, next, last_ptr(events))
            &&& num_rows > 0 ==> {
                &&& next.action(setup) is OtherFilters
                &&& next.error is None
                &&& next.block == at.block
                &&& next.block_runs == at.block_runs
                &&& next.row_state_indexes == at.row_state_indexes
            }
        }),
{
    run_knows_its_place(setup, row_state, events);
    error_tells_its_cause(setup, row_state, events);
    run_goes_on(setup, row_state, events, Event::BlockBuilt { data, num_rows });
}

/// What a block of rows without a match that was made leads to: it becomes part of the result, and
/// the next rows whose count is zero are taken, if there are any.
pub proof fn what_follows_a_block_of_nulls<B, E>(
    setup: Setup,
    row_state: Seq<usize>,
    events: Seq<Event<B, E>>,
    data: B,
    num_rows: nat,
)
    requires
        is_run(setup, row_state, events),
        state(setup, row_state, events).accepts(setup, Event::BlockBuilt { data, num_rows }),
        state(setup, row_state, events).block.unwrap().build_indexes is None,
    ensures
        ({
            let at = state(setup, row_state, events);
            let next = state(
                setup,
                row_state,
                events.push(Event::BlockBuilt { data, num_rows }),
            );
            let made = ConjunctView {
                results: at.results.push(
                    ResultView {
                        block: at.block.unwrap(),
                        runs: at.block_runs,
                        filter: None,
                        data,
                    },
                ),
                ..at
            };
            &&& next.error is None
            &&& finds_zero_counts(setup, made, next)
            &&& next.block matches Some(block) ==> has_columns(setup, block)
        }),
{
    let event = Event::<B, E>::BlockBuilt { data, num_rows };
    run_knows_its_place(setup, row_state, events);
    error_tells_its_cause(setup, row_state, events);
    run_goes_on(setup, row_state, events, event);
    every_block_has_its_columns(setup, row_state, events.push(event));
    let at = state(setup, row_state, events);
    let next = state(setup, row_state, events.push(event));
    let done = ConjunctView { block: None, block_runs: Seq::empty(), ..at.keep_block(data) };
    let made = ConjunctView { results: at.keep_block(data).results, ..at };
    if at.phase == Phase::NullBlock {
        scan_is_of_zero_counts(setup, done);
        if next.action(setup) is BuildBlock {
            let rows = choose|rows: Seq<int>|
                rows.len() > 0 && #[trigger] is_next_of_zero_counts(setup, done, next, rows);
            assert(is_next_of_zero_counts(setup, made, next, rows));
        }
    }
}

/// What comes when there are no more keys: the first rows of the input whose count is zero are to
/// be made a block, without a look whether the query was interrupted; where there are none, the
/// probe is done.
pub proof fn what_follows_the_last_key<B, E>(
    setup: Setup,
    row_state: Seq<usize>,
    events: Seq<Event<B, E>>,
)
    requires
        is_run(setup, row_state, events),
        state(setup, row_state, events).accepts(setup, Event::KeysExhausted),
    ensures
        ({
            let at = state(setup, row_state, events);
            let next = state(setup, row_state, events.push(Event::KeysExhausted));
            &&& at.scan_row == 0
            &&& next.error is None
            &&& finds_zero_counts(setup, at, next)
            &&& next.block matches Some(block) ==> has_columns(setup, block)
        }),
{
    run_knows_its_place(setup, row_state, events);
    error_tells_its_cause(setup, row_state, events);
    run_goes_on(setup, row_state, events, Event::KeysExhausted);
    every_block_has_its_columns(setup, row_state, events.push(Event::KeysExhausted));
    scan_is_of_zero_counts(setup, state(setup, row_state, events));
}

/// Whether the pair `k` of a block meets the other conditions: where all do, it does; else where
/// none does, it does not, whatever bits come with that; else it does if its bit says so.
pub open spec fn meets(bits: Option<Seq<bool>>, all_true: bool, all_false: bool, k: int) -> bool {
    all_true || (!all_false && bits.unwrap()[k])
}

/// What the other conditions lead to. Each pair of the block is judged by itself. Its row loses
/// those of its pairs that do not meet the conditions from its count. The block becomes part of the
/// result as it is where all pairs meet them, and not at all where none does; else it has yet to be
/// filtered by the bits, and is no part of the result before.
pub proof fn what_follows_the_other_conditions<B, E>(
    setup: Setup,
    row_state: Seq<usize>,
    events: Seq<Event<B, E>>,
    data: B,
    bits: Option<Seq<bool>>,
    all_true: bool,
    all_false: bool,
)
    requires
        is_run(setup, row_state, events),
        matches_told(events).len() <= usize::MAX,
        state(setup, row_state, events).accepts(
            setup,
            Event::Filters { data, bits, all_true, all_false },
        ),
    ensures
        ({
            let after = events.push(Event::Filters { data, bits, all_true, all_false });
            let at = state(setup, row_state, events);
            let next = state(setup, row_state, after);
            let block = at.block.unwrap();
            let pairs = block.build_indexes.unwrap().len();
            let indexes = at.row_state_indexes;
            &&& indexes.len() == pairs
            &&& verdicts_told(setup, row_state, after) == verdicts_told(setup, row_state, events)
                + Seq::new(pairs, |k: int| meets(bits, all_true, all_false, k))
            &&& next.row_state.len() == at.row_state.len()
            &&& forall|row: int|
                0 <= row < at.row_state.len() ==> #[trigger] next.row_state[row]
                    == at.row_state[row] - Seq::new(pairs, |k: int| k).filter(
                    |k: int| indexes[k] == row && !meets(bits, all_true, all_false, k),
                ).len()
            &&& all_true ==> next.results == at.results.push(
                ResultView { block, runs: at.block_runs, filter: None, data },
            )
            &&& !all_true ==> next.results == at.results
            &&& all_true || all_false ==> is_done_with_block(setup, at, next, last_ptr(events))
            &&& !all_true && !all_false ==> {
                &&& next.action(setup) is FilterBlock
                &&& next.error is None
                &&& next.block == at.block
                &&& next.block_runs == at.block_runs
                &&& next.filter == bits
            }
        }),
{
    let event = Event::<B, E>::Filters { data, bits, all_true, all_false };
    let after = events.push(event);
    run_knows_its_place(setup, row_state, events);
    run_counts_its_pairs(setup, row_state, events);
    error_tells_its_cause(setup, row_state, events);
    run_goes_on(setup, row_state, events, event);
    assert(after.drop_last() =~= events);
    let at = state(setup, row_state, events);
    let next = state(setup, row_state, after);
    let pairs = at.block.unwrap().build_indexes.unwrap().len();
    let indexes = at.row_state_indexes;
    let stays = crate::left_join_conjunct::verdict(bits, all_true, all_false, pairs);
    assert(stays =~= Seq::new(pairs, |k: int| meets(bits, all_true, all_false, k)));
    assert(next.row_state == without_dropped(at.row_state, indexes, stays));
    assert forall|row: int| 0 <= row < at.row_state.len() implies #[trigger] next.row_state[row]
        == at.row_state[row] - Seq::new(pairs, |k: int| k).filter(
        |k: int| indexes[k] == row && !meets(bits, all_true, all_false, k),
    ).len() by {
        rows_lose_their_dropped_pairs(
            at.row_state,
            indexes,
            stays,
            row,
            |k: int| indexes[k] == row && !meets(bits, all_true, all_false, k),
        );
    }
}

proof fn same_filter(n: nat, one: spec_fn(int) -> bool, other: spec_fn(int) -> bool)
    requires
        forall|k: int| 0 <= k < n ==> #[trigger] one(k) == other(k),
    ensures
        Seq::new(n, |k: int| k).filter(one) == Seq::new(n, |k: int| k).filter(other),
    decreases n,
{
    reveal(Seq::filter);
    if n > 0 {
        same_filter((n - 1) as nat, one, other);
        assert(Seq::new(n, |k: int| k).drop_last() =~= Seq::new((n - 1) as nat, |k: int| k));
        assert(one(n - 1) == other(n - 1));
    }
}

/// Where none of the pairs of a block meets the other conditions, no pair is told to meet them, the
/// result stays as it is, no flag is set, and each row loses all of its pairs in the block from its
/// count: whatever bits come with that.
pub proof fn pairs_that_fail_leave_no_trace<B, E>(
    setup: Setup,
    row_state: Seq<usize>,
    events: Seq<Event<B, E>>,
    data: B,
    bits: Option<Seq<bool>>,
)
    requires
        is_run(setup, row_state, events),
        matches_told(events).len() <= usize::MAX,
        state(setup, row_state, events).accepts(
            setup,
            Event::Filters { data, bits, all_true: false, all_false: true },
        ),
    ensures
        ({
            let event = Event::<B, E>::Filters { data, bits, all_true: false, all_false: true };
            let at = state(setup, row_state, events);
            let next = state(setup, row_state, events.push(event));
            let pairs = at.block.unwrap().build_indexes.unwrap().len();
            let indexes = at.row_state_indexes;
            &&& verdicts_told(setup, row_state, events.push(event)) == verdicts_told(
                setup,
                row_state,
                events,
            ) + Seq::new(pairs, |k: int| false)
            &&& next.results == at.results
            &&& at.marks(setup, event).len() == 0
            &&& next.row_state.len() == at.row_state.len()
            &&& forall|row: int|
                0 <= row < at.row_state.len() ==> #[trigger] next.row_state[row]
                    == at.row_state[row] - Seq::new(pairs, |k: int| k).filter(
                    |k: int| indexes[k] == row,
                ).len()
        }),
{
    let event = Event::<B, E>::Filters { data, bits, all_true: false, all_false: true };
    what_follows_the_other_conditions(setup, row_state, events, data, bits, false, true);
    flags_are_set_by_conditions(setup, row_state, events, event);
    let at = state(setup, row_state, events);
    let next = state(setup, row_state, events.push(event));
    let pairs = at.block.unwrap().build_indexes.unwrap().len();
    let indexes = at.row_state_indexes;
    assert(Seq::new(pairs, |k: int| meets(bits, false, true, k)) =~= Seq::new(
        pairs,
        |k: int| false,
    ));
    let marks = at.marks(setup, event);
    if marks.len() > 0 {
        assert(marks.contains(marks[0]));
    }
    assert forall|row: int| 0 <= row < at.row_state.len() implies #[trigger] next.row_state[row]
        == at.row_state[row] - Seq::new(pairs, |k: int| k).filter(
        |k: int| indexes[k] == row,
    ).len() by {
        same_filter(
            pairs,
            |k: int| indexes[k] == row && !meets(bits, false, true, k),
            |k: int| indexes[k] == row,
        );
    }
}

/// What a filtered block leads to: it becomes part of the result, with the bits it was filtered by.
pub proof fn what_follows_a_filtered_block<B, E>(
    setup: Setup,
    row_state: Seq<usize>,
    events: Seq<Event<B, E>>,
    data: B,
)
    requires
        is_run(setup, row_state, events),
        state(setup, row_state, events).accepts(setup, Event::BlockFiltered { data }),
    ensures
        ({
            let at = state(setup, row_state, events);
            let next = state(setup, row_state, events.push(Event::BlockFiltered { data }));
            &&& at.filter is Some
            &&& next.row_state == at.row_state
            &&& next.results == at.results.push(
                ResultView {
                    block: at.block.unwrap(),
                    runs: at.block_runs,
                    filter: at.filter,
                    data,
                },
            )
            &&& is_done_with_block(setup, at, next, last_ptr(events))
        }),
{
    run_knows_its_place(setup, row_state, events);
    error_tells_its_cause(setup, row_state, events);
    run_goes_on(setup, row_state, events, Event::BlockFiltered { data });
}

/// Work on a block that failed ends the probe with the error that was told, and leaves the counts
/// as they are.
pub proof fn what_follows_a_failure<B, E>(
    setup: Setup,
    row_state: Seq<usize>,
    events: Seq<Event<B, E>>,
    error: E,
)
    requires
        is_run(setup, row_state, events),
        state(setup, row_state, events).accepts(setup, Event::BlockFailed { error }),
    ensures
        ({
            let at = state(setup, row_state, events);
            let next = state(setup, row_state, events.push(Event::BlockFailed { error }));
            &&& next.action(setup) is Finish
            &&& next.error == Some(ErrorCode::Block(error))
            &&& next.results == at.results
            &&& next.row_state == at.row_state
        }),
{
    run_goes_on(setup, row_state, events, Event::BlockFailed { error });
}

/// Flags are set when the other conditions were evaluated, and at no other time: by a full join,
/// and by no other; for the build rows of those pairs of the block that meet them, and for no
/// others.
pub proof fn flags_are_set_by_conditions<B, E>(
    setup: Setup,
    row_state: Seq<usize>,
    events: Seq<Event<B, E>>,
    event: Event<B, E>,
)
    requires
        is_run(setup, row_state, events),
        state(setup, row_state, events).accepts(setup, event),
    ensures
        ({
            let at = state(setup, row_state, events);
            match event {
                Event::Filters { bits, all_true, all_false, .. } => {
                    let ptrs = at.block.unwrap().build_indexes.unwrap();
                    forall|ptr: RowPtr| #[trigger]
                        at.marks(setup, event).contains(ptr) <==> setup.join_type is Full && exists|
                            k: int,
                        |
                            0 <= k < ptrs.len() && meets(bits, all_true, all_false, k)
                                && #[trigger] ptrs[k] == ptr
                },
                _ => at.marks(setup, event).len() == 0,
            }
        }),
{
    let at = state(setup, row_state, events);
    match event {
        Event::Filters { bits, all_true, all_false, .. } => {
            let ptrs = at.block.unwrap().build_indexes.unwrap();
            let stays = crate::left_join_conjunct::verdict(bits, all_true, all_false, ptrs.len());
            assert forall|ptr: RowPtr| #[trigger]
                at.marks(setup, event).contains(ptr) <==> setup.join_type is Full && exists|
                    k: int,
                |
                    0 <= k < ptrs.len() && meets(bits, all_true, all_false, k) && #[trigger] ptrs[k]
                        == ptr by {
                selected_have_their_bit_set(ptrs, stays, ptr);
                if exists|k: int| 0 <= k < ptrs.len() && stays[k] && #[trigger] ptrs[k] == ptr {
                    let k = choose|k: int|
                        0 <= k < ptrs.len() && stays[k] && #[trigger] ptrs[k] == ptr;
                    assert(meets(bits, all_true, all_false, k) && ptrs[k] == ptr);
                }
                if exists|k: int|
                    0 <= k < ptrs.len() && meets(bits, all_true, all_false, k) && #[trigger] ptrs[k]
                        == ptr {
                    let k = choose|k: int|
                        0 <= k < ptrs.len() && meets(bits, all_true, all_false, k)
                            && #[trigger] ptrs[k] == ptr;
                    assert(stays[k] && ptrs[k] == ptr);
                }
            }
        },
        _ => {},
    }
}

} // verus!
