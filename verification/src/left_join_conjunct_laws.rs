//! What holds of every probe of a left join with other conditions.
//!
//! A run is the list of events that a probe was told, from its start on. A run is faithful if the
//! engine kept to what it is there for.
use crate::bitmap::all_set;
use crate::block::all_have_columns;
use crate::block::block_fits_rows;
use crate::block::block_null_rows;
use crate::block::block_pairs;
use crate::block::has_columns;
use crate::block::matched_rows_show_their_build_rows;
use crate::block::rows_without_a_match_show_nulls;
use crate::block::shown_null_rows;
use crate::block::shown_pairs;
use crate::block::ResultView;
use crate::event::answers;
use crate::event::matches_told;
use crate::event::stops_when_full;
use crate::event::told_is_in_table;
use crate::event::with_told;
use crate::event::within_row;
use crate::event::Event;
use crate::event::Phase;
use crate::join::ErrorCode;
use crate::join::JoinType;
use crate::join::Setup;
use crate::left_join_conjunct::verdict;
use crate::left_join_conjunct::ConjunctView;
use crate::left_join_laws;
use crate::left_join_laws::same_but_for_size;
use crate::row_state::dropped_and_kept_pairs;
use crate::row_state::none_dropped_elsewhere;
use crate::row_state::scan_finds_up_to_stop;
use crate::row_state::scan_rows;
use crate::row_state::scan_stop;
use crate::row_state::single_runs;
use crate::row_state::with_zeros;
use crate::row_state::without_dropped;
use crate::row_state::zero_rows;
use crate::rows::build_rows;
use crate::rows::expand;
use crate::rows::expand_single;
use crate::rows::matched_rows;
use crate::rows::pair_count;
use crate::rows::pair_count_append;
use crate::rows::pair_count_of_row;
use crate::rows::pair_up;
use crate::rows::pair_up_push;
use crate::rows::row_pairs;
use crate::rows::rows_of_more_matches;
use crate::rows::rows_of_one_more;
use crate::rows::rows_without_pair;
use crate::rows::rows_without_pair_are_unmatched;
use crate::rows::run_rows;
use crate::rows::select;
use crate::rows::select_all;
use crate::rows::select_append;
use crate::rows::select_build_rows;
use crate::rows::select_by_first_bits;
use crate::rows::select_none;
use crate::rows::unmatched_rows;
use crate::scan_map::marked;
use crate::scan_map::marked_in_turn;
use crate::scan_map::marked_nothing;
use crate::scan_map::RowPtr;
use crate::shape::all_fit;
use crate::shape::all_full;
use crate::shape::block_count;
use crate::shape::blocks_are_of_two_kinds;
use crate::shape::blocks_for;
use crate::shape::full_but_last;
use crate::shape::joined_first;
use crate::shape::no_more_blocks_than_it_takes;
use crate::shape::one_more_block;
use crate::shape::row_count;
use crate::shape::shown_rows_are_counted;
use crate::shape::sized;
use vstd::prelude::*;

verus! {

/// The probe after the run `events`, started with the counts `row_state`.
pub open spec fn state<B, E>(
    setup: Setup,
    row_state: Seq<usize>,
    events: Seq<Event<B, E>>,
) -> ConjunctView<B, E>
    decreases events.len(),
{
    if events.len() == 0 {
        ConjunctView::start(setup, row_state)
    } else {
        state(setup, row_state, events.drop_last()).next(setup, events.last())
    }
}

/// Whether each event of `events` is what the probe waited for.
pub open spec fn is_run<B, E>(
    setup: Setup,
    row_state: Seq<usize>,
    events: Seq<Event<B, E>>,
) -> bool
    decreases events.len(),
{
    events.len() > 0 ==> {
        &&& is_run(setup, row_state, events.drop_last())
        &&& state(setup, row_state, events.drop_last()).accepts(setup, events.last())
    }
}

/// A run that goes on with what the probe waits for is a run.
pub proof fn run_goes_on<B, E>(
    setup: Setup,
    row_state: Seq<usize>,
    events: Seq<Event<B, E>>,
    event: Event<B, E>,
)
    requires
        is_run(setup, row_state, events),
        state(setup, row_state, events).accepts(setup, event),
    ensures
        is_run(setup, row_state, events.push(event)),
        state(setup, row_state, events.push(event)) == state(setup, row_state, events).next(
            setup,
            event,
        ),
{
    assert(events.push(event).drop_last() =~= events);
}

/// The build rows whose flag the run `events` sets.
pub open spec fn run_marks<B, E>(
    setup: Setup,
    row_state: Seq<usize>,
    events: Seq<Event<B, E>>,
) -> Seq<RowPtr>
    decreases events.len(),
{
    if events.len() == 0 {
        Seq::empty()
    } else {
        run_marks(setup, row_state, events.drop_last()) + state(
            setup,
            row_state,
            events.drop_last(),
        ).marks(setup, events.last())
    }
}

/// What `event` says of the pairs of the block in hand.
pub open spec fn verdicts_at<B, E>(at: ConjunctView<B, E>, event: Event<B, E>) -> Seq<bool> {
    match event {
        Event::Filters { bits, all_true, all_false, .. } => verdict(
            bits,
            all_true,
            all_false,
            at.block_ptrs().len(),
        ),
        _ => Seq::empty(),
    }
}

/// What the other conditions say of the joined pairs, in their order, as far as they were
/// evaluated.
pub open spec fn verdicts_told<B, E>(
    setup: Setup,
    row_state: Seq<usize>,
    events: Seq<Event<B, E>>,
) -> Seq<bool>
    decreases events.len(),
{
    if events.len() == 0 {
        Seq::empty()
    } else {
        verdicts_told(setup, row_state, events.drop_last()) + verdicts_at(
            state(setup, row_state, events.drop_last()),
            events.last(),
        )
    }
}

/// Whether, at `event`, the engine made a block of the size asked for.
pub open spec fn is_faithful_event<B, E>(at: ConjunctView<B, E>, event: Event<B, E>) -> bool {
    match event {
        Event::BlockBuilt { num_rows, .. } => num_rows == at.block.unwrap().num_rows,
        _ => true,
    }
}

/// Whether the engine is faithful at each event of `events`.
pub open spec fn is_faithful<B, E>(
    setup: Setup,
    row_state: Seq<usize>,
    events: Seq<Event<B, E>>,
) -> bool
    decreases events.len(),
{
    events.len() > 0 ==> {
        &&& is_faithful(setup, row_state, events.drop_last())
        &&& is_faithful_event(state(setup, row_state, events.drop_last()), events.last())
    }
}

/// The joined pairs that stay, of those that were put to the other conditions.
pub open spec fn kept_pairs(matches: Seq<Seq<RowPtr>>, verdicts: Seq<bool>) -> Seq<(int, RowPtr)> {
    select(matched_rows(matches).take(verdicts.len() as int), verdicts)
}

/// The pairs that wait to be put to the other conditions.
spec fn waiting<B, E>(at: ConjunctView<B, E>) -> Seq<(int, RowPtr)> {
    if at.phase == Phase::Block || at.phase == Phase::Filters {
        block_pairs(at.block, at.block_runs)
    } else if at.phase == Phase::Filtered {
        Seq::empty()
    } else {
        pair_up(at.probe_indexes, at.build_indexes)
    }
}

/// The pairs of the block that is being filtered.
spec fn being_filtered<B, E>(at: ConjunctView<B, E>) -> Seq<(int, RowPtr)> {
    if at.phase == Phase::Filtered {
        select(block_pairs(at.block, at.block_runs), at.filter.unwrap())
    } else {
        Seq::empty()
    }
}

/// Whether the keys were all probed.
pub open spec fn after_keys(phase: Phase) -> bool {
    phase == Phase::NullBlock || phase == Phase::LastNullBlock || phase == Phase::Finished
}

/// What holds of the block in hand and of the blocks of the result.
spec fn fits_blocks<B, E>(setup: Setup, at: ConjunctView<B, E>) -> bool {
    &&& at.has_block() <==> at.block is Some
    &&& at.phase == Phase::Filtered <==> at.filter is Some
    &&& at.phase == Phase::Block || at.phase == Phase::Filters || at.phase == Phase::Filtered ==> {
        &&& at.block.unwrap().build_indexes is Some
        &&& at.block.unwrap().num_rows == at.block_ptrs().len()
        &&& at.build_indexes.len() == 0
        &&& at.probe_indexes.len() == 0
    }
    &&& at.phase == Phase::Filtered ==> at.block_ptrs().len() <= at.filter.unwrap().len()
    &&& after_keys(at.phase) && at.block is Some ==> at.block.unwrap().build_indexes is None
    &&& at.block is Some ==> at.block.unwrap().num_rows <= setup.max_block_size
    &&& at.block is Some && at.phase != Phase::Block ==> at.block.unwrap().num_rows > 0
    &&& at.build_indexes.len() <= setup.max_block_size
    &&& at.block is Some ==> block_fits_rows(
        at.block.unwrap(),
        at.block_runs,
        setup.is_probe_projected,
    )
    &&& sized(at.results, setup.max_block_size)
    &&& all_fit(at.results, setup.is_probe_projected)
}

/// What holds of a probe that was told of `matches` and `verdicts`, apart from its errors, until it
/// is told that there are no more keys.
spec fn accounts_for<B, E>(
    setup: Setup,
    at: ConjunctView<B, E>,
    matches: Seq<Seq<RowPtr>>,
    verdicts: Seq<bool>,
) -> bool {
    &&& matches.len() == at.row + if within_row(at.phase) {
        1nat
    } else {
        0nat
    }
    &&& at.phase != Phase::NullInterrupt
    &&& fits_blocks(setup, at)
    &&& setup.input_num_rows <= at.row_state.len()
    &&& at.scan_row == 0
    &&& expand(at.probe_indexes).len() == at.build_indexes.len()
    &&& verdicts.len() <= matched_rows(matches).len()
    &&& matched_rows(matches).take(verdicts.len() as int) + waiting(at) == matched_rows(matches)
    &&& shown_pairs(at.results) + being_filtered(at) == kept_pairs(matches, verdicts)
    &&& shown_null_rows(at.results) == Seq::<int>::empty()
    &&& at.phase != Phase::Filtered ==> at.row_state_indexes.len() == waiting(at).len()
    &&& at.phase != Phase::Filtered ==> forall|k: int|
        0 <= k < waiting(at).len() ==> (#[trigger] at.row_state_indexes[k]) == waiting(at)[k].0
    &&& forall|row: int|
        0 <= row < setup.input_num_rows ==> #[trigger] at.row_state[row] == pair_count(
            kept_pairs(matches, verdicts),
            row,
        ) + pair_count(waiting(at), row)
    &&& at.phase == Phase::Incomplete ==> at.build_indexes.len() == 0 && at.probe_indexes.len() == 0
        && at.row_state_indexes.len() == 0
    &&& !within_row(at.phase) && at.row == setup.input_num_rows ==> at.build_indexes.len() == 0
}

/// Matches of a row keep the account.
proof fn matches_keep_account<B, E>(
    setup: Setup,
    at: ConjunctView<B, E>,
    event: Event<B, E>,
    matches: Seq<Seq<RowPtr>>,
    verdicts: Seq<bool>,
)
    requires
        0 < setup.max_block_size <= u32::MAX,
        at.row <= u32::MAX,
        accounts_for(setup, at, matches, verdicts),
        at.accepts(setup, event),
        is_faithful_event(at, event),
        event is Probed || event is Continued,
    ensures
        at.next(setup, event).phase != Phase::Failed ==> accounts_for(
            setup,
            at.next(setup, event),
            with_told(matches, event),
            verdicts,
        ),
{
    let next = at.next(setup, event);
    let told = with_told(matches, event);
    let n = verdicts.len() as int;
    let matched = match event {
        Event::Probed { matched, .. } => matched,
        Event::Continued { matched, .. } => matched,
        _ => Seq::empty(),
    };
    if event is Probed {
        rows_of_one_more(matches, matched);
    } else {
        rows_of_more_matches(matches, matched);
    }
    let more = row_pairs(at.row as int, matched);
    assert(matched_rows(told) == matched_rows(matches) + more);
    assert(matched_rows(told).take(n) =~= matched_rows(matches).take(n));
    if next.phase != Phase::Failed {
        if matched.len() > 0 {
            pair_up_push(at.probe_indexes, at.build_indexes, at.row, matched);
            assert(waiting(next) =~= waiting(at) + more);
            assert(matched_rows(told).take(n) + waiting(next) =~= matched_rows(told));
            assert forall|k: int| 0 <= k < waiting(next).len() implies (
            #[trigger] next.row_state_indexes[k]) == waiting(next)[k].0 by {
                if k < waiting(at).len() {
                    assert(at.row_state_indexes[k] == waiting(at)[k].0);
                }
            }
            assert forall|row: int| 0 <= row < setup.input_num_rows implies (
            #[trigger] next.row_state[row]) == pair_count(kept_pairs(told, verdicts), row)
                + pair_count(waiting(next), row) by {
                pair_count_append(waiting(at), more, row);
                pair_count_of_row(at.row as int, matched, row);
                assert(at.row_state[row] == pair_count(kept_pairs(matches, verdicts), row)
                    + pair_count(waiting(at), row));
            }
        } else {
            assert(matched_rows(told) =~= matched_rows(matches));
            assert(waiting(next) =~= waiting(at));
        }
    }
}

/// What the other conditions say of a block keeps the account.
proof fn filters_keep_account<B, E>(
    setup: Setup,
    at: ConjunctView<B, E>,
    event: Event<B, E>,
    matches: Seq<Seq<RowPtr>>,
    verdicts: Seq<bool>,
)
    requires
        0 < setup.max_block_size <= u32::MAX,
        accounts_for(setup, at, matches, verdicts),
        at.accepts(setup, event),
        event is Filters,
    ensures
        accounts_for(
            setup,
            at.next(setup, event),
            matches,
            verdicts + verdicts_at(at, event),
        ),
{
    let next = at.next(setup, event);
    let pairs = matched_rows(matches);
    let stays = verdicts_at(at, event);
    let judged = verdicts + stays;
    let now = waiting(at);
    let before = pairs.take(verdicts.len() as int);
    assert(now.len() == at.block_ptrs().len());
    assert(judged.len() == pairs.len());
    assert(pairs.take(judged.len() as int) =~= pairs);
    select_append(before, now, verdicts, stays);
    let staying = select(now, stays);
    assert(kept_pairs(matches, judged) == kept_pairs(matches, verdicts) + staying);
    assert(waiting(next) =~= Seq::empty());
    match event {
        Event::Filters { data, bits, all_true, all_false } => {
            if all_true {
                select_all(now, now.len());
                assert(next.results.drop_last() =~= at.results);
                assert(shown_null_rows(next.results) =~= Seq::empty());
            } else if all_false {
                select_none(now, now.len());
            } else {
                select_by_first_bits(now, bits.unwrap(), now.len() as int);
                assert(being_filtered(next) == staying);
            }
        },
        _ => {},
    }
    assert(shown_pairs(next.results) + being_filtered(next) =~= kept_pairs(matches, judged));
    assert forall|row: int| 0 <= row < setup.input_num_rows implies (
    #[trigger] next.row_state[row]) == pair_count(kept_pairs(matches, judged), row) + pair_count(
        waiting(next),
        row,
    ) by {
        dropped_and_kept_pairs(at.row_state_indexes, now, stays, row);
        pair_count_append(kept_pairs(matches, verdicts), staying, row);
        assert(at.row_state[row] == pair_count(kept_pairs(matches, verdicts), row) + pair_count(
            now,
            row,
        ));
    }
    assert(pairs.take(judged.len() as int) + waiting(next) =~= pairs);
}

/// One event keeps the account, until there are no more keys.
proof fn event_keeps_account<B, E>(
    setup: Setup,
    at: ConjunctView<B, E>,
    event: Event<B, E>,
    matches: Seq<Seq<RowPtr>>,
    verdicts: Seq<bool>,
)
    requires
        0 < setup.max_block_size <= u32::MAX,
        at.row <= u32::MAX || !(event is Probed),
        within_row(at.phase) ==> at.row <= u32::MAX,
        !after_keys(at.phase),
        accounts_for(setup, at, matches, verdicts),
        at.accepts(setup, event),
        is_faithful_event(at, event),
        !(event is KeysExhausted),
    ensures
        at.next(setup, event).phase != Phase::Failed ==> accounts_for(
            setup,
            at.next(setup, event),
            with_told(matches, event),
            verdicts + verdicts_at(at, event),
        ) && !after_keys(at.next(setup, event).phase),
{
    let next = at.next(setup, event);
    if !(event is Filters) {
        assert(verdicts + verdicts_at(at, event) =~= verdicts);
    }
    match event {
        Event::Probed { .. } => matches_keep_account(setup, at, event, matches, verdicts),
        Event::Continued { .. } => matches_keep_account(setup, at, event, matches, verdicts),
        Event::Filters { .. } => filters_keep_account(setup, at, event, matches, verdicts),
        Event::Interrupt { interrupted } => {
            if !interrupted {
                assert(waiting(next) =~= waiting(at));
            }
        },
        Event::BlockBuilt { .. } => {
            assert(at.phase == Phase::Block);
            assert(waiting(next) =~= waiting(at));
        },
        Event::BlockFiltered { .. } => {
            assert(next.results.drop_last() =~= at.results);
            assert(waiting(next) =~= waiting(at));
            assert(shown_null_rows(next.results) =~= Seq::empty());
            assert(shown_pairs(next.results) + being_filtered(next) =~= shown_pairs(at.results)
                + being_filtered(at));
        },
        _ => {},
    }
}

/// What holds of a probe once there are no more keys, where `kept` are the pairs that stay.
spec fn accounts_for_rest<B, E>(
    setup: Setup,
    at: ConjunctView<B, E>,
    kept: Seq<(int, RowPtr)>,
) -> bool {
    &&& after_keys(at.phase)
    &&& fits_blocks(setup, at)
    &&& at.scan_row <= setup.input_num_rows <= at.row_state.len()
    &&& at.phase != Phase::NullBlock ==> at.scan_row == setup.input_num_rows
    &&& shown_pairs(at.results) == kept
    &&& shown_null_rows(at.results) + block_null_rows(at.block, at.block_runs) == rows_without_pair(
        kept,
        at.scan_row,
    )
    &&& forall|row: int|
        0 <= row < setup.input_num_rows ==> #[trigger] at.row_state[row] == if row < at.scan_row {
            0
        } else {
            pair_count(kept, row)
        }
}

/// The rows with a count of zero are those without a pair.
proof fn zero_rows_have_no_pair(
    row_state: Seq<usize>,
    kept: Seq<(int, RowPtr)>,
    from: nat,
    to: nat,
)
    requires
        from <= to <= row_state.len(),
        forall|row: int|
            from <= row < to ==> #[trigger] row_state[row] == pair_count(kept, row),
    ensures
        rows_without_pair(kept, to) == rows_without_pair(kept, from) + zero_rows(
            row_state,
            from as int,
            to as int,
        ),
    decreases to - from,
{
    if from < to {
        zero_rows_have_no_pair(row_state, kept, from, (to - 1) as nat);
        assert(row_state[to - 1] == pair_count(kept, to - 1));
    }
    assert(rows_without_pair(kept, to) =~= rows_without_pair(kept, from) + zero_rows(
        row_state,
        from as int,
        to as int,
    ));
}

/// Collecting rows without a match keeps the account.
proof fn scan_keeps_account<B, E>(
    setup: Setup,
    at: ConjunctView<B, E>,
    kept: Seq<(int, RowPtr)>,
)
    requires
        0 < setup.max_block_size,
        setup.input_num_rows <= u32::MAX + 1,
        at.block is None,
        at.filter is None,
        at.build_indexes.len() <= setup.max_block_size,
        at.scan_row <= setup.input_num_rows <= at.row_state.len(),
        shown_pairs(at.results) == kept,
        shown_null_rows(at.results) == rows_without_pair(kept, at.scan_row),
        forall|row: int|
            0 <= row < setup.input_num_rows ==> #[trigger] at.row_state[row] == if row
                < at.scan_row {
                0
            } else {
                pair_count(kept, row)
            },
        sized(at.results, setup.max_block_size),
        all_fit(at.results, setup.is_probe_projected),
    ensures
        accounts_for_rest(setup, at.scan(setup), kept),
{
    let limit = setup.max_block_size as int;
    let from = at.scan_row as int;
    let to = setup.input_num_rows as int;
    let next = at.scan(setup);
    let stop = scan_stop(at.row_state, from, to, limit);
    let rows = scan_rows(at.row_state, from, to, limit);
    scan_finds_up_to_stop(at.row_state, from, to, limit);
    zero_rows_have_no_pair(at.row_state, kept, at.scan_row, stop as nat);
    zero_rows_in_range(at.row_state, from, stop);
    assert(single_runs(rows).len() == rows.len());
    assert(run_rows(single_runs(rows)) =~= rows);
    expand_single(single_runs(rows));
    assert(single_runs(rows).take(rows.len() as int) =~= single_runs(rows));
    if rows.len() == 0 {
        assert(rows_without_pair(kept, at.scan_row) + rows =~= rows_without_pair(
            kept,
            at.scan_row,
        ));
    }
    assert(shown_null_rows(next.results) + block_null_rows(next.block, next.block_runs)
        =~= rows_without_pair(kept, next.scan_row));
}

proof fn zero_rows_in_range(row_state: Seq<usize>, from: int, to: int)
    ensures
        forall|k: int|
            0 <= k < zero_rows(row_state, from, to).len() ==> from <= #[trigger] zero_rows(
                row_state,
                from,
                to,
            )[k] < to,
    decreases to - from,
{
    if from < to {
        zero_rows_in_range(row_state, from, to - 1);
        let rest = zero_rows(row_state, from, to - 1);
        assert forall|k: int| 0 <= k < zero_rows(row_state, from, to).len() implies from
            <= #[trigger] zero_rows(row_state, from, to)[k] < to by {
            if k < rest.len() {
                assert(zero_rows(row_state, from, to)[k] == rest[k]);
            }
        }
    }
}

/// A faithful run keeps the account. Once there are no more keys, that takes as many keys as the
/// input has rows.
proof fn run_keeps_account<B, E>(
    setup: Setup,
    row_state: Seq<usize>,
    events: Seq<Event<B, E>>,
)
    requires
        0 < setup.max_block_size <= u32::MAX,
        setup.input_num_rows <= u32::MAX + 1,
        starts_clear(setup, row_state),
        is_run(setup, row_state, events),
        is_faithful(setup, row_state, events),
        matches_told(events).len() <= u32::MAX + 1,
        state(setup, row_state, events).phase != Phase::Failed,
    ensures
        !after_keys(state(setup, row_state, events).phase) ==> accounts_for(
            setup,
            state(setup, row_state, events),
            matches_told(events),
            verdicts_told(setup, row_state, events),
        ),
        after_keys(state(setup, row_state, events).phase) && matches_told(events).len()
            == setup.input_num_rows ==> {
            &&& accounts_for_rest(
                setup,
                state(setup, row_state, events),
                kept_pairs(matches_told(events), verdicts_told(setup, row_state, events)),
            )
            &&& verdicts_told(setup, row_state, events).len() == matched_rows(
                matches_told(events),
            ).len()
        },
    decreases events.len(),
{
    let at = state(setup, row_state, events);
    if events.len() > 0 {
        let event = events.last();
        let past = events.drop_last();
        let before = state(setup, row_state, past);
        let matches = matches_told(past);
        let verdicts = verdicts_told(setup, row_state, past);
        run_keeps_account(setup, row_state, past);
        if !(event is Filters) {
            assert(verdicts + verdicts_at(before, event) =~= verdicts);
        }
        if event is KeysExhausted {
            if matches.len() == setup.input_num_rows {
                assert(waiting(before) =~= Seq::empty());
                assert forall|row: int| 0 <= row < setup.input_num_rows implies (
                #[trigger] before.row_state[row]) == pair_count(
                    kept_pairs(matches, verdicts),
                    row,
                ) by {
                    assert(pair_count(waiting(before), row) == 0);
                }
                assert(shown_pairs(before.results) + being_filtered(before)
                    =~= shown_pairs(before.results));
                scan_keeps_account(setup, before, kept_pairs(matches, verdicts));
            }
        } else if after_keys(before.phase) {
            if matches.len() == setup.input_num_rows {
                rest_keeps_account(setup, before, event, kept_pairs(matches, verdicts));
            }
        } else {
            event_keeps_account(setup, before, event, matches, verdicts);
        }
    } else {
        assert(expand(at.probe_indexes) =~= Seq::empty());
        assert(waiting(at) =~= Seq::empty());
        assert(shown_pairs(at.results) + being_filtered(at) =~= Seq::empty());
        assert(kept_pairs(matches_told(events), verdicts_told(setup, row_state, events))
            =~= Seq::empty());
        assert(matched_rows(matches_told(events)).take(0) + waiting(at) =~= matched_rows(
            matches_told(events),
        ));
    }
}

/// One event keeps the account once there are no more keys.
proof fn rest_keeps_account<B, E>(
    setup: Setup,
    at: ConjunctView<B, E>,
    event: Event<B, E>,
    kept: Seq<(int, RowPtr)>,
)
    requires
        0 < setup.max_block_size,
        setup.input_num_rows <= u32::MAX + 1,
        accounts_for_rest(setup, at, kept),
        at.accepts(setup, event),
        at.next(setup, event).phase != Phase::Failed,
    ensures
        accounts_for_rest(setup, at.next(setup, event), kept),
{
    match event {
        Event::BlockBuilt { data, num_rows } => {
            let made = ConjunctView {
                block: None,
                block_runs: Seq::empty(),
                ..at.keep_block(data)
            };
            assert(made.results.drop_last() =~= at.results);
            assert(made.results.last().pairs() =~= Seq::empty());
            assert(shown_pairs(made.results) =~= kept);
            assert(shown_null_rows(made.results) =~= rows_without_pair(kept, at.scan_row));
            if at.phase == Phase::NullBlock {
                scan_keeps_account(setup, made, kept);
            } else {
                let next = at.next(setup, event);
                assert(shown_null_rows(next.results) + block_null_rows(next.block, next.block_runs)
                    =~= rows_without_pair(kept, at.scan_row));
            }
        },
        _ => {},
    }
}

/// Whether the counts of the rows of the input are zero at the start. Where they do not reach, new
/// ones are used, which are.
pub open spec fn starts_clear(setup: Setup, row_state: Seq<usize>) -> bool {
    setup.input_num_rows <= row_state.len() ==> forall|row: int|
        0 <= row < setup.input_num_rows ==> (#[trigger] row_state[row]) == 0
}

/// The counts that a probe uses that is given the counts `row_state`.
pub open spec fn counts_used(setup: Setup, row_state: Seq<usize>) -> Seq<usize> {
    if setup.input_num_rows > row_state.len() {
        Seq::new(setup.input_num_rows, |row: int| 0usize)
    } else {
        row_state
    }
}

/// Whether `results` are the left join of probe rows that have the build rows `matches` as matches,
/// where `verdicts` says of each joined pair whether it meets the other conditions: they show the
/// pairs that do, in order, and each probe row of which no pair does with nulls, in order; and each
/// is made of the rows that it stands for, of at least one, and of no more than fit, and has the
/// columns that the join is to show.
pub open spec fn is_left_join<B>(
    setup: Setup,
    results: Seq<ResultView<B>>,
    matches: Seq<Seq<RowPtr>>,
    verdicts: Seq<bool>,
) -> bool {
    let pairs = matched_rows(matches);
    &&& verdicts.len() == pairs.len()
    &&& shown_pairs(results) == select(pairs, verdicts)
    &&& shown_null_rows(results) == rows_without_pair(select(pairs, verdicts), matches.len())
    &&& sized(results, setup.max_block_size)
    &&& all_fit(results, setup.is_probe_projected)
    &&& all_have_columns(setup, results)
}

/// Once every row of the input was probed, each joined pair was put to the other conditions, and
/// the result is the left join.
///
/// Rows are told apart by 32 bits, and so are the matches of a row within a block.
pub proof fn result_is_the_left_join<B, E>(
    setup: Setup,
    row_state: Seq<usize>,
    events: Seq<Event<B, E>>,
)
    requires
        0 < setup.max_block_size <= u32::MAX,
        setup.input_num_rows <= u32::MAX + 1,
        starts_clear(setup, row_state),
        is_run(setup, row_state, events),
        is_faithful(setup, row_state, events),
        state(setup, row_state, events).phase == Phase::Finished,
        matches_told(events).len() == setup.input_num_rows,
    ensures
        is_left_join(
            setup,
            state(setup, row_state, events).results,
            matches_told(events),
            verdicts_told(setup, row_state, events),
        ),
{
    let at = state(setup, row_state, events);
    let pairs = matched_rows(matches_told(events));
    let verdicts = verdicts_told(setup, row_state, events);
    run_keeps_account(setup, row_state, events);
    every_block_has_its_columns(setup, row_state, events);
    assert(pairs.take(verdicts.len() as int) =~= pairs);
    assert(shown_null_rows(at.results) + block_null_rows(at.block, at.block_runs)
        =~= shown_null_rows(at.results));
}

/// At any time, every block of a probe, made or to be made, has the columns that the join is to
/// show.
pub proof fn every_block_has_its_columns<B, E>(
    setup: Setup,
    row_state: Seq<usize>,
    events: Seq<Event<B, E>>,
)
    requires
        is_run(setup, row_state, events),
    ensures
        all_have_columns(setup, state(setup, row_state, events).results),
        state(setup, row_state, events).block matches Some(block) ==> has_columns(setup, block),
        state(setup, row_state, events).has_block() <==> state(
            setup,
            row_state,
            events,
        ).block is Some,
    decreases events.len(),
{
    if events.len() > 0 {
        let past = events.drop_last();
        let before = state(setup, row_state, past);
        every_block_has_its_columns(setup, row_state, past);
        match events.last() {
            Event::KeysExhausted => scan_shows_nulls(setup, before),
            Event::BlockBuilt { data, .. } => {
                let made = ConjunctView {
                    block: None,
                    block_runs: Seq::empty(),
                    ..before.keep_block(data)
                };
                scan_shows_nulls(setup, made);
            },
            Event::Interrupt { .. } => matched_rows_show_their_build_rows(
                setup,
                before.probe_indexes,
                before.build_indexes,
            ),
            _ => {},
        }
    }
}

proof fn scan_shows_nulls<B, E>(setup: Setup, at: ConjunctView<B, E>)
    requires
        at.block is None,
    ensures
        at.scan(setup).block matches Some(block) ==> has_columns(setup, block),
{
    let limit = if setup.max_block_size == 0 {
        1
    } else {
        setup.max_block_size as int
    };
    let rows = scan_rows(at.row_state, at.scan_row as int, setup.input_num_rows as int, limit);
    rows_without_a_match_show_nulls(setup, single_runs(rows), rows.len());
}

/// Rows without a pair that are found early are found again.
proof fn first_rows_without_pair(pairs: Seq<(int, RowPtr)>, first: nat, n: nat)
    requires
        first <= n,
    ensures
        rows_without_pair(pairs, first).is_prefix_of(rows_without_pair(pairs, n)),
    decreases n - first,
{
    if first < n {
        first_rows_without_pair(pairs, first, (n - 1) as nat);
    }
}

/// Where a key is asked for, the pairs that wait are those that were told and not yet put to the
/// other conditions, in order.
pub proof fn pairs_wait_for_the_other_conditions<B, E>(
    setup: Setup,
    row_state: Seq<usize>,
    events: Seq<Event<B, E>>,
)
    requires
        0 < setup.max_block_size <= u32::MAX,
        setup.input_num_rows <= u32::MAX + 1,
        starts_clear(setup, row_state),
        is_run(setup, row_state, events),
        is_faithful(setup, row_state, events),
        matches_told(events).len() <= u32::MAX + 1,
        state(setup, row_state, events).phase == Phase::Key,
    ensures
        ({
            let at = state(setup, row_state, events);
            let told = matched_rows(matches_told(events));
            let judged = verdicts_told(setup, row_state, events).len() as int;
            &&& at.build_indexes.len() == told.len() - judged
            &&& at.build_indexes == build_rows(told.skip(judged))
        }),
{
    let at = state(setup, row_state, events);
    let told = matched_rows(matches_told(events));
    let judged = verdicts_told(setup, row_state, events).len() as int;
    run_keeps_account(setup, row_state, events);
    assert(told.skip(judged) =~= pair_up(at.probe_indexes, at.build_indexes)) by {
        let both = told.take(judged) + pair_up(at.probe_indexes, at.build_indexes);
        assert(both.skip(judged) =~= pair_up(at.probe_indexes, at.build_indexes));
    }
    assert(build_rows(told.skip(judged)) =~= at.build_indexes);
}

/// At any time, what a probe shows is the beginning of its result: no row is shown twice or out of
/// turn, and no row without a match before every row of the input was probed.
pub proof fn result_grows_in_order<B, E>(
    setup: Setup,
    row_state: Seq<usize>,
    events: Seq<Event<B, E>>,
)
    requires
        0 < setup.max_block_size <= u32::MAX,
        setup.input_num_rows <= u32::MAX + 1,
        starts_clear(setup, row_state),
        is_run(setup, row_state, events),
        is_faithful(setup, row_state, events),
        matches_told(events).len() <= u32::MAX + 1,
        state(setup, row_state, events).phase != Phase::Failed,
        after_keys(state(setup, row_state, events).phase) ==> matches_told(events).len()
            == setup.input_num_rows,
    ensures
        ({
            let results = state(setup, row_state, events).results;
            let kept = kept_pairs(matches_told(events), verdicts_told(setup, row_state, events));
            &&& shown_pairs(results).is_prefix_of(kept)
            &&& shown_null_rows(results).is_prefix_of(
                rows_without_pair(kept, setup.input_num_rows),
            )
            &&& !after_keys(state(setup, row_state, events).phase) ==> shown_null_rows(
                results,
            ).len() == 0
        }),
{
    let at = state(setup, row_state, events);
    let kept = kept_pairs(matches_told(events), verdicts_told(setup, row_state, events));
    let pairs = shown_pairs(at.results);
    let alone = shown_null_rows(at.results);
    run_keeps_account(setup, row_state, events);
    assert(pairs =~= kept.take(pairs.len() as int));
    if after_keys(at.phase) {
        first_rows_without_pair(kept, at.scan_row, setup.input_num_rows);
        assert(alone =~= rows_without_pair(kept, setup.input_num_rows).take(alone.len() as int));
    } else {
        assert(alone =~= rows_without_pair(kept, setup.input_num_rows).take(0));
    }
}

/// Whether every pair that was put to the other conditions meets them.
pub open spec fn all_met(verdicts: Seq<bool>) -> bool {
    forall|k: int| 0 <= k < verdicts.len() ==> #[trigger] verdicts[k]
}

/// With conditions that every pair meets, the join is the one without them.
pub proof fn conditions_that_hold_change_nothing<B, E>(
    setup: Setup,
    row_state: Seq<usize>,
    events: Seq<Event<B, E>>,
)
    requires
        0 < setup.max_block_size <= u32::MAX,
        setup.input_num_rows <= u32::MAX + 1,
        starts_clear(setup, row_state),
        is_run(setup, row_state, events),
        is_faithful(setup, row_state, events),
        state(setup, row_state, events).phase == Phase::Finished,
        matches_told(events).len() == setup.input_num_rows,
        all_met(verdicts_told(setup, row_state, events)),
    ensures
        shown_pairs(state(setup, row_state, events).results) == matched_rows(matches_told(events)),
        shown_null_rows(state(setup, row_state, events).results) == unmatched_rows(
            matches_told(events),
        ),
{
    let pairs = matched_rows(matches_told(events));
    let verdicts = verdicts_told(setup, row_state, events);
    result_is_the_left_join(setup, row_state, events);
    assert(verdicts =~= all_set(pairs.len()));
    select_all(pairs, pairs.len());
    rows_without_pair_are_unmatched(matches_told(events));
}

/// What holds of the blocks of every run, faithful or not.
spec fn has_ptrs<B, E>(at: ConjunctView<B, E>) -> bool {
    &&& at.has_block() <==> at.block is Some
    &&& at.phase == Phase::Filtered <==> at.filter is Some
    &&& at.phase == Phase::Block || at.phase == Phase::Filters || at.phase == Phase::Filtered
        ==> at.block.unwrap().build_indexes is Some
    &&& after_keys(at.phase) && at.block is Some ==> at.block.unwrap().build_indexes is None
}

/// The pairs that stay, of those that were put to the other conditions.
spec fn shown_or_being_filtered<B, E>(at: ConjunctView<B, E>) -> Seq<(int, RowPtr)> {
    shown_pairs(at.results) + being_filtered(at)
}

proof fn run_marks_what_stays<B, E>(
    setup: Setup,
    row_state: Seq<usize>,
    events: Seq<Event<B, E>>,
)
    requires
        is_run(setup, row_state, events),
    ensures
        has_ptrs(state(setup, row_state, events)),
        state(setup, row_state, events).phase != Phase::Failed ==> run_marks(
            setup,
            row_state,
            events,
        ) == if setup.join_type == JoinType::Full {
            build_rows(shown_or_being_filtered(state(setup, row_state, events)))
        } else {
            Seq::empty()
        },
    decreases events.len(),
{
    let at = state(setup, row_state, events);
    let full = setup.join_type == JoinType::Full;
    if events.len() > 0 {
        let before = state(setup, row_state, events.drop_last());
        let marks = before.marks(setup, events.last());
        run_marks_what_stays(setup, row_state, events.drop_last());
        if at.phase != Phase::Failed {
            match events.last() {
                Event::Filters { bits, all_true, all_false, .. } => {
                    let pairs = block_pairs(before.block, before.block_runs);
                    let stays = verdicts_at(before, events.last());
                    assert(build_rows(pairs) =~= before.block_ptrs());
                    select_build_rows(pairs, stays);
                    if all_true {
                        select_all(pairs, pairs.len());
                        assert(at.results.drop_last() =~= before.results);
                    } else if all_false {
                        select_none(pairs, pairs.len());
                    } else {
                        select_by_first_bits(pairs, bits.unwrap(), pairs.len() as int);
                    }
                    assert(shown_or_being_filtered(at) =~= shown_or_being_filtered(before)
                        + select(pairs, stays));
                    assert(build_rows(shown_or_being_filtered(at)) =~= build_rows(
                        shown_or_being_filtered(before),
                    ) + build_rows(select(pairs, stays)));
                },
                Event::BlockFiltered { .. } => {
                    assert(at.results.drop_last() =~= before.results);
                    assert(shown_or_being_filtered(at) =~= shown_or_being_filtered(before));
                    assert(marks =~= Seq::empty());
                },
                Event::BlockBuilt { .. } => {
                    if at.results.len() > before.results.len() {
                        assert(at.results.drop_last() =~= before.results);
                        assert(at.results.last().pairs() =~= Seq::empty());
                    }
                    assert(shown_or_being_filtered(at) =~= shown_or_being_filtered(before));
                    assert(marks =~= Seq::empty());
                },
                _ => {
                    assert(at.results == before.results);
                    assert(marks =~= Seq::empty());
                },
            }
            assert(run_marks(setup, row_state, events) =~= if full {
                build_rows(shown_or_being_filtered(at))
            } else {
                Seq::empty()
            });
        }
    } else {
        assert(build_rows(shown_or_being_filtered(at)) =~= Seq::empty());
    }
}

/// A full join sets the flags of exactly the build rows that its result shows; no other join sets
/// any. (While a block is being filtered, the flags of its rows are set already.)
pub proof fn flags_are_of_shown_rows<B, E>(
    setup: Setup,
    row_state: Seq<usize>,
    events: Seq<Event<B, E>>,
)
    requires
        is_run(setup, row_state, events),
        state(setup, row_state, events).phase != Phase::Failed,
        state(setup, row_state, events).phase != Phase::Filtered,
    ensures
        run_marks(setup, row_state, events) == if setup.join_type == JoinType::Full {
            build_rows(shown_pairs(state(setup, row_state, events).results))
        } else {
            Seq::empty()
        },
{
    let at = state(setup, row_state, events);
    run_marks_what_stays(setup, row_state, events);
    assert(shown_or_being_filtered(at) =~= shown_pairs(at.results));
}

/// What a probe knows of the number of matches.
spec fn counts_matches<B, E>(
    setup: Setup,
    at: ConjunctView<B, E>,
    matches: Seq<Seq<RowPtr>>,
) -> bool {
    &&& within_row(at.phase) && !after_keys(at.phase) ==> matches.len() > 0 && at.row_matched == (
    matches.last().len() > 0)
    &&& at.error is Some <==> at.phase == Phase::Failed
    &&& at.error == Some(ErrorCode::<E>::Internal) ==> {
        &&& setup.join_type == JoinType::LeftSingle
        &&& matches.len() > 0
        &&& matches[matches.len() - 1].len() > 1
    }
    &&& setup.join_type == JoinType::LeftSingle && at.error != Some(ErrorCode::<E>::Internal)
        ==> forall|row: int| 0 <= row < matches.len() ==> (#[trigger] matches[row]).len() <= 1
}

proof fn run_counts_matches<B, E>(
    setup: Setup,
    row_state: Seq<usize>,
    events: Seq<Event<B, E>>,
)
    requires
        is_run(setup, row_state, events),
    ensures
        counts_matches(setup, state(setup, row_state, events), matches_told(events)),
    decreases events.len(),
{
    if events.len() > 0 {
        run_counts_matches(setup, row_state, events.drop_last());
        let matches = matches_told(events.drop_last());
        let told = matches_told(events);
        match events.last() {
            Event::Probed { matched, .. } => {
                assert(told[told.len() - 1] == matched);
                assert forall|row: int| 0 <= row < matches.len() implies #[trigger] told[row]
                    == matches[row] by {}
            },
            Event::Continued { matched, .. } => {
                assert(matches[matches.len() - 1] == matches.last());
                assert(told[told.len() - 1] == matches.last() + matched);
                assert forall|row: int| 0 <= row < matches.len() - 1 implies #[trigger] told[row]
                    == matches[row] by {}
            },
            _ => {},
        }
    }
}

/// A join for a scalar subquery fails as soon as a row has two matches, and only then; no other
/// join fails on that account. That is so whatever the other conditions would say of the matches.
pub proof fn scalar_subquery_has_one_row<B, E>(
    setup: Setup,
    row_state: Seq<usize>,
    events: Seq<Event<B, E>>,
)
    requires
        is_run(setup, row_state, events),
    ensures
        state(setup, row_state, events).error == Some(ErrorCode::<E>::Internal) <==> {
            &&& setup.join_type == JoinType::LeftSingle
            &&& exists|row: int|
                0 <= row < matches_told(events).len() && (#[trigger] matches_told(
                    events,
                )[row]).len() > 1
        },
{
    run_counts_matches(setup, row_state, events);
}

/// A query is reported as aborted exactly when its interruption was the last thing told, and the
/// failure of a block is handed on as it was told; a probe that has ended waits for nothing more.
pub proof fn error_tells_its_cause<B, E>(
    setup: Setup,
    row_state: Seq<usize>,
    events: Seq<Event<B, E>>,
)
    requires
        is_run(setup, row_state, events),
    ensures
        state(setup, row_state, events).error == Some(ErrorCode::<E>::AbortedQuery)
            <==> events.len() > 0 && events.last() == (Event::<B, E>::Interrupt {
            interrupted: true,
        }),
        forall|error: E|
            state(setup, row_state, events).error == Some(ErrorCode::Block(error))
                <==> events.len() > 0 && events.last() == (Event::<B, E>::BlockFailed { error }),
        state(setup, row_state, events).error is Some <==> state(setup, row_state, events).phase
            == Phase::Failed,
        state(setup, row_state, events).error is Some ==> forall|event: Event<B, E>|
            !state(setup, row_state, events).accepts(setup, event),
        state(setup, row_state, events).phase == Phase::Finished ==> forall|event: Event<B, E>|
            !state(setup, row_state, events).accepts(setup, event),
{
    run_counts_matches(setup, row_state, events);
    if events.len() > 0 {
        run_counts_matches(setup, row_state, events.drop_last());
    }
}

/// No block of matched rows is made unless the query was seen not to be interrupted just before.
pub proof fn interruption_is_seen_before_each_block<B, E>(
    setup: Setup,
    row_state: Seq<usize>,
    events: Seq<Event<B, E>>,
)
    requires
        is_run(setup, row_state, events),
        state(setup, row_state, events).phase == Phase::Block,
    ensures
        events.len() > 0,
        events.last() == (Event::<B, E>::Interrupt { interrupted: false }),
{
}

/// Whether the hash table stops a search short of the end only for want of room, having found
/// something, at each event of `events`.
pub open spec fn stops_only_when_full<B, E>(
    setup: Setup,
    row_state: Seq<usize>,
    events: Seq<Event<B, E>>,
) -> bool
    decreases events.len(),
{
    events.len() > 0 ==> {
        &&& stops_only_when_full(setup, row_state, events.drop_last())
        &&& stops_when_full(
            setup,
            state(setup, row_state, events.drop_last()).build_indexes.len(),
            events.last(),
        )
    }
}

/// No search for matches is given up: a probe turns to another key, or to the rows without a match,
/// only when the search for matches of the key before is complete.
pub proof fn searches_are_completed<B, E>(
    setup: Setup,
    row_state: Seq<usize>,
    events: Seq<Event<B, E>>,
)
    requires
        is_run(setup, row_state, events),
        stops_only_when_full(setup, row_state, events),
        state(setup, row_state, events).phase == Phase::Key || after_keys(
            state(setup, row_state, events).phase,
        ),
    ensures
        state(setup, row_state, events).incomplete_ptr == 0,
{
    run_completes_searches(setup, row_state, events);
}

proof fn run_completes_searches<B, E>(
    setup: Setup,
    row_state: Seq<usize>,
    events: Seq<Event<B, E>>,
)
    requires
        is_run(setup, row_state, events),
        stops_only_when_full(setup, row_state, events),
    ensures
        state(setup, row_state, events).phase == Phase::Key || after_keys(
            state(setup, row_state, events).phase,
        ) ==> state(setup, row_state, events).incomplete_ptr == 0,
    decreases events.len(),
{
    if events.len() > 0 {
        run_completes_searches(setup, row_state, events.drop_last());
    }
}

/// What holds of every run, faithful or not, of the rows that it goes by.
spec fn goes_by_rows<B, E>(
    setup: Setup,
    first: Seq<usize>,
    at: ConjunctView<B, E>,
    told: nat,
) -> bool {
    &&& at.phase != Phase::NullInterrupt
    &&& !after_keys(at.phase) && at.phase != Phase::Failed ==> {
        &&& told == at.row + if within_row(at.phase) {
            1nat
        } else {
            0nat
        }
        &&& at.scan_row == 0
    }
    &&& at.phase == Phase::Incomplete || at.phase == Phase::Block || at.phase == Phase::Filters
        || at.phase == Phase::Filtered ==> at.build_indexes.len() == 0
    &&& at.scan_row <= setup.input_num_rows <= at.row_state.len()
    &&& at.row_state.len() == first.len()
    &&& at.phase == Phase::LastNullBlock || at.phase == Phase::Finished ==> at.scan_row
        == setup.input_num_rows
    &&& after_keys(at.phase) ==> forall|row: int|
        0 <= row < at.scan_row ==> (#[trigger] at.row_state[row]) == 0
}

/// A scan goes by the rows in order.
proof fn scan_goes_by_rows<B, E>(setup: Setup, at: ConjunctView<B, E>)
    requires
        at.scan_row <= setup.input_num_rows <= at.row_state.len(),
        forall|row: int| 0 <= row < at.scan_row ==> (#[trigger] at.row_state[row]) == 0,
    ensures
        ({
            let next = at.scan(setup);
            &&& at.scan_row <= next.scan_row <= setup.input_num_rows
            &&& next.row_state == with_zeros(
                at.row_state,
                at.scan_row as int,
                next.scan_row as int,
            )
            &&& after_keys(next.phase)
            &&& next.phase != Phase::NullBlock ==> next.scan_row == setup.input_num_rows
            &&& next.phase == Phase::NullBlock && setup.max_block_size > 0
                ==> next.block.unwrap().num_rows == setup.max_block_size
            &&& forall|row: int|
                0 <= row < next.scan_row ==> (#[trigger] next.row_state[row]) == 0
        }),
{
    let limit = if setup.max_block_size == 0 {
        1
    } else {
        setup.max_block_size as int
    };
    scan_finds_up_to_stop(
        at.row_state,
        at.scan_row as int,
        setup.input_num_rows as int,
        limit,
    );
    let next = at.scan(setup);
    assert forall|row: int| 0 <= row < next.scan_row implies (
    #[trigger] next.row_state[row]) == 0 by {
        if row < at.scan_row {
            assert(at.row_state[row] == 0);
        }
    }
}

#[verifier::rlimit(30)]
proof fn run_goes_by_rows<B, E>(
    setup: Setup,
    row_state: Seq<usize>,
    events: Seq<Event<B, E>>,
)
    requires
        is_run(setup, row_state, events),
    ensures
        goes_by_rows(
            setup,
            counts_used(setup, row_state),
            state(setup, row_state, events),
            matches_told(events).len(),
        ),
    decreases events.len(),
{
    if events.len() > 0 {
        let past = events.drop_last();
        let before = state(setup, row_state, past);
        run_goes_by_rows(setup, row_state, past);
        match events.last() {
            Event::KeysExhausted => scan_goes_by_rows(setup, before),
            Event::BlockBuilt { data, .. } => {
                if before.phase == Phase::NullBlock {
                    let made = ConjunctView {
                        block: None,
                        block_runs: Seq::empty(),
                        ..before.keep_block(data)
                    };
                    scan_goes_by_rows(setup, made);
                }
            },
            _ => {},
        }
    }
}

/// Whether the counts beyond the rows of the input are as they were.
spec fn leaves_other_counts<B, E>(
    setup: Setup,
    first: Seq<usize>,
    at: ConjunctView<B, E>,
) -> bool {
    &&& forall|row: int|
        setup.input_num_rows <= row < first.len() ==> #[trigger] at.row_state[row] == first[row]
    &&& forall|k: int|
        0 <= k < at.row_state_indexes.len() ==> (#[trigger] at.row_state_indexes[k])
            < setup.input_num_rows
}

proof fn run_leaves_other_counts<B, E>(
    setup: Setup,
    row_state: Seq<usize>,
    events: Seq<Event<B, E>>,
)
    requires
        setup.input_num_rows <= usize::MAX,
        is_run(setup, row_state, events),
        matches_told(events).len() <= setup.input_num_rows,
    ensures
        leaves_other_counts(
            setup,
            counts_used(setup, row_state),
            state(setup, row_state, events),
        ),
    decreases events.len(),
{
    if events.len() > 0 {
        let past = events.drop_last();
        let first = counts_used(setup, row_state);
        let before = state(setup, row_state, past);
        let at = state(setup, row_state, events);
        run_leaves_other_counts(setup, row_state, past);
        run_goes_by_rows(setup, row_state, past);
        run_goes_by_rows(setup, row_state, events);
        match events.last() {
            Event::Filters { .. } => {
                let stays = verdicts_at(before, events.last());
                assert(at.row_state == without_dropped(
                    before.row_state,
                    before.row_state_indexes,
                    stays,
                ));
                assert forall|row: int|
                    setup.input_num_rows <= row < first.len() implies #[trigger] at.row_state[row]
                    == first[row] by {
                    assert(before.row_state[row] == first[row]);
                    none_dropped_elsewhere(before.row_state_indexes, stays, row);
                }
            },
            Event::KeysExhausted => scan_goes_by_rows(setup, before),
            Event::BlockBuilt { data, .. } => {
                if before.phase == Phase::NullBlock {
                    let made = ConjunctView {
                        block: None,
                        block_runs: Seq::empty(),
                        ..before.keep_block(data)
                    };
                    scan_goes_by_rows(setup, made);
                }
            },
            _ => {},
        }
    }
}

/// A probe that has a result has set the counts of the rows of the input to zero, and left the
/// others as they were.
pub proof fn counts_end_clear<B, E>(
    setup: Setup,
    row_state: Seq<usize>,
    events: Seq<Event<B, E>>,
)
    requires
        setup.input_num_rows <= usize::MAX,
        is_run(setup, row_state, events),
        state(setup, row_state, events).phase == Phase::Finished,
        matches_told(events).len() <= setup.input_num_rows,
    ensures
        state(setup, row_state, events).row_state == with_zeros(
            counts_used(setup, row_state),
            0,
            setup.input_num_rows as int,
        ),
{
    run_goes_by_rows(setup, row_state, events);
    run_leaves_other_counts(setup, row_state, events);
    assert(state(setup, row_state, events).row_state =~= with_zeros(
        counts_used(setup, row_state),
        0,
        setup.input_num_rows as int,
    ));
}

/// Probes that use the same counts and are told the same go the same way.
proof fn same_counts_same_run<B, E>(
    setup: Setup,
    one: Seq<usize>,
    other: Seq<usize>,
    events: Seq<Event<B, E>>,
)
    requires
        counts_used(setup, one) == counts_used(setup, other),
    ensures
        state(setup, one, events) == state(setup, other, events),
        is_run(setup, one, events) == is_run(setup, other, events),
        run_marks(setup, one, events) == run_marks(setup, other, events),
    decreases events.len(),
{
    if events.len() > 0 {
        same_counts_same_run(setup, one, other, events.drop_last());
    }
}

/// A second probe with the counts that a first one left, told the same, gives the same blocks, sets
/// the same flags, and leaves the same counts.
pub proof fn probe_can_be_repeated<B, E>(
    setup: Setup,
    row_state: Seq<usize>,
    events: Seq<Event<B, E>>,
)
    requires
        setup.input_num_rows <= usize::MAX,
        starts_clear(setup, row_state),
        is_run(setup, row_state, events),
        state(setup, row_state, events).phase == Phase::Finished,
        matches_told(events).len() <= setup.input_num_rows,
    ensures
        ({
            let left = state(setup, row_state, events).row_state;
            &&& is_run(setup, left, events)
            &&& state(setup, left, events) == state(setup, row_state, events)
            &&& run_marks(setup, left, events) == run_marks(setup, row_state, events)
        }),
{
    let left = state(setup, row_state, events).row_state;
    counts_end_clear(setup, row_state, events);
    assert(left =~= counts_used(setup, row_state));
    same_counts_same_run(setup, row_state, left, events);
}

/// What a probe has made of its blocks of rows without a match.
spec fn fills_null_blocks<B, E>(setup: Setup, at: ConjunctView<B, E>) -> bool {
    &&& full_but_last(at.results, false, setup.max_block_size)
    &&& joined_first(at.results)
    &&& at.phase != Phase::Finished && at.phase != Phase::Failed ==> all_full(
        at.results,
        false,
        setup.max_block_size,
    )
    &&& !after_keys(at.phase) && at.phase != Phase::Failed ==> forall|k: int|
        0 <= k < at.results.len() ==> (#[trigger] at.results[k]).is_joined()
    &&& at.phase == Phase::NullBlock ==> at.block.unwrap().num_rows == setup.max_block_size
}

proof fn run_fills_null_blocks<B, E>(
    setup: Setup,
    row_state: Seq<usize>,
    events: Seq<Event<B, E>>,
)
    requires
        0 < setup.max_block_size,
        is_run(setup, row_state, events),
    ensures
        fills_null_blocks(setup, state(setup, row_state, events)),
    decreases events.len(),
{
    if events.len() > 0 {
        let past = events.drop_last();
        let before = state(setup, row_state, past);
        let at = state(setup, row_state, events);
        run_fills_null_blocks(setup, row_state, past);
        run_goes_by_rows(setup, row_state, past);
        run_marks_what_stays(setup, row_state, past);
        match events.last() {
            Event::KeysExhausted => scan_goes_by_rows(setup, before),
            Event::BlockBuilt { data, .. } => {
                let made = ConjunctView {
                    block: None,
                    block_runs: Seq::empty(),
                    ..before.keep_block(data)
                };
                if before.phase == Phase::NullBlock {
                    scan_goes_by_rows(setup, made);
                }
                one_more_block(
                    before.results,
                    made.results.last(),
                    false,
                    setup.max_block_size,
                );
            },
            Event::Filters { data, .. } => {
                one_more_block(
                    before.results,
                    before.keep_block(data).results.last(),
                    false,
                    setup.max_block_size,
                );
            },
            Event::BlockFiltered { data } => {
                one_more_block(
                    before.results,
                    before.keep_block(data).results.last(),
                    false,
                    setup.max_block_size,
                );
            },
            _ => {},
        }
    }
}

/// What a probe has made of its blocks of joined pairs.
spec fn fills_joined_blocks<B, E>(setup: Setup, at: ConjunctView<B, E>) -> bool {
    let last = at.row == setup.input_num_rows - 1 && at.incomplete_ptr == 0;
    &&& full_but_last(at.results, true, setup.max_block_size)
    &&& at.phase != Phase::Failed ==> all_full(at.results, true, setup.max_block_size) || (
    !within_row(at.phase) || after_keys(at.phase)) && at.row == setup.input_num_rows
    &&& at.phase == Phase::Interrupt ==> at.build_indexes.len() == setup.max_block_size || last
    &&& at.phase == Phase::Block || at.phase == Phase::Filters || at.phase == Phase::Filtered
        ==> at.block.unwrap().num_rows == setup.max_block_size || last
}

proof fn run_fills_joined_blocks<B, E>(
    setup: Setup,
    row_state: Seq<usize>,
    events: Seq<Event<B, E>>,
)
    requires
        0 < setup.max_block_size,
        is_run(setup, row_state, events),
        stops_only_when_full(setup, row_state, events),
        matches_told(events).len() <= setup.input_num_rows,
    ensures
        fills_joined_blocks(setup, state(setup, row_state, events)),
    decreases events.len(),
{
    if events.len() > 0 {
        let past = events.drop_last();
        let before = state(setup, row_state, past);
        run_fills_joined_blocks(setup, row_state, past);
        run_goes_by_rows(setup, row_state, past);
        run_goes_by_rows(setup, row_state, events);
        run_marks_what_stays(setup, row_state, past);
        match events.last() {
            Event::BlockBuilt { data, .. } => {
                one_more_block(
                    before.results,
                    before.keep_block(data).results.last(),
                    true,
                    setup.max_block_size,
                );
            },
            Event::Filters { data, .. } => {
                one_more_block(
                    before.results,
                    before.keep_block(data).results.last(),
                    true,
                    setup.max_block_size,
                );
            },
            Event::BlockFiltered { data } => {
                one_more_block(
                    before.results,
                    before.keep_block(data).results.last(),
                    true,
                    setup.max_block_size,
                );
            },
            _ => {},
        }
    }
}

/// At any time, every block of rows without a match but the last is full, and the blocks of joined
/// pairs come before them all.
pub proof fn null_blocks_come_last<B, E>(
    setup: Setup,
    row_state: Seq<usize>,
    events: Seq<Event<B, E>>,
)
    requires
        0 < setup.max_block_size,
        is_run(setup, row_state, events),
    ensures
        full_but_last(state(setup, row_state, events).results, false, setup.max_block_size),
        joined_first(state(setup, row_state, events).results),
{
    run_fills_null_blocks(setup, row_state, events);
}

/// At any time, every block of joined pairs but the last was full before the other conditions took
/// rows from it.
pub proof fn joined_blocks_are_full_but_the_last<B, E>(
    setup: Setup,
    row_state: Seq<usize>,
    events: Seq<Event<B, E>>,
)
    requires
        0 < setup.max_block_size,
        is_run(setup, row_state, events),
        stops_only_when_full(setup, row_state, events),
        matches_told(events).len() <= setup.input_num_rows,
    ensures
        full_but_last(state(setup, row_state, events).results, true, setup.max_block_size),
{
    run_fills_joined_blocks(setup, row_state, events);
}

/// The result has no more blocks of rows without a match than it takes for them.
pub proof fn result_has_no_more_null_blocks_than_it_takes<B, E>(
    setup: Setup,
    row_state: Seq<usize>,
    events: Seq<Event<B, E>>,
)
    requires
        0 < setup.max_block_size <= u32::MAX,
        setup.input_num_rows <= u32::MAX + 1,
        starts_clear(setup, row_state),
        is_run(setup, row_state, events),
        is_faithful(setup, row_state, events),
        state(setup, row_state, events).phase == Phase::Finished,
        matches_told(events).len() == setup.input_num_rows,
    ensures
        block_count(state(setup, row_state, events).results, false) == blocks_for(
            rows_without_pair(
                kept_pairs(matches_told(events), verdicts_told(setup, row_state, events)),
                setup.input_num_rows,
            ).len(),
            setup.max_block_size,
        ),
{
    let results = state(setup, row_state, events).results;
    let pairs = matched_rows(matches_told(events));
    result_is_the_left_join(setup, row_state, events);
    assert(pairs.take(pairs.len() as int) =~= pairs);
    run_fills_null_blocks(setup, row_state, events);
    shown_rows_are_counted(results, setup.is_probe_projected);
    no_more_blocks_than_it_takes(results, false, setup.max_block_size);
}

/// The scan map after the run `events`, each step of which sets its flags, where it was `map`
/// before.
pub open spec fn scan_map_after<B, E>(
    setup: Setup,
    row_state: Seq<usize>,
    map: Seq<Seq<bool>>,
    events: Seq<Event<B, E>>,
) -> Seq<Seq<bool>>
    decreases events.len(),
{
    if events.len() == 0 {
        map
    } else {
        marked(
            scan_map_after(setup, row_state, map, events.drop_last()),
            state(setup, row_state, events.drop_last()).marks(setup, events.last()),
        )
    }
}

/// The steps of a run together set the flags of the run.
pub proof fn steps_set_the_flags_of_the_run<B, E>(
    setup: Setup,
    row_state: Seq<usize>,
    map: Seq<Seq<bool>>,
    events: Seq<Event<B, E>>,
)
    ensures
        scan_map_after(setup, row_state, map, events) == marked(
            map,
            run_marks(setup, row_state, events),
        ),
    decreases events.len(),
{
    if events.len() > 0 {
        let past = events.drop_last();
        steps_set_the_flags_of_the_run(setup, row_state, map, past);
        marked_in_turn(
            map,
            run_marks(setup, row_state, past),
            state(setup, row_state, past).marks(setup, events.last()),
        );
    } else {
        marked_nothing(map);
    }
}

/// Whether the probe has ended of itself: with a result, or because a scalar subquery has more than
/// one row.
pub open spec fn ends_of_itself<B, E>(at: ConjunctView<B, E>) -> bool {
    at.phase == Phase::Finished || at.error == Some(ErrorCode::<E>::Internal)
}

/// A probe that has a result was told all the matches of every row.
pub proof fn result_is_of_the_whole_table<B, E>(
    setup: Setup,
    row_state: Seq<usize>,
    table: Seq<Seq<RowPtr>>,
    events: Seq<Event<B, E>>,
)
    requires
        is_run(setup, row_state, events),
        stops_only_when_full(setup, row_state, events),
        answers(table, events),
        state(setup, row_state, events).phase == Phase::Finished,
    ensures
        matches_told(events) == table,
{
    run_completes_rows(setup, row_state, table, events);
    searches_are_completed(setup, row_state, events);
    assert(matches_told(events) =~= table);
}

proof fn run_completes_rows<B, E>(
    setup: Setup,
    row_state: Seq<usize>,
    table: Seq<Seq<RowPtr>>,
    events: Seq<Event<B, E>>,
)
    requires
        is_run(setup, row_state, events),
        stops_only_when_full(setup, row_state, events),
        answers(table, events),
    ensures
        forall|row: int|
            0 <= row < matches_told(events).len() && (row < matches_told(events).len() - 1 || state(
                setup,
                row_state,
                events,
            ).incomplete_ptr == 0) ==> #[trigger] matches_told(events)[row] == table[row],
        after_keys(state(setup, row_state, events).phase) ==> matches_told(events).len()
            == table.len(),
    decreases events.len(),
{
    if events.len() > 0 {
        let past = events.drop_last();
        let told = matches_told(events);
        run_completes_rows(setup, row_state, table, past);
        run_completes_searches(setup, row_state, past);
        assert forall|row: int|
            0 <= row < told.len() && (row < told.len() - 1 || state(
                setup,
                row_state,
                events,
            ).incomplete_ptr == 0) implies #[trigger] told[row] == table[row] by {
            if row < told.len() - 1 || told == matches_told(past) {
                assert(told[row] == matches_told(past)[row]);
            }
        }
    }
}

/// A probe that ends of itself has a result exactly when the table has, for a scalar subquery, one
/// match of each row at most.
pub proof fn result_depends_on_the_table<B, E>(
    setup: Setup,
    row_state: Seq<usize>,
    table: Seq<Seq<RowPtr>>,
    events: Seq<Event<B, E>>,
)
    requires
        is_run(setup, row_state, events),
        stops_only_when_full(setup, row_state, events),
        answers(table, events),
        ends_of_itself(state(setup, row_state, events)),
    ensures
        state(setup, row_state, events).phase == Phase::Finished <==> !(setup.join_type
            == JoinType::LeftSingle && exists|row: int|
            0 <= row < table.len() && (#[trigger] table[row]).len() > 1),
        state(setup, row_state, events).phase == Phase::Finished <==> state(
            setup,
            row_state,
            events,
        ).error is None,
{
    let at = state(setup, row_state, events);
    scalar_subquery_has_one_row(setup, row_state, events);
    error_tells_its_cause(setup, row_state, events);
    told_is_in_table(table, events);
    if at.phase == Phase::Finished {
        result_is_of_the_whole_table(setup, row_state, table, events);
    } else {
        let told = matches_told(events);
        let row = choose|row: int| 0 <= row < told.len() && (#[trigger] told[row]).len() > 1;
        assert(told[row].is_prefix_of(table[row]));
        assert(table[row].len() > 1);
    }
}

/// Where every pair meets the other conditions, every pair is in a block of the result, or in the
/// one that is being filtered.
proof fn run_keeps_every_pair<B, E>(
    setup: Setup,
    row_state: Seq<usize>,
    events: Seq<Event<B, E>>,
)
    requires
        0 < setup.max_block_size <= u32::MAX,
        setup.input_num_rows <= u32::MAX + 1,
        starts_clear(setup, row_state),
        is_run(setup, row_state, events),
        is_faithful(setup, row_state, events),
        matches_told(events).len() <= u32::MAX + 1,
        state(setup, row_state, events).phase != Phase::Failed,
        all_met(verdicts_told(setup, row_state, events)),
    ensures
        row_count(state(setup, row_state, events).results, true) + if state(
            setup,
            row_state,
            events,
        ).phase == Phase::Filtered {
            state(setup, row_state, events).block.unwrap().num_rows
        } else {
            0
        } == verdicts_told(setup, row_state, events).len(),
    decreases events.len(),
{
    if events.len() > 0 {
        let past = events.drop_last();
        let before = state(setup, row_state, past);
        let at = state(setup, row_state, events);
        let verdicts = verdicts_told(setup, row_state, past);
        let stays = verdicts_at(before, events.last());
        let judged = verdicts_told(setup, row_state, events);
        assert forall|k: int| 0 <= k < verdicts.len() implies #[trigger] verdicts[k] by {
            assert(judged[k]);
        }
        run_keeps_every_pair(setup, row_state, past);
        run_keeps_account(setup, row_state, past);
        run_marks_what_stays(setup, row_state, past);
        match events.last() {
            Event::Filters { all_true, all_false, .. } => {
                assert(before.block_ptrs().len() > 0);
                assert(judged[verdicts.len() as int] == stays[0]);
                if all_true {
                    assert(at.results.drop_last() =~= before.results);
                }
            },
            _ => {
                assert(judged =~= verdicts);
                if at.results.len() > before.results.len() {
                    assert(at.results.drop_last() =~= before.results);
                }
            },
        }
    }
}

/// With conditions that every pair meets, a probe goes as one without them: both have a result, or
/// both find that a scalar subquery has more than one row; and the results show the same joined
/// pairs and the same rows without a match, in as many blocks, and have set the same flags.
pub proof fn conditions_that_hold_can_be_left_out<B, E, C, F>(
    setup: Setup,
    row_state: Seq<usize>,
    table: Seq<Seq<RowPtr>>,
    events: Seq<Event<B, E>>,
    without: Seq<Event<C, F>>,
)
    requires
        0 < setup.max_block_size <= u32::MAX,
        table.len() == setup.input_num_rows <= u32::MAX + 1,
        starts_clear(setup, row_state),
        is_run(setup, row_state, events),
        is_faithful(setup, row_state, events),
        stops_only_when_full(setup, row_state, events),
        answers(table, events),
        ends_of_itself(state(setup, row_state, events)),
        all_met(verdicts_told(setup, row_state, events)),
        left_join_laws::is_run(setup, without),
        left_join_laws::is_faithful(setup, without),
        left_join_laws::stops_only_when_full(setup, without),
        answers(table, without),
        left_join_laws::ends_of_itself(left_join_laws::state(setup, without)),
    ensures
        state(setup, row_state, events).phase == left_join_laws::state(setup, without).phase,
        state(setup, row_state, events).phase == Phase::Finished ==> {
            let with = state(setup, row_state, events).results;
            let plain = left_join_laws::state(setup, without).results;
            &&& shown_pairs(with) == shown_pairs(plain)
            &&& shown_null_rows(with) == shown_null_rows(plain)
            &&& block_count(with, true) == block_count(plain, true)
            &&& block_count(with, false) == block_count(plain, false)
            &&& with.len() == plain.len()
            &&& run_marks(setup, row_state, events) == left_join_laws::run_marks(setup, without)
        },
{
    let with = state(setup, row_state, events).results;
    let plain = left_join_laws::state(setup, without).results;
    result_depends_on_the_table(setup, row_state, table, events);
    left_join_laws::result_depends_on_the_table(setup, table, without);
    error_tells_its_cause(setup, row_state, events);
    left_join_laws::error_tells_its_cause(setup, without);
    if state(setup, row_state, events).phase == Phase::Finished {
        result_is_of_the_whole_table(setup, row_state, table, events);
        left_join_laws::result_is_of_the_whole_table(setup, table, without);
        conditions_that_hold_change_nothing(setup, row_state, events);
        result_is_the_left_join(setup, row_state, events);
        left_join_laws::result_is_the_left_join(setup, without);
        left_join_laws::result_has_no_more_blocks_than_it_takes(setup, without);
        run_fills_null_blocks(setup, row_state, events);
        run_fills_joined_blocks(setup, row_state, events);
        run_keeps_every_pair(setup, row_state, events);
        shown_rows_are_counted(with, setup.is_probe_projected);
        no_more_blocks_than_it_takes(with, true, setup.max_block_size);
        no_more_blocks_than_it_takes(with, false, setup.max_block_size);
        blocks_are_of_two_kinds(with);
        blocks_are_of_two_kinds(plain);
        flags_are_of_shown_rows(setup, row_state, events);
        left_join_laws::flags_are_of_shown_rows(setup, without);
    }
}

/// Whether `verdicts` says of each of the first of `pairs` whether `meets` holds of it.
pub open spec fn judged_by(
    meets: spec_fn((int, RowPtr)) -> bool,
    pairs: Seq<(int, RowPtr)>,
    verdicts: Seq<bool>,
) -> bool {
    forall|k: int| 0 <= k < verdicts.len() ==> #[trigger] verdicts[k] == meets(pairs[k])
}

/// The size of a block does not matter: two probes of the same table with the same conditions both
/// have a result, or both end with the same error; and the results show the same joined pairs and
/// the same rows without a match, each in the same order, and have set the same flags.
pub proof fn block_size_does_not_matter<B, E>(
    one: Setup,
    other: Setup,
    row_state: Seq<usize>,
    other_state: Seq<usize>,
    table: Seq<Seq<RowPtr>>,
    meets: spec_fn((int, RowPtr)) -> bool,
    events: Seq<Event<B, E>>,
    others: Seq<Event<B, E>>,
)
    requires
        same_but_for_size(one, other),
        0 < one.max_block_size <= u32::MAX,
        0 < other.max_block_size <= u32::MAX,
        table.len() == one.input_num_rows <= u32::MAX + 1,
        starts_clear(one, row_state),
        is_run(one, row_state, events),
        is_faithful(one, row_state, events),
        stops_only_when_full(one, row_state, events),
        answers(table, events),
        ends_of_itself(state(one, row_state, events)),
        judged_by(meets, matched_rows(table), verdicts_told(one, row_state, events)),
        starts_clear(other, other_state),
        is_run(other, other_state, others),
        is_faithful(other, other_state, others),
        stops_only_when_full(other, other_state, others),
        answers(table, others),
        ends_of_itself(state(other, other_state, others)),
        judged_by(meets, matched_rows(table), verdicts_told(other, other_state, others)),
    ensures
        state(one, row_state, events).phase == state(other, other_state, others).phase,
        state(one, row_state, events).error == state(other, other_state, others).error,
        state(one, row_state, events).phase == Phase::Finished ==> {
            &&& shown_pairs(state(one, row_state, events).results) == shown_pairs(
                state(other, other_state, others).results,
            )
            &&& shown_null_rows(state(one, row_state, events).results) == shown_null_rows(
                state(other, other_state, others).results,
            )
            &&& run_marks(one, row_state, events) == run_marks(other, other_state, others)
        },
{
    result_depends_on_the_table(one, row_state, table, events);
    result_depends_on_the_table(other, other_state, table, others);
    error_tells_its_cause(one, row_state, events);
    error_tells_its_cause(other, other_state, others);
    if state(one, row_state, events).phase == Phase::Finished {
        result_is_of_the_whole_table(one, row_state, table, events);
        result_is_of_the_whole_table(other, other_state, table, others);
        result_is_the_left_join(one, row_state, events);
        result_is_the_left_join(other, other_state, others);
        assert(verdicts_told(one, row_state, events) =~= verdicts_told(
            other,
            other_state,
            others,
        ));
        flags_are_of_shown_rows(one, row_state, events);
        flags_are_of_shown_rows(other, other_state, others);
    }
}

} // verus!
