//! What holds of every probe of a left join without other conditions.
//!
//! A run is the list of events that a probe was told, from its start on. A run is faithful if the
//! hash table and the engine kept to what they are there for.
use crate::block::all_have_columns;
use crate::block::block_fits_rows;
use crate::block::block_null_rows;
use crate::block::block_pairs;
use crate::block::has_columns;
use crate::block::matched_rows_show_their_build_rows;
use crate::block::rows_without_a_match_show_nulls;
use crate::block::shown_null_rows;
use crate::block::shown_pairs;
use crate::block::ResultView;
use crate::event::answers;
use crate::event::matches_told;
use crate::event::stops_when_full;
use crate::event::told_is_in_table;
use crate::event::with_told;
use crate::event::within_row;
use crate::event::Event;
use crate::event::Phase;
use crate::join::ErrorCode;
use crate::join::JoinType;
use crate::join::Setup;
use crate::left_join::LeftJoinView;
use crate::rows::all_single;
use crate::rows::build_rows;
use crate::rows::expand;
use crate::rows::expand_single;
use crate::rows::matched_rows;
use crate::rows::pair_up;
use crate::rows::pair_up_push;
use crate::rows::row_pairs;
use crate::rows::rows_of_more_matches;
use crate::rows::rows_of_one_more;
use crate::rows::run_rows;
use crate::rows::unmatched_rows;
use crate::scan_map::marked;
use crate::scan_map::marked_in_turn;
use crate::scan_map::marked_nothing;
use crate::scan_map::RowPtr;
use crate::shape::all_fit;
use crate::shape::all_full;
use crate::shape::block_count;
use crate::shape::blocks_are_of_two_kinds;
use crate::shape::blocks_for;
use crate::shape::full_but_last;
use crate::shape::no_more_blocks_than_it_takes;
use crate::shape::one_more_block;
use crate::shape::shown_rows_are_counted;
use crate::shape::sized;
use vstd::prelude::*;

verus! {

/// The probe after the run `events`.
pub open spec fn state<B, E>(setup: Setup, events: Seq<Event<B, E>>) -> LeftJoinView<B, E>
    decreases events.len(),
{
    if events.len() == 0 {
        LeftJoinView::start()
    } else {
        state(setup, events.drop_last()).next(setup, events.last())
    }
}

/// Whether each event of `events` is what the probe waited for.
pub open spec fn is_run<B, E>(setup: Setup, events: Seq<Event<B, E>>) -> bool
    decreases events.len(),
{
    events.len() > 0 ==> {
        &&& is_run(setup, events.drop_last())
        &&& state(setup, events.drop_last()).accepts(setup, events.last())
    }
}

/// A run that goes on with what the probe waits for is a run.
pub proof fn run_goes_on<B, E>(setup: Setup, events: Seq<Event<B, E>>, event: Event<B, E>)
    requires
        is_run(setup, events),
        state(setup, events).accepts(setup, event),
    ensures
        is_run(setup, events.push(event)),
        state(setup, events.push(event)) == state(setup, events).next(setup, event),
{
    assert(events.push(event).drop_last() =~= events);
}

/// The build rows whose flag the run `events` sets.
pub open spec fn run_marks<B, E>(setup: Setup, events: Seq<Event<B, E>>) -> Seq<RowPtr>
    decreases events.len(),
{
    if events.len() == 0 {
        Seq::empty()
    } else {
        run_marks(setup, events.drop_last()) + state(setup, events.drop_last()).marks(
            setup,
            events.last(),
        )
    }
}

/// Whether, at `event`, the hash table found something where it stopped a search short of the end,
/// and the engine made a block of the size asked for.
pub open spec fn is_faithful_event<B, E>(at: LeftJoinView<B, E>, event: Event<B, E>) -> bool {
    match event {
        Event::Probed { matched, incomplete_ptr } => incomplete_ptr != 0 ==> matched.len() > 0,
        Event::BlockBuilt { num_rows, .. } => num_rows == at.block.unwrap().num_rows,
        _ => true,
    }
}

/// Whether the hash table and the engine are faithful at each event of `events`.
pub open spec fn is_faithful<B, E>(setup: Setup, events: Seq<Event<B, E>>) -> bool
    decreases events.len(),
{
    events.len() > 0 ==> {
        &&& is_faithful(setup, events.drop_last())
        &&& is_faithful_event(state(setup, events.drop_last()), events.last())
    }
}

/// What holds of a probe that was told of `matches`, apart from its errors.
spec fn accounts_for<B, E>(
    setup: Setup,
    at: LeftJoinView<B, E>,
    matches: Seq<Seq<RowPtr>>,
) -> bool {
    &&& matches.len() == at.row + if within_row(at.phase) {
        1nat
    } else {
        0nat
    }
    &&& expand(at.probe_indexes).len() == at.build_indexes.len()
    &&& shown_pairs(at.results) + block_pairs(at.block, at.block_runs) + pair_up(
        at.probe_indexes,
        at.build_indexes,
    ) == matched_rows(matches)
    &&& all_single(at.unmatched)
    &&& shown_null_rows(at.results) + block_null_rows(at.block, at.block_runs) + run_rows(
        at.unmatched,
    ) == unmatched_rows(matches)
    &&& at.makes_block() <==> at.block is Some
    &&& at.phase == Phase::Block ==> at.block.unwrap().build_indexes is Some
    &&& at.phase == Phase::NullBlock || at.phase == Phase::LastNullBlock
        ==> at.block.unwrap().build_indexes is None && at.block.unwrap().num_rows > 0
    &&& at.block is Some ==> at.block.unwrap().num_rows <= setup.max_block_size
    &&& at.phase == Phase::Block ==> at.build_indexes.len() == 0 && at.block.unwrap().num_rows
        == block_pairs(at.block, at.block_runs).len()
    &&& at.phase == Phase::Incomplete ==> at.build_indexes.len() == 0
    &&& at.build_indexes.len() <= setup.max_block_size
    &&& at.phase == Phase::NullInterrupt ==> at.unmatched.len() > 0
    &&& at.unmatched.len() <= setup.max_block_size
    &&& at.phase != Phase::NullInterrupt ==> at.unmatched.len() < setup.max_block_size
    &&& within_row(at.phase) && at.incomplete_ptr != 0 ==> matches.last().len() > 0
    &&& at.phase == Phase::NullInterrupt || at.phase == Phase::NullBlock ==> at.incomplete_ptr == 0
    &&& at.phase == Phase::Incomplete ==> at.incomplete_ptr != 0
    &&& !within_row(at.phase) && at.row == setup.input_num_rows ==> at.build_indexes.len() == 0
    &&& at.block is Some ==> block_fits_rows(
        at.block.unwrap(),
        at.block_runs,
        setup.is_probe_projected,
    )
    &&& sized(at.results, setup.max_block_size)
    &&& all_fit(at.results, setup.is_probe_projected)
    &&& unfiltered(at.results)
}

/// Whether every block of a result has all of its rows.
pub open spec fn unfiltered<B>(results: Seq<ResultView<B>>) -> bool {
    forall|k: int| 0 <= k < results.len() ==> (#[trigger] results[k]).filter is None
}

/// One event keeps the account.
proof fn event_keeps_account<B, E>(
    setup: Setup,
    at: LeftJoinView<B, E>,
    event: Event<B, E>,
    matches: Seq<Seq<RowPtr>>,
)
    requires
        0 < setup.max_block_size <= u32::MAX,
        at.row <= u32::MAX || !(event is Probed),
        within_row(at.phase) ==> at.row <= u32::MAX,
        accounts_for(setup, at, matches),
        at.accepts(setup, event),
        is_faithful_event(at, event),
    ensures
        at.next(setup, event).phase != Phase::Failed ==> accounts_for(
            setup,
            at.next(setup, event),
            with_told(matches, event),
        ),
{
    let next = at.next(setup, event);
    let told = with_told(matches, event);
    let shown = shown_pairs(at.results) + block_pairs(at.block, at.block_runs);
    if next.phase != Phase::Failed {
        match event {
            Event::Probed { matched, incomplete_ptr } => {
                rows_of_one_more(matches, matched);
                if matched.len() > 0 {
                    pair_up_push(at.probe_indexes, at.build_indexes, at.row, matched);
                    assert(shown + pair_up(next.probe_indexes, next.build_indexes)
                        =~= matched_rows(told));
                } else {
                    assert(row_pairs(matches.len() as int, matched) =~= Seq::empty());
                    assert(run_rows(next.unmatched) =~= run_rows(at.unmatched).push(at.row as int));
                }
            },
            Event::Continued { matched, incomplete_ptr } => {
                rows_of_more_matches(matches, matched);
                if matched.len() > 0 {
                    pair_up_push(at.probe_indexes, at.build_indexes, at.row, matched);
                    assert(shown + pair_up(next.probe_indexes, next.build_indexes)
                        =~= matched_rows(told));
                } else {
                    assert(row_pairs(matches.len() - 1, matched) =~= Seq::empty());
                    assert(matches.last() + matched =~= matches.last());
                    assert(told =~= matches);
                }
            },
            Event::KeysExhausted => {
                expand_single(at.unmatched);
                assert(at.unmatched.take(at.unmatched.len() as int) =~= at.unmatched);
            },
            Event::Interrupt { interrupted } => {
                expand_single(at.unmatched);
                assert(at.unmatched.take(at.unmatched.len() as int) =~= at.unmatched);
            },
            Event::BlockBuilt { data, num_rows } => {
                let result = ResultView {
                    block: at.block.unwrap(),
                    runs: at.block_runs,
                    filter: None,
                    data,
                };
                assert(at.results.push(result).drop_last() =~= at.results);
            },
            _ => {},
        }
    }
}

/// A faithful run keeps the account.
proof fn run_keeps_account<B, E>(setup: Setup, events: Seq<Event<B, E>>)
    requires
        0 < setup.max_block_size <= u32::MAX,
        is_run(setup, events),
        is_faithful(setup, events),
        matches_told(events).len() <= u32::MAX + 1,
        state(setup, events).phase != Phase::Failed,
    ensures
        accounts_for(setup, state(setup, events), matches_told(events)),
    decreases events.len(),
{
    if events.len() > 0 {
        let before = events.drop_last();
        run_keeps_account(setup, before);
        event_keeps_account(
            setup,
            state(setup, before),
            events.last(),
            matches_told(before),
        );
    } else {
        let at = state(setup, events);
        assert(expand(at.probe_indexes) =~= Seq::empty());
        assert(pair_up(at.probe_indexes, at.build_indexes) =~= Seq::empty());
        assert(run_rows(at.unmatched) =~= Seq::empty());
    }
}

/// Whether `results` are the left join of probe rows that have the build rows `matches` as matches:
/// they show each probe row with each of its matches, in order, and each probe row without a match
/// with nulls, in order; and each is made of the rows that it stands for, of at least one, and of
/// no more than fit, and has the columns that the join is to show.
pub open spec fn is_left_join<B>(
    setup: Setup,
    results: Seq<ResultView<B>>,
    matches: Seq<Seq<RowPtr>>,
) -> bool {
    &&& shown_pairs(results) == matched_rows(matches)
    &&& shown_null_rows(results) == unmatched_rows(matches)
    &&& sized(results, setup.max_block_size)
    &&& all_fit(results, setup.is_probe_projected)
    &&& all_have_columns(setup, results)
    &&& unfiltered(results)
}

/// Once every row of the input was probed, the result is the left join.
///
/// Rows are told apart by 32 bits, and so are the matches of a row within a block.
pub proof fn result_is_the_left_join<B, E>(setup: Setup, events: Seq<Event<B, E>>)
    requires
        0 < setup.max_block_size <= u32::MAX,
        setup.input_num_rows <= u32::MAX + 1,
        is_run(setup, events),
        is_faithful(setup, events),
        state(setup, events).phase == Phase::Finished,
        matches_told(events).len() == setup.input_num_rows,
    ensures
        is_left_join(setup, state(setup, events).results, matches_told(events)),
{
    let at = state(setup, events);
    run_keeps_account(setup, events);
    every_block_has_its_columns(setup, events);
    finished_waits_for_nothing(setup, events);
    assert(pair_up(at.probe_indexes, at.build_indexes) =~= Seq::empty());
    assert(run_rows(at.unmatched) =~= Seq::empty());
    assert(shown_pairs(at.results) =~= matched_rows(matches_told(events)));
    assert(shown_null_rows(at.results) =~= unmatched_rows(matches_told(events)));
}

/// At any time, every block of a probe, made or to be made, has the columns that the join is to
/// show.
pub proof fn every_block_has_its_columns<B, E>(setup: Setup, events: Seq<Event<B, E>>)
    requires
        is_run(setup, events),
    ensures
        all_have_columns(setup, state(setup, events).results),
        state(setup, events).block matches Some(block) ==> has_columns(setup, block),
        state(setup, events).makes_block() <==> state(setup, events).block is Some,
    decreases events.len(),
{
    if events.len() > 0 {
        let before = state(setup, events.drop_last());
        every_block_has_its_columns(setup, events.drop_last());
        match events.last() {
            Event::KeysExhausted => rows_without_a_match_show_nulls(
                setup,
                before.unmatched,
                before.unmatched.len(),
            ),
            Event::Interrupt { .. } => {
                rows_without_a_match_show_nulls(setup, before.unmatched, before.unmatched.len());
                matched_rows_show_their_build_rows(
                    setup,
                    before.probe_indexes,
                    before.build_indexes,
                );
            },
            _ => {},
        }
    }
}

/// A probe that has a result has no row without a match left over.
proof fn finished_waits_for_nothing<B, E>(setup: Setup, events: Seq<Event<B, E>>)
    requires
        is_run(setup, events),
    ensures
        state(setup, events).phase == Phase::Finished || state(setup, events).phase
            == Phase::LastNullBlock ==> state(setup, events).unmatched.len() == 0,
    decreases events.len(),
{
    if events.len() > 0 {
        finished_waits_for_nothing(setup, events.drop_last());
    }
}

/// Where a key is asked for, the pairs and the rows without a match that wait are those that were
/// told and are not yet shown, in order.
pub proof fn rows_wait_to_be_shown<B, E>(setup: Setup, events: Seq<Event<B, E>>)
    requires
        0 < setup.max_block_size <= u32::MAX,
        is_run(setup, events),
        is_faithful(setup, events),
        matches_told(events).len() <= u32::MAX + 1,
        state(setup, events).phase == Phase::Key,
    ensures
        ({
            let at = state(setup, events);
            let pairs = matched_rows(matches_told(events));
            let alone = unmatched_rows(matches_told(events));
            let shown = shown_pairs(at.results).len() as int;
            let shown_alone = shown_null_rows(at.results).len() as int;
            &&& at.build_indexes.len() == pairs.len() - shown
            &&& at.build_indexes == build_rows(pairs.skip(shown))
            &&& at.unmatched.len() == alone.len() - shown_alone
            &&& forall|k: int|
                0 <= k < at.unmatched.len() ==> (#[trigger] at.unmatched[k]).0 == alone[shown_alone
                    + k] && at.unmatched[k].1 == 1
        }),
{
    let at = state(setup, events);
    let pairs = matched_rows(matches_told(events));
    let alone = unmatched_rows(matches_told(events));
    let shown = shown_pairs(at.results).len() as int;
    let shown_alone = shown_null_rows(at.results).len() as int;
    run_keeps_account(setup, events);
    assert(pairs.skip(shown) =~= pair_up(at.probe_indexes, at.build_indexes));
    assert(build_rows(pairs.skip(shown)) =~= at.build_indexes);
    assert forall|k: int| 0 <= k < at.unmatched.len() implies (#[trigger] at.unmatched[k]).0
        == alone[shown_alone + k] && at.unmatched[k].1 == 1 by {
        assert(alone[shown_alone + k] == run_rows(at.unmatched)[k]);
    }
}

/// At any time, what a probe shows is the beginning of its result: no row is shown twice or out of
/// turn.
pub proof fn result_grows_in_order<B, E>(setup: Setup, events: Seq<Event<B, E>>)
    requires
        0 < setup.max_block_size <= u32::MAX,
        is_run(setup, events),
        is_faithful(setup, events),
        matches_told(events).len() <= u32::MAX + 1,
        state(setup, events).phase != Phase::Failed,
    ensures
        shown_pairs(state(setup, events).results).is_prefix_of(matched_rows(matches_told(events))),
        shown_null_rows(state(setup, events).results).is_prefix_of(
            unmatched_rows(matches_told(events)),
        ),
{
    let at = state(setup, events);
    run_keeps_account(setup, events);
    let pairs = shown_pairs(at.results);
    let alone = shown_null_rows(at.results);
    assert(pairs =~= matched_rows(matches_told(events)).take(pairs.len() as int));
    assert(alone =~= unmatched_rows(matches_told(events)).take(alone.len() as int));
}

/// Which side of the join the block to be made lacks.
spec fn block_fits_phase<B, E>(at: LeftJoinView<B, E>) -> bool {
    &&& at.makes_block() <==> at.block is Some
    &&& at.phase == Phase::Block ==> at.block.unwrap().build_indexes is Some
    &&& at.phase == Phase::NullBlock || at.phase == Phase::LastNullBlock
        ==> at.block.unwrap().build_indexes is None
}

proof fn run_fits_phase<B, E>(setup: Setup, events: Seq<Event<B, E>>)
    requires
        is_run(setup, events),
    ensures
        block_fits_phase(state(setup, events)),
    decreases events.len(),
{
    if events.len() > 0 {
        run_fits_phase(setup, events.drop_last());
    }
}

/// A full join sets the flags of exactly the build rows that its result shows; no other join sets
/// any.
pub proof fn flags_are_of_shown_rows<B, E>(setup: Setup, events: Seq<Event<B, E>>)
    requires
        is_run(setup, events),
    ensures
        run_marks(setup, events) == if setup.join_type == JoinType::Full {
            build_rows(shown_pairs(state(setup, events).results))
        } else {
            Seq::empty()
        },
    decreases events.len(),
{
    let at = state(setup, events);
    if events.len() > 0 {
        let before = state(setup, events.drop_last());
        flags_are_of_shown_rows(setup, events.drop_last());
        run_fits_phase(setup, events.drop_last());
        let marks = before.marks(setup, events.last());
        if at.results.len() > before.results.len() {
            assert(at.results.drop_last() =~= before.results);
            let shown = at.results.last().pairs();
            if before.phase == Phase::Block {
                assert(build_rows(shown) =~= before.block.unwrap().build_indexes.unwrap());
            } else {
                assert(build_rows(shown) =~= Seq::empty());
            }
            assert(build_rows(shown_pairs(at.results)) =~= build_rows(shown_pairs(before.results))
                + build_rows(shown));
        } else {
            assert(at.results == before.results);
            assert(marks =~= Seq::empty());
        }
    }
    assert(run_marks(setup, events) =~= if setup.join_type == JoinType::Full {
        build_rows(shown_pairs(at.results))
    } else {
        Seq::empty()
    });
}

/// A join for a scalar subquery fails as soon as a row has two matches, and only then; no other
/// join fails on that account.
pub proof fn scalar_subquery_has_one_row<B, E>(setup: Setup, events: Seq<Event<B, E>>)
    requires
        is_run(setup, events),
    ensures
        state(setup, events).error == Some(ErrorCode::<E>::Internal) <==> {
            &&& setup.join_type == JoinType::LeftSingle
            &&& exists|row: int|
                0 <= row < matches_told(events).len() && (#[trigger] matches_told(
                    events,
                )[row]).len() > 1
        },
{
    run_counts_matches(setup, events);
}

/// What a probe knows of the number of matches.
spec fn counts_matches<B, E>(
    setup: Setup,
    at: LeftJoinView<B, E>,
    matches: Seq<Seq<RowPtr>>,
) -> bool {
    &&& within_row(at.phase) ==> matches.len() > 0 && at.row_matched == (matches.last().len() > 0)
    &&& at.error is Some <==> at.phase == Phase::Failed
    &&& at.error == Some(ErrorCode::<E>::Internal) ==> {
        &&& setup.join_type == JoinType::LeftSingle
        &&& matches.len() > 0
        &&& matches[matches.len() - 1].len() > 1
    }
    &&& setup.join_type == JoinType::LeftSingle && at.error != Some(ErrorCode::<E>::Internal)
        ==> forall|row: int| 0 <= row < matches.len() ==> (#[trigger] matches[row]).len() <= 1
}

proof fn run_counts_matches<B, E>(setup: Setup, events: Seq<Event<B, E>>)
    requires
        is_run(setup, events),
    ensures
        counts_matches(setup, state(setup, events), matches_told(events)),
    decreases events.len(),
{
    if events.len() > 0 {
        run_counts_matches(setup, events.drop_last());
        let before = state(setup, events.drop_last());
        let matches = matches_told(events.drop_last());
        let told = matches_told(events);
        match events.last() {
            Event::Probed { matched, .. } => {
                assert(told[told.len() - 1] == matched);
                assert forall|row: int| 0 <= row < matches.len() implies #[trigger] told[row]
                    == matches[row] by {}
            },
            Event::Continued { matched, .. } => {
                assert(matches[matches.len() - 1] == matches.last());
                assert(told[told.len() - 1] == matches.last() + matched);
                assert forall|row: int| 0 <= row < matches.len() - 1 implies #[trigger] told[row]
                    == matches[row] by {}
            },
            _ => {},
        }
    }
}

/// A query is reported as aborted exactly when its interruption was the last thing told, and the
/// failure of a block is handed on as it was told; a probe that has ended waits for nothing more.
pub proof fn error_tells_its_cause<B, E>(setup: Setup, events: Seq<Event<B, E>>)
    requires
        is_run(setup, events),
    ensures
        state(setup, events).error == Some(ErrorCode::<E>::AbortedQuery) <==> events.len() > 0
            && events.last() == (Event::<B, E>::Interrupt { interrupted: true }),
        forall|error: E|
            state(setup, events).error == Some(ErrorCode::Block(error)) <==> events.len() > 0
                && events.last() == (Event::<B, E>::BlockFailed { error }),
        state(setup, events).error is Some <==> state(setup, events).phase == Phase::Failed,
        state(setup, events).error is Some ==> forall|event: Event<B, E>|
            !state(setup, events).accepts(setup, event),
        state(setup, events).phase == Phase::Finished ==> forall|event: Event<B, E>|
            !state(setup, events).accepts(setup, event),
{
    run_counts_matches(setup, events);
    if events.len() > 0 {
        run_counts_matches(setup, events.drop_last());
    }
}

/// No block but the last of the rows without a match is made unless the query was seen not to be
/// interrupted just before.
pub proof fn interruption_is_seen_before_each_block<B, E>(setup: Setup, events: Seq<Event<B, E>>)
    requires
        is_run(setup, events),
        state(setup, events).phase == Phase::Block || state(setup, events).phase
            == Phase::NullBlock,
    ensures
        events.len() > 0,
        events.last() == (Event::<B, E>::Interrupt { interrupted: false }),
{
}

/// Whether the hash table stops a search short of the end only for want of room, having found
/// something, at each event of `events`.
pub open spec fn stops_only_when_full<B, E>(setup: Setup, events: Seq<Event<B, E>>) -> bool
    decreases events.len(),
{
    events.len() > 0 ==> {
        &&& stops_only_when_full(setup, events.drop_last())
        &&& stops_when_full(
            setup,
            state(setup, events.drop_last()).build_indexes.len(),
            events.last(),
        )
    }
}

/// No search for matches is given up: a probe turns to another key, or ends with a result, only
/// when the search for matches of the key before is complete.
pub proof fn searches_are_completed<B, E>(setup: Setup, events: Seq<Event<B, E>>)
    requires
        is_run(setup, events),
        stops_only_when_full(setup, events),
        state(setup, events).phase == Phase::Key || state(setup, events).phase
            == Phase::LastNullBlock || state(setup, events).phase == Phase::Finished,
    ensures
        state(setup, events).incomplete_ptr == 0,
{
    run_completes_searches(setup, events);
}

proof fn run_completes_searches<B, E>(setup: Setup, events: Seq<Event<B, E>>)
    requires
        is_run(setup, events),
        stops_only_when_full(setup, events),
    ensures
        match state(setup, events).phase {
            Phase::Key => true,
            Phase::NullInterrupt => true,
            Phase::NullBlock => true,
            Phase::LastNullBlock => true,
            Phase::Finished => true,
            _ => false,
        } ==> state(setup, events).incomplete_ptr == 0,
    decreases events.len(),
{
    if events.len() > 0 {
        run_completes_searches(setup, events.drop_last());
    }
}

/// What a probe has made of its blocks: those of rows without a match.
spec fn fills_null_blocks<B, E>(setup: Setup, at: LeftJoinView<B, E>) -> bool {
    &&& full_but_last(at.results, false, setup.max_block_size)
    &&& at.phase != Phase::Finished ==> all_full(at.results, false, setup.max_block_size)
    &&& at.phase == Phase::NullInterrupt ==> at.unmatched.len() >= setup.max_block_size
    &&& at.phase == Phase::NullBlock ==> at.block.unwrap().num_rows == setup.max_block_size
}

proof fn run_fills_null_blocks<B, E>(setup: Setup, events: Seq<Event<B, E>>)
    requires
        0 < setup.max_block_size <= u32::MAX,
        is_run(setup, events),
        is_faithful(setup, events),
        matches_told(events).len() <= u32::MAX + 1,
        state(setup, events).phase != Phase::Failed,
    ensures
        fills_null_blocks(setup, state(setup, events)),
    decreases events.len(),
{
    if events.len() > 0 {
        let before = state(setup, events.drop_last());
        run_fills_null_blocks(setup, events.drop_last());
        run_keeps_account(setup, events.drop_last());
        match events.last() {
            Event::BlockBuilt { data, .. } => {
                let result = ResultView {
                    block: before.block.unwrap(),
                    runs: before.block_runs,
                    filter: None,
                    data,
                };
                one_more_block(before.results, result, false, setup.max_block_size);
            },
            _ => {},
        }
    }
}

/// What a probe has made of its blocks: those of joined pairs.
spec fn fills_joined_blocks<B, E>(setup: Setup, at: LeftJoinView<B, E>) -> bool {
    let last = at.row == setup.input_num_rows - 1 && at.incomplete_ptr == 0;
    &&& full_but_last(at.results, true, setup.max_block_size)
    &&& all_full(at.results, true, setup.max_block_size) || (!within_row(at.phase) && at.row
        == setup.input_num_rows)
    &&& at.phase == Phase::Interrupt ==> at.build_indexes.len() == setup.max_block_size || last
    &&& at.phase == Phase::Block ==> at.block.unwrap().num_rows == setup.max_block_size || last
}

proof fn run_fills_joined_blocks<B, E>(setup: Setup, events: Seq<Event<B, E>>)
    requires
        0 < setup.max_block_size <= u32::MAX,
        setup.input_num_rows <= u32::MAX + 1,
        is_run(setup, events),
        is_faithful(setup, events),
        stops_only_when_full(setup, events),
        matches_told(events).len() <= setup.input_num_rows,
        state(setup, events).phase != Phase::Failed,
    ensures
        fills_joined_blocks(setup, state(setup, events)),
    decreases events.len(),
{
    if events.len() > 0 {
        let before = state(setup, events.drop_last());
        run_fills_joined_blocks(setup, events.drop_last());
        run_keeps_account(setup, events.drop_last());
        match events.last() {
            Event::BlockBuilt { data, .. } => {
                let result = ResultView {
                    block: before.block.unwrap(),
                    runs: before.block_runs,
                    filter: None,
                    data,
                };
                one_more_block(before.results, result, true, setup.max_block_size);
            },
            _ => {},
        }
    }
}

/// At any time, every block of rows without a match but the last is full.
pub proof fn null_blocks_are_full_but_the_last<B, E>(setup: Setup, events: Seq<Event<B, E>>)
    requires
        0 < setup.max_block_size <= u32::MAX,
        is_run(setup, events),
        is_faithful(setup, events),
        matches_told(events).len() <= u32::MAX + 1,
        state(setup, events).phase != Phase::Failed,
    ensures
        full_but_last(state(setup, events).results, false, setup.max_block_size),
{
    run_fills_null_blocks(setup, events);
}

/// At any time, every block of joined pairs but the last is full.
pub proof fn joined_blocks_are_full_but_the_last<B, E>(setup: Setup, events: Seq<Event<B, E>>)
    requires
        0 < setup.max_block_size <= u32::MAX,
        setup.input_num_rows <= u32::MAX + 1,
        is_run(setup, events),
        is_faithful(setup, events),
        stops_only_when_full(setup, events),
        matches_told(events).len() <= setup.input_num_rows,
        state(setup, events).phase != Phase::Failed,
    ensures
        full_but_last(state(setup, events).results, true, setup.max_block_size),
{
    run_fills_joined_blocks(setup, events);
}

/// The result has no more blocks than its joined pairs and its rows without a match take.
pub proof fn result_has_no_more_blocks_than_it_takes<B, E>(
    setup: Setup,
    events: Seq<Event<B, E>>,
)
    requires
        0 < setup.max_block_size <= u32::MAX,
        setup.input_num_rows <= u32::MAX + 1,
        is_run(setup, events),
        is_faithful(setup, events),
        stops_only_when_full(setup, events),
        state(setup, events).phase == Phase::Finished,
        matches_told(events).len() == setup.input_num_rows,
    ensures
        block_count(state(setup, events).results, true) == blocks_for(
            matched_rows(matches_told(events)).len(),
            setup.max_block_size,
        ),
        block_count(state(setup, events).results, false) == blocks_for(
            unmatched_rows(matches_told(events)).len(),
            setup.max_block_size,
        ),
        state(setup, events).results.len() == blocks_for(
            matched_rows(matches_told(events)).len(),
            setup.max_block_size,
        ) + blocks_for(unmatched_rows(matches_told(events)).len(), setup.max_block_size),
{
    let results = state(setup, events).results;
    result_is_the_left_join(setup, events);
    run_fills_null_blocks(setup, events);
    run_fills_joined_blocks(setup, events);
    shown_rows_are_counted(results, setup.is_probe_projected);
    no_more_blocks_than_it_takes(results, true, setup.max_block_size);
    no_more_blocks_than_it_takes(results, false, setup.max_block_size);
    blocks_are_of_two_kinds(results);
}

/// The scan map after the run `events`, each step of which sets its flags, where it was `map`
/// before.
pub open spec fn scan_map_after<B, E>(
    setup: Setup,
    map: Seq<Seq<bool>>,
    events: Seq<Event<B, E>>,
) -> Seq<Seq<bool>>
    decreases events.len(),
{
    if events.len() == 0 {
        map
    } else {
        marked(
            scan_map_after(setup, map, events.drop_last()),
            state(setup, events.drop_last()).marks(setup, events.last()),
        )
    }
}

/// The steps of a run together set the flags of the run.
pub proof fn steps_set_the_flags_of_the_run<B, E>(
    setup: Setup,
    map: Seq<Seq<bool>>,
    events: Seq<Event<B, E>>,
)
    ensures
        scan_map_after(setup, map, events) == marked(map, run_marks(setup, events)),
    decreases events.len(),
{
    if events.len() > 0 {
        let past = events.drop_last();
        steps_set_the_flags_of_the_run(setup, map, past);
        marked_in_turn(
            map,
            run_marks(setup, past),
            state(setup, past).marks(setup, events.last()),
        );
    } else {
        marked_nothing(map);
    }
}

/// Whether the probe has ended of itself: with a result, or because a scalar subquery has more than
/// one row.
pub open spec fn ends_of_itself<B, E>(at: LeftJoinView<B, E>) -> bool {
    at.phase == Phase::Finished || at.error == Some(ErrorCode::<E>::Internal)
}

/// A probe that has a result was told all the matches of every row.
pub proof fn result_is_of_the_whole_table<B, E>(
    setup: Setup,
    table: Seq<Seq<RowPtr>>,
    events: Seq<Event<B, E>>,
)
    requires
        is_run(setup, events),
        stops_only_when_full(setup, events),
        answers(table, events),
        state(setup, events).phase == Phase::Finished,
    ensures
        matches_told(events) == table,
{
    run_completes_rows(setup, table, events);
    searches_are_completed(setup, events);
    assert(matches_told(events) =~= table);
}

proof fn run_completes_rows<B, E>(
    setup: Setup,
    table: Seq<Seq<RowPtr>>,
    events: Seq<Event<B, E>>,
)
    requires
        is_run(setup, events),
        stops_only_when_full(setup, events),
        answers(table, events),
    ensures
        forall|row: int|
            0 <= row < matches_told(events).len() && (row < matches_told(events).len() - 1 || state(
                setup,
                events,
            ).incomplete_ptr == 0) ==> #[trigger] matches_told(events)[row] == table[row],
        state(setup, events).phase == Phase::LastNullBlock || state(setup, events).phase
            == Phase::Finished ==> matches_told(events).len() == table.len(),
    decreases events.len(),
{
    if events.len() > 0 {
        let past = events.drop_last();
        let told = matches_told(events);
        run_completes_rows(setup, table, past);
        run_completes_searches(setup, past);
        assert forall|row: int|
            0 <= row < told.len() && (row < told.len() - 1 || state(setup, events).incomplete_ptr
                == 0) implies #[trigger] told[row] == table[row] by {
            if row < told.len() - 1 || told == matches_told(past) {
                assert(told[row] == matches_told(past)[row]);
            }
        }
    }
}

/// A probe that ends of itself has a result exactly when the table has, for a scalar subquery, one
/// match of each row at most.
pub proof fn result_depends_on_the_table<B, E>(
    setup: Setup,
    table: Seq<Seq<RowPtr>>,
    events: Seq<Event<B, E>>,
)
    requires
        is_run(setup, events),
        stops_only_when_full(setup, events),
        answers(table, events),
        ends_of_itself(state(setup, events)),
    ensures
        state(setup, events).phase == Phase::Finished <==> !(setup.join_type
            == JoinType::LeftSingle && exists|row: int|
            0 <= row < table.len() && (#[trigger] table[row]).len() > 1),
        state(setup, events).phase == Phase::Finished <==> state(setup, events).error is None,
{
    scalar_subquery_has_one_row(setup, events);
    error_tells_its_cause(setup, events);
    told_is_in_table(table, events);
    if state(setup, events).phase == Phase::Finished {
        result_is_of_the_whole_table(setup, table, events);
    } else {
        let told = matches_told(events);
        let row = choose|row: int| 0 <= row < told.len() && (#[trigger] told[row]).len() > 1;
        assert(told[row].is_prefix_of(table[row]));
        assert(table[row].len() > 1);
    }
}

/// Whether two setups are the same but for the size of a block.
pub open spec fn same_but_for_size(one: Setup, other: Setup) -> bool {
    other == Setup {
        max_block_size: other.max_block_size,
        true_validity: other.true_validity,
        ..one
    }
}

/// The size of a block does not matter: two probes of the same table both have a result, or both
/// end with the same error; and the results show the same joined pairs and the same rows without a
/// match, each in the same order, and have set the same flags.
pub proof fn block_size_does_not_matter<B, E>(
    one: Setup,
    other: Setup,
    table: Seq<Seq<RowPtr>>,
    events: Seq<Event<B, E>>,
    others: Seq<Event<B, E>>,
)
    requires
        same_but_for_size(one, other),
        0 < one.max_block_size <= u32::MAX,
        0 < other.max_block_size <= u32::MAX,
        table.len() == one.input_num_rows <= u32::MAX + 1,
        is_run(one, events),
        is_faithful(one, events),
        stops_only_when_full(one, events),
        answers(table, events),
        ends_of_itself(state(one, events)),
        is_run(other, others),
        is_faithful(other, others),
        stops_only_when_full(other, others),
        answers(table, others),
        ends_of_itself(state(other, others)),
    ensures
        state(one, events).phase == state(other, others).phase,
        state(one, events).error == state(other, others).error,
        state(one, events).phase == Phase::Finished ==> {
            &&& shown_pairs(state(one, events).results) == shown_pairs(
                state(other, others).results,
            )
            &&& shown_null_rows(state(one, events).results) == shown_null_rows(
                state(other, others).results,
            )
            &&& run_marks(one, events) == run_marks(other, others)
        },
{
    result_depends_on_the_table(one, table, events);
    result_depends_on_the_table(other, table, others);
    error_tells_its_cause(one, events);
    error_tells_its_cause(other, others);
    if state(one, events).phase == Phase::Finished {
        result_is_of_the_whole_table(one, table, events);
        result_is_of_the_whole_table(other, table, others);
        result_is_the_left_join(one, events);
        result_is_the_left_join(other, others);
        flags_are_of_shown_rows(one, events);
        flags_are_of_shown_rows(other, others);
    }
}

} // verus!
