//! What a probe of a left join without other conditions asks for, and what becomes of the answer.
//!
//! Each law is of any run, and of what may be told next. Rows are numbered by the keys that were
//! told before.
use crate::block::has_columns;
use crate::block::ResultView;
use crate::event::last_ptr;
use crate::event::matches_told;
use crate::event::within_row;
use crate::event::Event;
use crate::event::Phase;
use crate::join::Action;
use crate::join::ErrorCode;
use crate::join::Setup;
use crate::left_join::LeftJoinView;
use crate::left_join_laws::error_tells_its_cause;
use crate::left_join_laws::every_block_has_its_columns;
use crate::left_join_laws::is_run;
use crate::left_join_laws::run_goes_on;
use crate::left_join_laws::scalar_subquery_has_one_row;
use crate::left_join_laws::state;
use crate::scan_map::RowPtr;
use vstd::prelude::*;

verus! {

/// Whether a probe asks for a key to be looked up.
pub open spec fn asks_for_key(action: Action) -> bool {
    action is ProbeKey || action is ProbeHashTable
}

/// What a probe knows of where it stands.
spec fn knows_its_place<B, E>(
    setup: Setup,
    at: LeftJoinView<B, E>,
    events: Seq<Event<B, E>>,
) -> bool {
    &&& at.phase != Phase::Failed ==> matches_told(events).len() == at.row + if within_row(
        at.phase,
    ) {
        1nat
    } else {
        0nat
    }
    &&& at.phase != Phase::Filters && at.phase != Phase::Filtered
    &&& at.incomplete_ptr == last_ptr(events)
    &&& at.build_indexes.len() <= setup.max_block_size
    &&& at.phase == Phase::Incomplete ==> at.build_indexes.len() == 0 && at.incomplete_ptr != 0
    &&& at.block is Some <==> at.makes_block()
    &&& at.phase == Phase::Block ==> at.block.unwrap().build_indexes is Some
        && at.build_indexes.len() == 0
    &&& at.phase == Phase::NullBlock || at.phase == Phase::LastNullBlock
        ==> at.block.unwrap().build_indexes is None
    &&& at.phase == Phase::LastNullBlock ==> events.last() is KeysExhausted
    &&& at.phase == Phase::NullBlock ==> !(events.last() is KeysExhausted)
    &&& at.phase == Phase::NullInterrupt ==> at.unmatched.len() > 0 && at.unmatched.len()
        >= setup.max_block_size
    &&& at.phase != Phase::NullInterrupt && at.phase != Phase::Failed ==> at.unmatched.len() == 0
        || at.unmatched.len() < setup.max_block_size
}

proof fn run_knows_its_place<B, E>(setup: Setup, events: Seq<Event<B, E>>)
    requires
        is_run(setup, events),
    ensures
        knows_its_place(setup, state(setup, events), events),
    decreases events.len(),
{
    if events.len() > 0 {
        run_knows_its_place(setup, events.drop_last());
    }
}

/// A key is looked up subject to its validity, whatever the join, exactly when the join is not from
/// a correlated subquery. The row is that of the next key, the matches take the places behind those
/// that wait, and there are as many places as a block has rows.
pub proof fn keys_are_looked_up_in_turn<B, E>(setup: Setup, events: Seq<Event<B, E>>)
    requires
        is_run(setup, events),
        setup.max_block_size <= usize::MAX,
        matches_told(events).len() <= usize::MAX,
    ensures
        ({
            let at = state(setup, events);
            let action = at.action(setup);
            &&& action is ProbeKey <==> at.phase is Key && !setup.from_correlated_subquery
            &&& action is ProbeHashTable <==> at.phase is Key && setup.from_correlated_subquery
            &&& action matches Action::ProbeKey { row, occupied, capacity } ==> {
                &&& row == matches_told(events).len()
                &&& occupied == at.build_indexes.len()
                &&& capacity == setup.max_block_size
            }
            &&& action matches Action::ProbeHashTable { row, occupied, capacity } ==> {
                &&& row == matches_told(events).len()
                &&& occupied == at.build_indexes.len()
                &&& capacity == setup.max_block_size
            }
        }),
{
    run_knows_its_place(setup, events);
}

/// A search that stopped short goes on for the same key, from where it stopped, with all the places
/// of a block.
pub proof fn searches_go_on_where_they_stopped<B, E>(setup: Setup, events: Seq<Event<B, E>>)
    requires
        is_run(setup, events),
        setup.max_block_size <= usize::MAX,
        matches_told(events).len() <= usize::MAX,
    ensures
        ({
            let at = state(setup, events);
            at.action(setup) matches Action::NextIncomplete {
                row,
                incomplete_ptr,
                occupied,
                capacity,
            } ==> {
                &&& row == matches_told(events).len() - 1
                &&& incomplete_ptr == last_ptr(events)
                &&& incomplete_ptr != 0
                &&& occupied == 0
                &&& capacity == setup.max_block_size
            }
        }),
{
    run_knows_its_place(setup, events);
}

/// A probe can be told the answer to what it asks for, and nothing else: matches as far as there
/// are places for them, or that there are no more keys, where it asks for a key; more matches where
/// it asks for more; and so on.
pub proof fn what_is_asked_for_can_be_told<B, E>(
    setup: Setup,
    events: Seq<Event<B, E>>,
    event: Event<B, E>,
)
    requires
        is_run(setup, events),
    ensures
        ({
            let at = state(setup, events);
            let action = at.action(setup);
            at.accepts(setup, event) <==> match event {
                Event::Probed { matched, .. } => asks_for_key(action) && setup.input_num_rows > 0
                    && at.build_indexes.len() + matched.len() <= setup.max_block_size,
                Event::KeysExhausted => asks_for_key(action),
                Event::Continued { matched, .. } => action is NextIncomplete
                    && at.build_indexes.len() + matched.len() <= setup.max_block_size,
                Event::Interrupt { .. } => action is LoadInterrupt,
                Event::BlockBuilt { .. } => action is BuildBlock,
                Event::BlockFailed { .. } => action is BuildBlock,
                Event::Filters { .. } => false,
                Event::BlockFiltered { .. } => false,
            }
        }),
        state(setup, events).action(setup) is BuildBlock <==> state(setup, events).block is Some,
        state(setup, events).action(setup) is Finish <==> state(setup, events).phase is Finished
            || state(setup, events).phase is Failed,
{
    run_knows_its_place(setup, events);
}

/// A probe begins with nothing, and asks for the first key.
pub proof fn what_comes_first<B, E>(setup: Setup)
    ensures
        ({
            let at = state(setup, Seq::<Event<B, E>>::empty());
            &&& asks_for_key(at.action(setup))
            &&& at.results.len() == 0
            &&& at.build_indexes.len() == 0
            &&& at.probe_indexes.len() == 0
            &&& at.unmatched.len() == 0
            &&& at.error is None
        }),
{
}

/// What the matches of a key lead to. A scalar subquery is refused a second match. Else a row with
/// matches waits with them for a block, and one without waits among the rows without a match. The
/// probe then looks whether the query was interrupted, if this row fills a block of rows without a
/// match, or the matched rows fill one, or it is the last of the input; and else it asks for the
/// next key.
pub proof fn what_follows_a_key<B, E>(
    setup: Setup,
    events: Seq<Event<B, E>>,
    matched: Seq<RowPtr>,
    incomplete_ptr: u64,
)
    requires
        is_run(setup, events),
        state(setup, events).accepts(setup, Event::Probed { matched, incomplete_ptr }),
    ensures
        ({
            let row = matches_told(events).len();
            let at = state(setup, events);
            let next = state(setup, events.push(Event::Probed { matched, incomplete_ptr }));
            let refused = setup.join_type is LeftSingle && matched.len() > 1;
            let null_block_is_full = matched.len() == 0 && at.unmatched.len() + 1
                >= setup.max_block_size;
            let is_due = at.build_indexes.len() + matched.len() >= setup.max_block_size || row + 1
                == setup.input_num_rows;
            &&& next.results == at.results
            &&& next.action(setup) is Finish <==> refused
            &&& next.error == if refused {
                Some(ErrorCode::<E>::Internal)
            } else {
                None
            }
            &&& next.action(setup) is LoadInterrupt <==> !refused && (null_block_is_full || is_due)
            &&& asks_for_key(next.action(setup)) <==> !refused && !null_block_is_full && !is_due
            &&& !refused ==> {
                &&& next.build_indexes == at.build_indexes + matched
                &&& next.probe_indexes == if matched.len() > 0 {
                    at.probe_indexes.push((row as u32, matched.len() as u32))
                } else {
                    at.probe_indexes
                }
                &&& next.unmatched == if matched.len() > 0 {
                    at.unmatched
                } else {
                    at.unmatched.push((row as u32, 1))
                }
            }
        }),
{
    run_knows_its_place(setup, events);
    error_tells_its_cause(setup, events);
    run_goes_on(setup, events, Event::Probed { matched, incomplete_ptr });
    let at = state(setup, events);
    let next = state(setup, events.push(Event::Probed { matched, incomplete_ptr }));
    assert(at.build_indexes + matched =~= if matched.len() > 0 {
        at.build_indexes + matched
    } else {
        at.build_indexes
    });
}

/// What more matches of a key lead to. A scalar subquery is refused a second match, counting those
/// told before. Else the matches wait for a block, which is due where they fill it, or the row is
/// the last of the input.
pub proof fn what_follows_more_matches<B, E>(
    setup: Setup,
    events: Seq<Event<B, E>>,
    matched: Seq<RowPtr>,
    incomplete_ptr: u64,
)
    requires
        is_run(setup, events),
        state(setup, events).accepts(setup, Event::Continued { matched, incomplete_ptr }),
    ensures
        ({
            let told = matches_told(events);
            let at = state(setup, events);
            let next = state(setup, events.push(Event::Continued { matched, incomplete_ptr }));
            let refused = setup.join_type is LeftSingle && told.last().len() + matched.len() > 1;
            let is_due = matched.len() >= setup.max_block_size || told.len()
                == setup.input_num_rows;
            &&& next.results == at.results
            &&& next.unmatched == at.unmatched
            &&& next.action(setup) is Finish <==> refused
            &&& next.error == if refused {
                Some(ErrorCode::<E>::Internal)
            } else {
                None
            }
            &&& next.action(setup) is LoadInterrupt <==> !refused && is_due
            &&& asks_for_key(next.action(setup)) <==> !refused && !is_due
            &&& !refused ==> {
                &&& next.build_indexes == at.build_indexes + matched
                &&& next.probe_indexes == if matched.len() > 0 {
                    at.probe_indexes.push(((told.len() - 1) as u32, matched.len() as u32))
                } else {
                    at.probe_indexes
                }
            }
        }),
{
    let event = Event::<B, E>::Continued { matched, incomplete_ptr };
    let told = matches_told(events);
    let after = matches_told(events.push(event));
    run_knows_its_place(setup, events);
    error_tells_its_cause(setup, events);
    run_goes_on(setup, events, event);
    assert(events.push(event).drop_last() =~= events);
    scalar_subquery_has_one_row(setup, events);
    scalar_subquery_has_one_row(setup, events.push(event));
    error_tells_its_cause(setup, events.push(event));
    assert(after[after.len() - 1] == told.last() + matched);
    assert forall|row: int| 0 <= row < told.len() - 1 implies #[trigger] after[row]
        == told[row] by {}
    assert(told[told.len() - 1] == told.last());
    let at = state(setup, events);
    assert(at.build_indexes + matched =~= if matched.len() > 0 {
        at.build_indexes + matched
    } else {
        at.build_indexes
    });
}

/// What a look whether the query was interrupted leads to. An interrupted query is aborted. Else a
/// block is made: of the rows without a match, if they fill one, and else of all matched rows that
/// wait; it has the columns that the join is to show.
pub proof fn what_follows_a_look_at_the_flag<B, E>(
    setup: Setup,
    events: Seq<Event<B, E>>,
    interrupted: bool,
)
    requires
        is_run(setup, events),
        state(setup, events).accepts(setup, Event::Interrupt { interrupted }),
    ensures
        ({
            let at = state(setup, events);
            let next = state(setup, events.push(Event::Interrupt { interrupted }));
            let of_nulls = at.unmatched.len() > 0 && at.unmatched.len() >= setup.max_block_size;
            &&& next.results == at.results
            &&& interrupted ==> next.action(setup) is Finish && next.error == Some(
                ErrorCode::<E>::AbortedQuery,
            )
            &&& !interrupted ==> {
                let block = next.block.unwrap();
                &&& next.action(setup) is BuildBlock
                &&& next.error is None
                &&& next.block is Some
                &&& has_columns(setup, block)
                &&& block.probe_indexes == if setup.is_probe_projected {
                    next.block_runs
                } else {
                    Seq::empty()
                }
                &&& of_nulls ==> {
                    &&& block.build_indexes is None
                    &&& block.num_rows == at.unmatched.len()
                    &&& next.block_runs == at.unmatched
                    &&& next.unmatched.len() == 0
                    &&& next.build_indexes == at.build_indexes
                    &&& next.probe_indexes == at.probe_indexes
                }
                &&& !of_nulls ==> {
                    &&& block.build_indexes == Some(at.build_indexes)
                    &&& block.num_rows == at.build_indexes.len()
                    &&& next.block_runs == at.probe_indexes
                    &&& next.unmatched == at.unmatched
                    &&& next.build_indexes.len() == 0
                    &&& next.probe_indexes.len() == 0
                }
            }
        }),
{
    run_knows_its_place(setup, events);
    run_goes_on(setup, events, Event::Interrupt { interrupted });
    error_tells_its_cause(setup, events);
    every_block_has_its_columns(setup, events.push(Event::Interrupt { interrupted }));
    let at = state(setup, events);
    assert(at.unmatched.take(at.unmatched.len() as int) =~= at.unmatched);
}

/// What a block that was made leads to. It becomes part of the result as it was made, unless it is
/// an empty block of matched rows. Then, after matched rows, the search for matches of the row goes
/// on if it stopped short, and else the next key is asked for. After rows without a match the probe
/// is done, if there are no more keys, and else goes on as it would have without that block.
pub proof fn what_follows_a_block<B, E>(
    setup: Setup,
    events: Seq<Event<B, E>>,
    data: B,
    num_rows: nat,
)
    requires
        is_run(setup, events),
        state(setup, events).accepts(setup, Event::BlockBuilt { data, num_rows }),
    ensures
        ({
            let at = state(setup, events);
            let next = state(setup, events.push(Event::BlockBuilt { data, num_rows }));
            let block = at.block.unwrap();
            let joined = block.build_indexes is Some;
            let is_due = at.build_indexes.len() >= setup.max_block_size || matches_told(
                events,
            ).len() == setup.input_num_rows;
            &&& next.error is None
            &&& next.results == if joined && num_rows == 0 {
                at.results
            } else {
                at.results.push(ResultView { block, runs: at.block_runs, filter: None, data })
            }
            &&& next.build_indexes == at.build_indexes
            &&& next.probe_indexes == at.probe_indexes
            &&& next.unmatched == at.unmatched
            &&& joined ==> (next.action(setup) is NextIncomplete <==> last_ptr(events) != 0)
            &&& joined ==> (asks_for_key(next.action(setup)) <==> last_ptr(events) == 0)
            &&& !joined && events.last() is KeysExhausted ==> next.action(setup) is Finish
            &&& !joined && !(events.last() is KeysExhausted) ==> {
                &&& next.action(setup) is LoadInterrupt <==> is_due
                &&& asks_for_key(next.action(setup)) <==> !is_due
            }
        }),
{
    run_knows_its_place(setup, events);
    run_goes_on(setup, events, Event::BlockBuilt { data, num_rows });
    error_tells_its_cause(setup, events);
}

/// What comes when there are no more keys. Where rows without a match wait, a block of them is made
/// without a look whether the query was interrupted; else the probe is done.
pub proof fn what_follows_the_last_key<B, E>(setup: Setup, events: Seq<Event<B, E>>)
    requires
        is_run(setup, events),
        state(setup, events).accepts(setup, Event::KeysExhausted),
    ensures
        ({
            let at = state(setup, events);
            let next = state(setup, events.push(Event::KeysExhausted));
            &&& next.error is None
            &&& next.results == at.results
            &&& next.action(setup) is Finish <==> at.unmatched.len() == 0
            &&& next.action(setup) is BuildBlock <==> at.unmatched.len() > 0
            &&& at.unmatched.len() > 0 ==> {
                let block = next.block.unwrap();
                &&& next.block is Some
                &&& has_columns(setup, block)
                &&& block.build_indexes is None
                &&& block.num_rows == at.unmatched.len()
                &&& block.probe_indexes == if setup.is_probe_projected {
                    at.unmatched
                } else {
                    Seq::empty()
                }
                &&& next.block_runs == at.unmatched
            }
        }),
{
    run_knows_its_place(setup, events);
    run_goes_on(setup, events, Event::KeysExhausted);
    error_tells_its_cause(setup, events);
    every_block_has_its_columns(setup, events.push(Event::KeysExhausted));
    let at = state(setup, events);
    assert(at.unmatched.take(at.unmatched.len() as int) =~= at.unmatched);
}

/// A block that could not be made ends the probe with the error that was told.
pub proof fn what_follows_a_failure<B, E>(setup: Setup, events: Seq<Event<B, E>>, error: E)
    requires
        is_run(setup, events),
        state(setup, events).accepts(setup, Event::BlockFailed { error }),
    ensures
        ({
            let next = state(setup, events.push(Event::BlockFailed { error }));
            &&& next.action(setup) is Finish
            &&& next.error == Some(ErrorCode::Block(error))
            &&& next.results == state(setup, events).results
        }),
{
    run_goes_on(setup, events, Event::BlockFailed { error });
}

/// Flags are set when a block was made, and at no other time: by a full join, and by no other; for
/// the build rows of a block of matched rows that is not empty, and for no others.
pub proof fn flags_are_set_by_blocks<B, E>(
    setup: Setup,
    events: Seq<Event<B, E>>,
    event: Event<B, E>,
)
    requires
        is_run(setup, events),
        state(setup, events).accepts(setup, event),
    ensures
        ({
            let at = state(setup, events);
            at.marks(setup, event) == match event {
                Event::BlockBuilt { num_rows, .. } => match at.block.unwrap().build_indexes {
                    Some(ptrs) => if setup.join_type is Full && num_rows > 0 {
                        ptrs
                    } else {
                        Seq::empty()
                    },
                    None => Seq::empty(),
                },
                _ => Seq::empty(),
            }
        }),
{
    run_knows_its_place(setup, events);
}

} // verus!
