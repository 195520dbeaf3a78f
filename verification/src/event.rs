//! What a probe is told, step by step.
use crate::join::Setup;
use crate::scan_map::RowPtr;
use vstd::prelude::*;

verus! {

/// Where a probe stands: what it has to be told next.
#[derive(Clone, Copy, Debug, PartialEq, Eq, Structural)]
pub enum Phase {
    /// The matches of the next key, or that there is none.
    Key,
    /// Whether the query was interrupted, before a block of rows without a match.
    NullInterrupt,
    /// That a block of rows without a match was made.
    NullBlock,
    /// Whether the query was interrupted, before a block of matched rows.
    Interrupt,
    /// That a block of matched rows was made.
    Block,
    /// What the other conditions of the join say of the block just made.
    Filters,
    /// That the block just made was filtered.
    Filtered,
    /// More matches of the present key.
    Incomplete,
    /// That the last block of rows without a match was made.
    LastNullBlock,
    /// Nothing: there is a result.
    Finished,
    /// Nothing: there is an error.
    Failed,
}

/// What a probe is told.
pub enum Event<B, E> {
    /// The matches of the next key, and where the search for them stopped short of the end.
    Probed { matched: Seq<RowPtr>, incomplete_ptr: u64 },
    /// More matches of the present key, and where the search for them stopped short of the end.
    Continued { matched: Seq<RowPtr>, incomplete_ptr: u64 },
    /// There are no more keys.
    KeysExhausted,
    /// Whether the query was interrupted.
    Interrupt { interrupted: bool },
    /// The pending block was made, with so many rows.
    BlockBuilt { data: B, num_rows: nat },
    /// What the other conditions of the join say of the rows of the block.
    Filters { data: B, bits: Option<Seq<bool>>, all_true: bool, all_false: bool },
    /// The block was filtered.
    BlockFiltered { data: B },
    /// The work on a block failed.
    BlockFailed { error: E },
}

/// The matches that are known of each key, after `event` was told.
pub open spec fn with_told<B, E>(
    matches: Seq<Seq<RowPtr>>,
    event: Event<B, E>,
) -> Seq<Seq<RowPtr>> {
    match event {
        Event::Probed { matched, .. } => matches.push(matched),
        Event::Continued { matched, .. } => matches.update(
            matches.len() - 1,
            matches.last() + matched,
        ),
        _ => matches,
    }
}

/// The matches that `events` tell of each key, in the order of the keys.
pub open spec fn matches_told<B, E>(events: Seq<Event<B, E>>) -> Seq<Seq<RowPtr>>
    decreases events.len(),
{
    if events.len() == 0 {
        Seq::empty()
    } else {
        with_told(matches_told(events.drop_last()), events.last())
    }
}

/// Where the last search that `events` tell of stopped, or 0 at its end.
pub open spec fn last_ptr<B, E>(events: Seq<Event<B, E>>) -> u64
    decreases events.len(),
{
    if events.len() == 0 {
        0
    } else {
        match events.last() {
            Event::Probed { incomplete_ptr, .. } => incomplete_ptr,
            Event::Continued { incomplete_ptr, .. } => incomplete_ptr,
            _ => last_ptr(events.drop_last()),
        }
    }
}

/// What is told of a key is of the row behind those told before; what is told further is of the
/// last row; and nothing else tells of matches.
pub proof fn matches_are_of_rows_in_turn<B, E>(events: Seq<Event<B, E>>, event: Event<B, E>)
    ensures
        matches_told(Seq::<Event<B, E>>::empty()).len() == 0,
        ({
            let before = matches_told(events);
            let after = matches_told(events.push(event));
            match event {
                Event::Probed { matched, .. } => after == before.push(matched),
                Event::Continued { matched, .. } => before.len() > 0 ==> {
                    &&& after.len() == before.len()
                    &&& after.last() == before.last() + matched
                    &&& after.drop_last() == before.drop_last()
                },
                _ => after == before,
            }
        }),
{
    assert(events.push(event).drop_last() =~= events);
    let before = matches_told(events);
    let after = matches_told(events.push(event));
    assert(before.len() == after.len() && event is Continued && before.len() > 0
        ==> after.drop_last() =~= before.drop_last());
}

/// Whether `event`, told after the matches `matches`, answers from `table`, which has the matches
/// of each row of the input: what is told of a row is the beginning of its matches, or all of them
/// where the search is at its end; and there are no more keys when every row was probed.
pub open spec fn answers_from<B, E>(
    table: Seq<Seq<RowPtr>>,
    matches: Seq<Seq<RowPtr>>,
    event: Event<B, E>,
) -> bool {
    let told = with_told(matches, event);
    let row = told.len() - 1;
    match event {
        Event::Probed { incomplete_ptr, .. } => {
            &&& told.len() <= table.len()
            &&& told[row].is_prefix_of(table[row])
            &&& incomplete_ptr == 0 ==> told[row] == table[row]
        },
        Event::Continued { incomplete_ptr, .. } => {
            &&& matches.len() > 0
            &&& told[row].is_prefix_of(table[row])
            &&& incomplete_ptr == 0 ==> told[row] == table[row]
        },
        Event::KeysExhausted => matches.len() == table.len(),
        _ => true,
    }
}

/// Whether each event of `events` answers from `table`.
pub open spec fn answers<B, E>(table: Seq<Seq<RowPtr>>, events: Seq<Event<B, E>>) -> bool
    decreases events.len(),
{
    events.len() > 0 ==> {
        &&& answers(table, events.drop_last())
        &&& answers_from(table, matches_told(events.drop_last()), events.last())
    }
}

/// What is told from a table is the beginning of what it has.
pub proof fn told_is_in_table<B, E>(table: Seq<Seq<RowPtr>>, events: Seq<Event<B, E>>)
    requires
        answers(table, events),
    ensures
        matches_told(events).len() <= table.len(),
        forall|row: int|
            0 <= row < matches_told(events).len() ==> (#[trigger] matches_told(
                events,
            )[row]).is_prefix_of(table[row]),
    decreases events.len(),
{
    if events.len() > 0 {
        let before = matches_told(events.drop_last());
        let told = matches_told(events);
        told_is_in_table(table, events.drop_last());
        assert forall|row: int| 0 <= row < told.len() implies (
        #[trigger] told[row]).is_prefix_of(table[row]) by {
            if row < told.len() - 1 || told == before {
                assert(told[row] == before[row]);
            }
        }
    }
}

/// Whether a search for matches that `event` says stopped short of the end did so for want of room,
/// having found something, where `occupied` rows waited for a block already.
pub open spec fn stops_when_full<B, E>(setup: Setup, occupied: nat, event: Event<B, E>) -> bool {
    match event {
        Event::Probed { matched, incomplete_ptr } => incomplete_ptr != 0 ==> matched.len() > 0
            && occupied + matched.len() == setup.max_block_size,
        Event::Continued { matched, incomplete_ptr } => incomplete_ptr != 0 ==> matched.len() > 0
            && occupied + matched.len() == setup.max_block_size,
        _ => true,
    }
}

/// Whether the probe is within a row: its matches are known in part at least.
pub open spec fn within_row(phase: Phase) -> bool {
    match phase {
        Phase::NullInterrupt => true,
        Phase::NullBlock => true,
        Phase::Interrupt => true,
        Phase::Block => true,
        Phase::Filters => true,
        Phase::Filtered => true,
        Phase::Incomplete => true,
        _ => false,
    }
}

} // verus!
