//! The probe of a left join with other conditions.
//!
//! It goes as the probe without them ([`crate::left_join`]), but a block of matched rows is put to
//! the other conditions of the join before it becomes part of the result, and may lose rows to
//! them. Which probe rows have no match is known only when every key was probed and every block put
//! to the conditions: the rows without a match come last.
use crate::bitmap::all_clear;
use crate::bitmap::all_set;
use crate::bitmap::bitmap_bits;
use crate::block::matched_block;
use crate::block::null_block;
use crate::block::result_views;
use crate::block::BlockView;
use crate::block::JoinBlock;
use crate::block::ResultBlock;
use crate::block::ResultView;
use crate::event::matches_told;
use crate::event::Event;
use crate::event::Phase;
use crate::join::row_total;
use crate::join::setup_of;
use crate::join::Action;
use crate::join::ErrorCode;
use crate::join::JoinHashTable;
use crate::join::JoinType;
use crate::join::ProbeState;
use crate::join::Setup;
use crate::left_join_conjunct_laws::counts_end_clear;
use crate::left_join_conjunct_laws::counts_used;
use crate::left_join_conjunct_laws::is_faithful;
use crate::left_join_conjunct_laws::is_left_join;
use crate::left_join_conjunct_laws::is_run;
use crate::left_join_conjunct_laws::result_is_the_left_join;
use crate::left_join_conjunct_laws::run_goes_on;
use crate::left_join_conjunct_laws::starts_clear;
use crate::left_join_conjunct_laws::state;
use crate::left_join_conjunct_laws::verdicts_told;
use crate::row_state::drop_all;
use crate::row_state::drop_invalid;
use crate::row_state::dropped_by_first_bits;
use crate::row_state::includes;
use crate::row_state::none_dropped;
use crate::row_state::pairs_of;
use crate::row_state::pairs_of_more;
use crate::row_state::scan_rows;
use crate::row_state::scan_stop;
use crate::row_state::scan_zero_rows;
use crate::row_state::single_runs;
use crate::row_state::with_zeros;
use crate::row_state::without_dropped;
use crate::rows::select;
use crate::rows::select_all;
use crate::rows::select_by_first_bits;
use crate::rows::select_none;
use crate::scan_map::flags;
use crate::scan_map::has_flag;
use crate::scan_map::has_flags;
use crate::scan_map::mark_all;
use crate::scan_map::mark_selected;
use crate::scan_map::marked;
use crate::scan_map::marked_nothing;
use crate::scan_map::RowPtr;
use arrow2::bitmap::Bitmap;
use vstd::prelude::*;

verus! {

/// A probe in progress.
pub struct ConjunctProbe<'a, B, E> {
    table: &'a JoinHashTable,
    probe_state: &'a ProbeState,
    input_num_rows: usize,
    is_probe_projected: bool,
    build_num_rows: usize,
    row: usize,
    phase: Phase,
    probe_indexes: Vec<(u32, u32)>,
    build_indexes: Vec<RowPtr>,
    row_state: Vec<usize>,
    row_state_indexes: Vec<usize>,
    row_matched: bool,
    incomplete_ptr: u64,
    block: Option<JoinBlock>,
    block_runs: Ghost<Seq<(u32, u32)>>,
    filter: Option<Bitmap>,
    scan_row: usize,
    results: Vec<ResultBlock<B>>,
    error: Option<ErrorCode<E>>,
    first_counts: Ghost<Seq<usize>>,
    history: Ghost<Seq<Event<B, E>>>,
}

/// A probe in progress as a mathematical value.
pub struct ConjunctView<B, E> {
    /// The input row whose key is being probed, or is the next to be.
    pub row: nat,
    pub phase: Phase,
    /// The matched rows that wait for a block: runs of probe rows ...
    pub probe_indexes: Seq<(u32, u32)>,
    /// ... and the build rows that go with them.
    pub build_indexes: Seq<RowPtr>,
    /// How many pairs each probe row has, as far as is known.
    pub row_state: Seq<usize>,
    /// For each pair that was not put to the other conditions yet, the row that it counts for.
    pub row_state_indexes: Seq<usize>,
    /// Whether a match of the present row was told.
    pub row_matched: bool,
    /// Where the search for matches of the present row stopped, or 0 at its end.
    pub incomplete_ptr: u64,
    /// The block to be made, or that was made last.
    pub block: Option<BlockView>,
    /// The probe rows that it stands for.
    pub block_runs: Seq<(u32, u32)>,
    /// The rows of it that stay.
    pub filter: Option<Seq<bool>>,
    /// Up to which row the rows without a match were collected.
    pub scan_row: nat,
    pub results: Seq<ResultView<B>>,
    pub error: Option<ErrorCode<E>>,
}

/// What the other conditions say of each of `rows` rows.
pub open spec fn verdict(
    bits: Option<Seq<bool>>,
    all_true: bool,
    all_false: bool,
    rows: nat,
) -> Seq<bool> {
    if all_true {
        all_set(rows)
    } else if all_false {
        all_clear(rows)
    } else {
        bits.unwrap().take(rows as int)
    }
}

impl<B, E> ConjunctView<B, E> {
    /// The start of a probe with the counts `row_state`. Where they do not reach, new ones are
    /// used.
    pub open spec fn start(setup: Setup, row_state: Seq<usize>) -> Self {
        ConjunctView {
            row: 0,
            phase: Phase::Key,
            probe_indexes: Seq::empty(),
            build_indexes: Seq::empty(),
            row_state: counts_used(setup, row_state),
            row_state_indexes: Seq::empty(),
            row_matched: false,
            incomplete_ptr: 0,
            block: None,
            block_runs: Seq::empty(),
            filter: None,
            scan_row: 0,
            results: Seq::empty(),
            error: None,
        }
    }

    /// The probe ends with `error`.
    pub open spec fn fail(self, error: ErrorCode<E>) -> Self {
        ConjunctView {
            phase: Phase::Failed,
            block: None,
            block_runs: Seq::empty(),
            filter: None,
            error: Some(error),
            ..self
        }
    }

    /// The probe is done with the present row.
    pub open spec fn next_key(self) -> Self {
        ConjunctView { row: self.row + 1, phase: Phase::Key, ..self }
    }

    /// Whether the matched rows that wait are to be made a block: they fill it, or the input is at
    /// its last row.
    pub open spec fn is_due(self, setup: Setup) -> bool {
        self.build_indexes.len() >= setup.max_block_size || self.row == setup.input_num_rows - 1
    }

    /// The present row was dealt with as far as its matches are known.
    pub open spec fn settle(self, setup: Setup) -> Self {
        if self.is_due(setup) {
            ConjunctView { phase: Phase::Interrupt, ..self }
        } else {
            self.next_key()
        }
    }

    /// Whether these are matches that a scalar subquery may not have: it may have one at most.
    pub open spec fn exceeds_one(self, setup: Setup, matched: Seq<RowPtr>) -> bool {
        setup.join_type == JoinType::LeftSingle && (self.row_matched || matched.len() > 1)
    }

    /// Matches of the present row are told.
    pub open spec fn take_matches(self, setup: Setup, matched: Seq<RowPtr>) -> Self {
        if self.exceeds_one(setup, matched) {
            self.fail(ErrorCode::Internal)
        } else {
            let row = self.row as int;
            ConjunctView {
                probe_indexes: self.probe_indexes.push((row as u32, matched.len() as u32)),
                build_indexes: self.build_indexes + matched,
                row_state: self.row_state.update(
                    row,
                    (self.row_state[row] + matched.len()) as usize,
                ),
                row_state_indexes: self.row_state_indexes + Seq::new(
                    matched.len(),
                    |k: int| row as usize,
                ),
                row_matched: true,
                ..self
            }.settle(setup)
        }
    }

    /// Matches are told, and where the search for them stopped.
    pub open spec fn after_matches(
        self,
        setup: Setup,
        matched: Seq<RowPtr>,
        incomplete_ptr: u64,
    ) -> Self {
        let at_row = ConjunctView { incomplete_ptr, ..self };
        if matched.len() > 0 {
            at_row.take_matches(setup, matched)
        } else {
            at_row.settle(setup)
        }
    }

    /// The matches of the next key are told.
    pub open spec fn after_probe(
        self,
        setup: Setup,
        matched: Seq<RowPtr>,
        incomplete_ptr: u64,
    ) -> Self {
        ConjunctView { row_matched: false, ..self }.after_matches(setup, matched, incomplete_ptr)
    }

    /// It is told whether the query was interrupted.
    pub open spec fn after_interrupt(self, setup: Setup, interrupted: bool) -> Self {
        if interrupted {
            self.fail(ErrorCode::AbortedQuery)
        } else {
            ConjunctView {
                phase: Phase::Block,
                probe_indexes: Seq::empty(),
                build_indexes: Seq::empty(),
                block: Some(matched_block(setup, self.probe_indexes, self.build_indexes)),
                block_runs: self.probe_indexes,
                ..self
            }
        }
    }

    /// The probe is done with the block of matched rows.
    pub open spec fn after_flush(self) -> Self {
        let flushed = ConjunctView {
            row_state_indexes: Seq::empty(),
            block: None,
            block_runs: Seq::empty(),
            filter: None,
            ..self
        };
        if self.incomplete_ptr == 0 {
            flushed.next_key()
        } else {
            ConjunctView { phase: Phase::Incomplete, ..flushed }
        }
    }

    /// The block becomes part of the result.
    pub open spec fn keep_block(self, data: B) -> Self {
        ConjunctView {
            results: self.results.push(
                ResultView {
                    block: self.block.unwrap(),
                    runs: self.block_runs,
                    filter: self.filter,
                    data,
                },
            ),
            ..self
        }
    }

    /// The block was made. One of rows without a match becomes part of the result; one of matched
    /// rows, unless it is empty, is put to the other conditions.
    pub open spec fn after_block(self, setup: Setup, data: B, num_rows: nat) -> Self {
        if self.phase == Phase::NullBlock {
            ConjunctView {
                block: None,
                block_runs: Seq::empty(),
                ..self.keep_block(data)
            }.scan(setup)
        } else if self.phase == Phase::LastNullBlock {
            ConjunctView {
                phase: Phase::Finished,
                block: None,
                block_runs: Seq::empty(),
                ..self.keep_block(data)
            }
        } else if num_rows == 0 {
            self.after_flush()
        } else {
            ConjunctView { phase: Phase::Filters, ..self }
        }
    }

    /// The rows that the block in hand joins.
    pub open spec fn block_ptrs(self) -> Seq<RowPtr> {
        self.block.unwrap().build_indexes.unwrap()
    }

    /// The other conditions were evaluated. The pairs that they drop no longer count for their
    /// rows. Where all stay, the block becomes part of the result as it is; where none does, it
    /// does not; else it has to be filtered.
    pub open spec fn after_filters(
        self,
        data: B,
        bits: Option<Seq<bool>>,
        all_true: bool,
        all_false: bool,
    ) -> Self {
        let stays = verdict(bits, all_true, all_false, self.block_ptrs().len());
        let counted = ConjunctView {
            row_state: without_dropped(self.row_state, self.row_state_indexes, stays),
            ..self
        };
        if all_true {
            counted.keep_block(data).after_flush()
        } else if all_false {
            counted.after_flush()
        } else {
            ConjunctView { phase: Phase::Filtered, filter: bits, ..counted }
        }
    }

    /// There are as many rows without a match as go into a block, or no more.
    pub open spec fn scan(self, setup: Setup) -> Self {
        let limit = if setup.max_block_size == 0 {
            1
        } else {
            setup.max_block_size as int
        };
        let from = self.scan_row as int;
        let to = setup.input_num_rows as int;
        let stop = scan_stop(self.row_state, from, to, limit);
        let rows = scan_rows(self.row_state, from, to, limit);
        let scanned = ConjunctView {
            scan_row: stop as nat,
            row_state: with_zeros(self.row_state, from, stop),
            ..self
        };
        if rows.len() == 0 {
            ConjunctView { phase: Phase::Finished, ..scanned }
        } else {
            ConjunctView {
                phase: if rows.len() >= limit {
                    Phase::NullBlock
                } else {
                    Phase::LastNullBlock
                },
                block: Some(
                    null_block(
                        setup.join_type,
                        setup.build_schema,
                        single_runs(rows),
                        rows.len(),
                        setup.is_probe_projected,
                        setup.is_build_projected,
                    ),
                ),
                block_runs: single_runs(rows),
                ..scanned
            }
        }
    }

    /// Whether a block is being made.
    pub open spec fn makes_block(self) -> bool {
        self.phase == Phase::NullBlock || self.phase == Phase::Block || self.phase
            == Phase::LastNullBlock
    }

    /// Whether a block is being worked on.
    pub open spec fn has_block(self) -> bool {
        self.makes_block() || self.phase == Phase::Filters || self.phase == Phase::Filtered
    }

    /// Whether there is room for the matches of the present row, and its count can take them.
    pub open spec fn has_room(self, setup: Setup, matched: Seq<RowPtr>) -> bool {
        &&& self.build_indexes.len() + matched.len() <= setup.max_block_size
        &&& matched.len() > 0 && !self.exceeds_one(setup, matched) ==> {
            &&& self.row < self.row_state.len()
            &&& self.row_state[self.row as int] + matched.len() <= usize::MAX
        }
    }

    /// Whether `event` is what the probe waits for.
    pub open spec fn accepts(self, setup: Setup, event: Event<B, E>) -> bool {
        match event {
            Event::Probed { matched, .. } => {
                &&& self.phase == Phase::Key
                &&& setup.input_num_rows > 0
                &&& ConjunctView { row_matched: false, ..self }.has_room(setup, matched)
            },
            Event::Continued { matched, .. } => {
                &&& self.phase == Phase::Incomplete
                &&& self.has_room(setup, matched)
            },
            Event::KeysExhausted => self.phase == Phase::Key,
            Event::Interrupt { .. } => self.phase == Phase::Interrupt,
            Event::BlockBuilt { .. } => self.makes_block(),
            Event::Filters { bits, all_true, all_false, .. } => {
                &&& self.phase == Phase::Filters
                &&& !all_true && !all_false ==> bits is Some && self.block_ptrs().len()
                    <= bits.unwrap().len()
            },
            Event::BlockFiltered { .. } => self.phase == Phase::Filtered,
            Event::BlockFailed { .. } => self.has_block(),
        }
    }

    /// The probe after it was told of `event`.
    pub open spec fn next(self, setup: Setup, event: Event<B, E>) -> Self {
        match event {
            Event::Probed { matched, incomplete_ptr } => self.after_probe(
                setup,
                matched,
                incomplete_ptr,
            ),
            Event::Continued { matched, incomplete_ptr } => self.after_matches(
                setup,
                matched,
                incomplete_ptr,
            ),
            Event::KeysExhausted => self.scan(setup),
            Event::Interrupt { interrupted } => self.after_interrupt(setup, interrupted),
            Event::BlockBuilt { data, num_rows } => self.after_block(setup, data, num_rows),
            Event::Filters { data, bits, all_true, all_false } => self.after_filters(
                data,
                bits,
                all_true,
                all_false,
            ),
            Event::BlockFiltered { data } => self.keep_block(data).after_flush(),
            Event::BlockFailed { error } => self.fail(ErrorCode::Block(error)),
        }
    }

    /// The build rows whose flag `event` has the probe set: for a full join, those of the pairs
    /// that stay.
    pub open spec fn marks(self, setup: Setup, event: Event<B, E>) -> Seq<RowPtr> {
        match event {
            Event::Filters { bits, all_true, all_false, .. } => if setup.join_type
                == JoinType::Full {
                let ptrs = self.block_ptrs();
                select(ptrs, verdict(bits, all_true, all_false, ptrs.len()))
            } else {
                Seq::empty()
            },
            _ => Seq::empty(),
        }
    }

    /// What the probe needs done next.
    pub open spec fn action(self, setup: Setup) -> Action {
        match self.phase {
            Phase::Key => if setup.from_correlated_subquery {
                Action::ProbeHashTable {
                    row: self.row as usize,
                    occupied: self.build_indexes.len() as usize,
                    capacity: setup.max_block_size as usize,
                }
            } else {
                Action::ProbeKey {
                    row: self.row as usize,
                    occupied: self.build_indexes.len() as usize,
                    capacity: setup.max_block_size as usize,
                }
            },
            Phase::Incomplete => Action::NextIncomplete {
                row: self.row as usize,
                incomplete_ptr: self.incomplete_ptr,
                occupied: self.build_indexes.len() as usize,
                capacity: setup.max_block_size as usize,
            },
            Phase::Interrupt => Action::LoadInterrupt,
            Phase::NullBlock => Action::BuildBlock,
            Phase::Block => Action::BuildBlock,
            Phase::LastNullBlock => Action::BuildBlock,
            Phase::Filters => Action::OtherFilters,
            Phase::Filtered => Action::FilterBlock,
            Phase::NullInterrupt => Action::Finish,
            Phase::Finished => Action::Finish,
            Phase::Failed => Action::Finish,
        }
    }
}

impl JoinHashTable {
    /// Starts to probe the table with the keys of an input block of `input_num_rows` rows, with the
    /// counts `row_state` for its rows.
    pub fn probe_left_join_with_conjunct<'a, B, E>(
        &'a self,
        probe_state: &'a ProbeState,
        row_state: Vec<usize>,
        input_num_rows: usize,
        is_probe_projected: bool,
    ) -> (probe: ConjunctProbe<'a, B, E>)
        requires
            row_total(self.chunk_rows@) <= usize::MAX,
            probe_state.max_block_size <= usize::MAX - 7,
        ensures
            probe.wf(),
            probe.setup() == setup_of(*self, *probe_state, input_num_rows, is_probe_projected),
            probe@ == ConjunctView::<B, E>::start(probe.setup(), row_state@),
            probe.first_counts() == row_state@,
            probe.history() == Seq::<Event<B, E>>::empty(),
    {
        let build_num_rows: usize = self.build_num_rows();
        let ghost given = row_state@;
        let row_state: Vec<usize> = if input_num_rows > row_state.len() {
            vec![0usize; input_num_rows]
        } else {
            row_state
        };
        let probe = ConjunctProbe {
            table: self,
            probe_state,
            input_num_rows,
            is_probe_projected,
            build_num_rows,
            row: 0,
            phase: Phase::Key,
            probe_indexes: Vec::new(),
            build_indexes: Vec::new(),
            row_state,
            row_state_indexes: Vec::new(),
            row_matched: false,
            incomplete_ptr: 0,
            block: None,
            block_runs: Ghost(Seq::empty()),
            filter: None,
            scan_row: 0,
            results: Vec::new(),
            error: None,
            first_counts: Ghost(given),
            history: Ghost(Seq::empty()),
        };
        assert(probe@.results =~= Seq::<ResultView<B>>::empty());
        assert(probe@.row_state =~= ConjunctView::<B, E>::start(probe.setup(), given).row_state);
        probe
    }
}

impl<'a, B, E> View for ConjunctProbe<'a, B, E> {
    type V = ConjunctView<B, E>;

    closed spec fn view(&self) -> ConjunctView<B, E> {
        ConjunctView {
            row: self.row as nat,
            phase: self.phase,
            probe_indexes: self.probe_indexes@,
            build_indexes: self.build_indexes@,
            row_state: self.row_state@,
            row_state_indexes: self.row_state_indexes@,
            row_matched: self.row_matched,
            incomplete_ptr: self.incomplete_ptr,
            block: match self.block {
                Some(block) => Some(block@),
                None => None,
            },
            block_runs: self.block_runs@,
            filter: match self.filter {
                Some(filter) => Some(bitmap_bits(filter)),
                None => None,
            },
            scan_row: self.scan_row as nat,
            results: result_views(self.results@),
            error: self.error,
        }
    }
}

impl<'a, B, E> ConjunctProbe<'a, B, E> {
    /// What stays the same throughout the probe.
    pub closed spec fn setup(&self) -> Setup {
        setup_of(*self.table, *self.probe_state, self.input_num_rows, self.is_probe_projected)
    }

    /// The part of the invariant that holds in every phase.
    spec fn inv_always(&self) -> bool {
        &&& self.probe_state.max_block_size <= usize::MAX - 7
        &&& self.build_num_rows == row_total(self.table.chunk_rows@)
        &&& self.build_indexes@.len() <= self.probe_state.max_block_size
        &&& self.scan_row <= self.input_num_rows <= self.row_state@.len()
    }

    /// The invariant between two phases, as long as keys are probed.
    spec fn inv_within_row(&self) -> bool {
        &&& self.inv_always()
        &&& includes(self.row_state@, self.row_state_indexes@)
        &&& self.row_state_indexes@.len() == self.build_indexes@.len()
        &&& self.block is None
        &&& self.block_runs@ == Seq::<(u32, u32)>::empty()
        &&& self.filter is None
        &&& self.error is None
        &&& self.row < usize::MAX
    }

    /// The counts that the probe was started with.
    pub closed spec fn first_counts(&self) -> Seq<usize> {
        self.first_counts@
    }

    /// What the probe was told so far.
    pub closed spec fn history(&self) -> Seq<Event<B, E>> {
        self.history@
    }

    /// The invariant of a probe: it stands where what it was told leads.
    pub closed spec fn wf(&self) -> bool {
        &&& self.inv()
        &&& is_run(self.setup(), self.first_counts(), self.history())
        &&& self@ == state(self.setup(), self.first_counts(), self.history())
    }

    /// A probe stands at the end of a run, and has an error exactly when it has failed.
    pub proof fn stands_after_its_history(&self)
        requires
            self.wf(),
        ensures
            is_run(self.setup(), self.first_counts(), self.history()),
            self@ == state(self.setup(), self.first_counts(), self.history()),
            self@.error is Some <==> self@.phase == Phase::Failed,
    {
    }

    /// What holds of the parts of a probe.
    spec fn inv(&self) -> bool {
        &&& self.inv_always()
        &&& self@.has_block() <==> self.block is Some
        &&& self.block is None ==> self.block_runs@ == Seq::<(u32, u32)>::empty()
        &&& self.phase == Phase::Filtered <==> self.filter is Some
        &&& self.phase == Phase::Failed <==> self.error is Some
        &&& self.phase != Phase::NullInterrupt
        &&& match self.phase {
            Phase::Key => {
                &&& includes(self.row_state@, self.row_state_indexes@)
                &&& self.row_state_indexes@.len() == self.build_indexes@.len()
            },
            Phase::Interrupt => self.inv_within_row(),
            Phase::Incomplete => self.inv_within_row(),
            Phase::Block => self.inv_with_block(),
            Phase::Filters => self.inv_with_block(),
            Phase::Filtered => {
                &&& self.row < usize::MAX
                &&& self.block.unwrap().build_indexes is Some
                &&& self.build_indexes@.len() == 0
            },
            _ => true,
        }
    }

    /// The invariant while there is a block of matched rows that was not put to the other
    /// conditions yet.
    spec fn inv_with_block(&self) -> bool {
        &&& self.row < usize::MAX
        &&& self.block.unwrap().build_indexes is Some
        &&& self.build_indexes@.len() == 0
        &&& includes(self.row_state@, self.row_state_indexes@)
        &&& self.row_state_indexes@.len() == self.block.unwrap().build_indexes.unwrap()@.len()
    }

    /// What the probe needs done next.
    pub fn action(&self) -> (action: Action)
        requires
            self.wf(),
        ensures
            action == self@.action(self.setup()),
            action is ProbeKey <==> self@.phase is Key && !self.setup().from_correlated_subquery,
            action is ProbeHashTable <==> self@.phase is Key
                && self.setup().from_correlated_subquery,
    {
        let occupied: usize = self.build_indexes.len();
        let capacity: usize = self.probe_state.max_block_size;
        match self.phase {
            Phase::Key => if self.table.hash_join_desc.from_correlated_subquery {
                Action::ProbeHashTable { row: self.row, occupied, capacity }
            } else {
                Action::ProbeKey { row: self.row, occupied, capacity }
            },
            Phase::Incomplete => Action::NextIncomplete {
                row: self.row,
                incomplete_ptr: self.incomplete_ptr,
                occupied,
                capacity,
            },
            Phase::Interrupt => Action::LoadInterrupt,
            Phase::NullBlock | Phase::Block | Phase::LastNullBlock => Action::BuildBlock,
            Phase::Filters => Action::OtherFilters,
            Phase::Filtered => Action::FilterBlock,
            Phase::NullInterrupt | Phase::Finished | Phase::Failed => Action::Finish,
        }
    }

    /// The block to be made, or that was made last and is still worked on, if there is one.
    pub fn block(&self) -> (block: Option<&JoinBlock>)
        requires
            self.wf(),
        ensures
            block is Some <==> self@.block is Some,
            block is Some ==> Some(block.unwrap()@) == self@.block,
            self@.block is Some <==> self@.has_block(),
    {
        self.block.as_ref()
    }

    /// The filter that the block is to be put through, if it is to be.
    pub fn filter(&self) -> (filter: Option<&Bitmap>)
        requires
            self.wf(),
        ensures
            filter is Some <==> self@.filter is Some,
            filter is Some ==> Some(bitmap_bits(*filter.unwrap())) == self@.filter,
            self@.filter is Some <==> self@.phase == Phase::Filtered,
    {
        self.filter.as_ref()
    }

    /// Whether the probe can be told that the present key has the matches `matched`, first or more.
    pub fn fits(&self, matched: &Vec<RowPtr>) -> (fits: bool)
        requires
            self.wf(),
        ensures
            fits == match self@.phase {
                Phase::Key => self@.row < usize::MAX && self@.accepts(
                    self.setup(),
                    Event::Probed { matched: matched@, incomplete_ptr: 0 },
                ),
                Phase::Incomplete => self@.accepts(
                    self.setup(),
                    Event::Continued { matched: matched@, incomplete_ptr: 0 },
                ),
                _ => false,
            },
    {
        let row_matched = match self.phase {
            Phase::Key => if self.row == usize::MAX || self.input_num_rows == 0 {
                return false;
            } else {
                false
            },
            Phase::Incomplete => self.row_matched,
            _ => {
                return false;
            },
        };
        if matched.len() > self.probe_state.max_block_size - self.build_indexes.len() {
            return false;
        }
        let exceeds_one = self.table.hash_join_desc.join_type == JoinType::LeftSingle && (
        row_matched || matched.len() > 1);
        matched.len() == 0 || exceeds_one || (self.row < self.row_state.len() && matched.len()
            <= usize::MAX - self.row_state[self.row])
    }

    /// The probe is done with the present row as far as its matches are known.
    fn settle(&mut self)
        requires
            old(self).inv_within_row(),
        ensures
            final(self).inv(),
            final(self).first_counts() == old(self).first_counts(),
            final(self).history() == old(self).history(),
            final(self).setup() == old(self).setup(),
            final(self)@ == old(self)@.settle(old(self).setup()),
    {
        if self.build_indexes.len() >= self.probe_state.max_block_size || (self.input_num_rows > 0
            && self.row == self.input_num_rows - 1) {
            self.phase = Phase::Interrupt;
        } else {
            self.row = self.row + 1;
            self.phase = Phase::Key;
        }
    }

    /// Takes the matches of the present row that were found.
    fn take_matches(&mut self, matched: Vec<RowPtr>)
        requires
            old(self).inv_within_row(),
            old(self)@.has_room(old(self).setup(), matched@),
            matched@.len() > 0,
        ensures
            final(self).inv(),
            final(self).first_counts() == old(self).first_counts(),
            final(self).history() == old(self).history(),
            final(self).setup() == old(self).setup(),
            final(self)@ == old(self)@.take_matches(old(self).setup(), matched@),
    {
        if self.table.hash_join_desc.join_type == JoinType::LeftSingle && (self.row_matched
            || matched.len() > 1) {
            self.phase = Phase::Failed;
            self.error = Some(ErrorCode::Internal);
            return;
        }
        let mut matched = matched;
        let probe_matched: usize = matched.len();
        let row: usize = self.row;
        let ghost before = *self;
        self.row_state[row] = self.row_state[row] + probe_matched;
        for k in 0..probe_matched
            invariant
                self.row_state_indexes@ =~= before.row_state_indexes@ + Seq::new(
                    k as nat,
                    |j: int| row,
                ),
                *self == (ConjunctProbe {
                    row_state: self.row_state,
                    row_state_indexes: self.row_state_indexes,
                    ..before
                }),
                self.row_state@ == before.row_state@.update(
                    row as int,
                    (before.row_state@[row as int] + probe_matched) as usize,
                ),
        {
            self.row_state_indexes.push(row);
        }
        self.probe_indexes.push((row as u32, probe_matched as u32));
        self.build_indexes.append(&mut matched);
        self.row_matched = true;
        proof {
            assert forall|r: int| 0 <= r < self.row_state@.len() implies pairs_of(
                self.row_state_indexes@,
                r,
            ) <= #[trigger] self.row_state@[r] by {
                pairs_of_more(before.row_state_indexes@, row, probe_matched as nat, r);
                assert(pairs_of(before.row_state_indexes@, r) <= before.row_state@[r]);
            }
        }
        self.settle();
    }

    /// The next key has the matches `matched`, and the search for them stopped at
    /// `incomplete_ptr`, or is complete where that is 0.
    pub fn probed(&mut self, matched: Vec<RowPtr>, incomplete_ptr: u64)
        requires
            old(self).wf(),
            old(self)@.accepts(
                old(self).setup(),
                Event::Probed { matched: matched@, incomplete_ptr },
            ),
            old(self)@.row < usize::MAX,
        ensures
            final(self).wf(),
            final(self).setup() == old(self).setup(),
            final(self).first_counts() == old(self).first_counts(),
            final(self).history() == old(self).history().push(
                Event::Probed { matched: matched@, incomplete_ptr },
            ),
            final(self)@ == old(self)@.next(
                old(self).setup(),
                Event::Probed { matched: matched@, incomplete_ptr },
            ),
    {
        let ghost event = Event::<B, E>::Probed { matched: matched@, incomplete_ptr };
        proof {
            run_goes_on(self.setup(), self.first_counts@, self.history@, event);
        }
        self.history = Ghost(self.history@.push(event));
        self.row_matched = false;
        self.incomplete_ptr = incomplete_ptr;
        if matched.len() > 0 {
            self.take_matches(matched);
        } else {
            self.settle();
        }
    }

    /// The search for matches of the present key went on to find `matched`, and stopped at
    /// `incomplete_ptr`, or is complete where that is 0.
    pub fn continued(&mut self, matched: Vec<RowPtr>, incomplete_ptr: u64)
        requires
            old(self).wf(),
            old(self)@.accepts(
                old(self).setup(),
                Event::Continued { matched: matched@, incomplete_ptr },
            ),
        ensures
            final(self).wf(),
            final(self).setup() == old(self).setup(),
            final(self).first_counts() == old(self).first_counts(),
            final(self).history() == old(self).history().push(
                Event::Continued { matched: matched@, incomplete_ptr },
            ),
            final(self)@ == old(self)@.next(
                old(self).setup(),
                Event::Continued { matched: matched@, incomplete_ptr },
            ),
    {
        let ghost event = Event::<B, E>::Continued { matched: matched@, incomplete_ptr };
        proof {
            run_goes_on(self.setup(), self.first_counts@, self.history@, event);
        }
        self.history = Ghost(self.history@.push(event));
        self.incomplete_ptr = incomplete_ptr;
        if matched.len() > 0 {
            self.take_matches(matched);
        } else {
            self.settle();
        }
    }

    /// Collects rows without a match for a block.
    fn scan(&mut self)
        requires
            old(self).inv_always(),
            old(self).block is None,
            old(self).block_runs@ == Seq::<(u32, u32)>::empty(),
            old(self).filter is None,
            old(self).error is None,
        ensures
            final(self).inv(),
            final(self).first_counts() == old(self).first_counts(),
            final(self).history() == old(self).history(),
            final(self).setup() == old(self).setup(),
            final(self)@ == old(self)@.scan(old(self).setup()),
    {
        let limit: usize = if self.probe_state.max_block_size == 0 {
            1
        } else {
            self.probe_state.max_block_size
        };
        let (stop, indexes) = scan_zero_rows(
            &mut self.row_state,
            self.scan_row,
            self.input_num_rows,
            limit,
        );
        self.scan_row = stop;
        if indexes.len() == 0 {
            self.phase = Phase::Finished;
        } else {
            self.phase = if indexes.len() >= limit {
                Phase::NullBlock
            } else {
                Phase::LastNullBlock
            };
            let block = self.table.create_left_join_null_block(
                &indexes,
                indexes.len(),
                self.is_probe_projected,
                self.table.is_build_projected,
            );
            self.block = Some(block);
            self.block_runs = Ghost(indexes@);
        }
    }

    /// There are no more keys.
    pub fn keys_exhausted(&mut self)
        requires
            old(self).wf(),
            old(self)@.accepts(old(self).setup(), Event::KeysExhausted),
        ensures
            final(self).wf(),
            final(self).setup() == old(self).setup(),
            final(self).first_counts() == old(self).first_counts(),
            final(self).history() == old(self).history().push(
                Event::KeysExhausted,
            ),
            final(self)@ == old(self)@.next(old(self).setup(), Event::KeysExhausted),
    {
        let ghost event = Event::<B, E>::KeysExhausted;
        proof {
            run_goes_on(self.setup(), self.first_counts@, self.history@, event);
        }
        self.history = Ghost(self.history@.push(event));
        self.scan();
    }

    /// The query was interrupted, or not.
    pub fn interrupt_loaded(&mut self, interrupted: bool)
        requires
            old(self).wf(),
            old(self)@.accepts(old(self).setup(), Event::Interrupt { interrupted }),
        ensures
            final(self).wf(),
            final(self).setup() == old(self).setup(),
            final(self).first_counts() == old(self).first_counts(),
            final(self).history() == old(self).history().push(
                Event::Interrupt { interrupted },
            ),
            final(self)@ == old(self)@.next(old(self).setup(), Event::Interrupt { interrupted }),
    {
        let ghost event = Event::<B, E>::Interrupt { interrupted };
        proof {
            run_goes_on(self.setup(), self.first_counts@, self.history@, event);
        }
        self.history = Ghost(self.history@.push(event));
        if interrupted {
            self.phase = Phase::Failed;
            self.error = Some(ErrorCode::AbortedQuery);
        } else {
            let mut probe_indexes: Vec<(u32, u32)> = Vec::new();
            let mut build_indexes: Vec<RowPtr> = Vec::new();
            core::mem::swap(&mut probe_indexes, &mut self.probe_indexes);
            core::mem::swap(&mut build_indexes, &mut self.build_indexes);
            self.phase = Phase::Block;
            self.block_runs = Ghost(probe_indexes@);
            self.block = Some(
                self.table.create_matched_block(
                    self.probe_state,
                    probe_indexes,
                    build_indexes,
                    self.build_num_rows,
                    Ghost(self.input_num_rows),
                    self.is_probe_projected,
                ),
            );
        }
    }

    /// The probe is done with the block of matched rows.
    fn flush(&mut self)
        requires
            old(self).inv_always(),
            old(self).error is None,
            old(self).row < usize::MAX,
            old(self).build_indexes@.len() == 0,
        ensures
            final(self).inv(),
            final(self).first_counts() == old(self).first_counts(),
            final(self).history() == old(self).history(),
            final(self).setup() == old(self).setup(),
            final(self)@ == old(self)@.after_flush(),
    {
        self.row_state_indexes.clear();
        self.block = None;
        self.block_runs = Ghost(Seq::empty());
        self.filter = None;
        if self.incomplete_ptr == 0 {
            self.row = self.row + 1;
            self.phase = Phase::Key;
        } else {
            self.phase = Phase::Incomplete;
        }
    }

    /// The block becomes part of the result.
    fn keep_block(&mut self, data: B)
        requires
            old(self).block is Some,
        ensures
            final(self)@ == (ConjunctView {
                block: None,
                block_runs: Seq::empty(),
                filter: None,
                ..old(self)@.keep_block(data)
            }),
            final(self).first_counts() == old(self).first_counts(),
            final(self).history() == old(self).history(),
            final(self).setup() == old(self).setup(),
            old(self).inv_always() ==> final(self).inv_always(),
            final(self).block is None,
            final(self).block_runs@ == Seq::<(u32, u32)>::empty(),
            final(self).filter is None,
            final(self).error == old(self).error,
    {
        let ghost before = *self;
        let block = self.block.take().unwrap();
        let runs = self.block_runs;
        self.block_runs = Ghost(Seq::empty());
        let filter = self.filter.take();
        let result = ResultBlock { block, runs, filter, data };
        self.results.push(result);
        assert(result_views(self.results@) =~= before@.results.push(result@));
    }

    /// The block was made: `data`, of `num_rows` rows. It is handed back if it is to be put to the
    /// other conditions.
    pub fn block_built(&mut self, data: B, num_rows: usize) -> (in_hand: Option<B>)
        requires
            old(self).wf(),
            old(self)@.accepts(
                old(self).setup(),
                Event::BlockBuilt { data, num_rows: num_rows as nat },
            ),
        ensures
            final(self).wf(),
            final(self).setup() == old(self).setup(),
            final(self).first_counts() == old(self).first_counts(),
            final(self).history() == old(self).history().push(
                Event::BlockBuilt { data, num_rows: num_rows as nat },
            ),
            final(self)@ == old(self)@.next(
                old(self).setup(),
                Event::BlockBuilt { data, num_rows: num_rows as nat },
            ),
            in_hand == if final(self)@.phase == Phase::Filters {
                Some(data)
            } else {
                None
            },
    {
        let ghost event = Event::<B, E>::BlockBuilt { data, num_rows: num_rows as nat };
        proof {
            run_goes_on(self.setup(), self.first_counts@, self.history@, event);
        }
        self.history = Ghost(self.history@.push(event));
        match self.phase {
            Phase::NullBlock => {
                self.keep_block(data);
                self.scan();
                None
            },
            Phase::LastNullBlock => {
                self.keep_block(data);
                self.phase = Phase::Finished;
                None
            },
            _ => if num_rows == 0 {
                self.flush();
                None
            } else {
                self.phase = Phase::Filters;
                Some(data)
            },
        }
    }

    /// The other conditions were evaluated on the block `data`: all of its rows stay, or none does,
    /// or those whose bit in `validity` is set. The block is handed back if it is to be filtered. A
    /// full join sets the flags of the build rows of the pairs that stay in `outer_scan_map`.
    pub fn filters_evaluated(
        &mut self,
        outer_scan_map: &mut Vec<Vec<bool>>,
        data: B,
        validity: Option<Bitmap>,
        all_true: bool,
        all_false: bool,
    ) -> (in_hand: Option<B>)
        requires
            old(self).wf(),
            old(self)@.accepts(
                old(self).setup(),
                filters_event::<B, E>(data, validity, all_true, all_false),
            ),
            has_flags(
                flags(old(outer_scan_map)@),
                old(self)@.marks(
                    old(self).setup(),
                    filters_event::<B, E>(data, validity, all_true, all_false),
                ),
            ),
        ensures
            final(self).wf(),
            final(self).setup() == old(self).setup(),
            final(self).first_counts() == old(self).first_counts(),
            final(self).history() == old(self).history().push(
                filters_event::<B, E>(data, validity, all_true, all_false),
            ),
            final(self)@ == old(self)@.next(
                old(self).setup(),
                filters_event::<B, E>(data, validity, all_true, all_false),
            ),
            flags(final(outer_scan_map)@) == marked(
                flags(old(outer_scan_map)@),
                old(self)@.marks(
                    old(self).setup(),
                    filters_event::<B, E>(data, validity, all_true, all_false),
                ),
            ),
            in_hand == if final(self)@.phase == Phase::Filtered {
                Some(data)
            } else {
                None
            },
            in_hand is Some <==> !all_true && !all_false,
            !all_true ==> final(self)@.results == old(self)@.results,
            !all_true && all_false ==> flags(final(outer_scan_map)@) == flags(
                old(outer_scan_map)@,
            ),
            !(old(self).setup().join_type is Full) ==> flags(final(outer_scan_map)@) == flags(
                old(outer_scan_map)@,
            ),
    {
        let ghost event = filters_event::<B, E>(data, validity, all_true, all_false);
        proof {
            run_goes_on(self.setup(), self.first_counts@, self.history@, event);
        }
        self.history = Ghost(self.history@.push(event));
        let ghost map = flags(outer_scan_map@);
        let ghost ptrs = self@.block_ptrs();
        let ghost indexes = self.row_state_indexes@;
        proof {
            marked_nothing(map);
        }
        let is_full = self.table.hash_join_desc.join_type == JoinType::Full;
        if all_true {
            proof {
                select_all(ptrs, ptrs.len());
                assert forall|r: int| 0 <= r < self.row_state@.len() implies self.row_state@[r]
                    == #[trigger] without_dropped(
                    self.row_state@,
                    indexes,
                    all_set(ptrs.len()),
                )[r] by {
                    none_dropped(indexes, ptrs.len(), r);
                }
                assert(without_dropped(self.row_state@, indexes, all_set(ptrs.len()))
                    =~= self.row_state@);
            }
            if is_full {
                match &self.block {
                    Some(block) => match &block.build_indexes {
                        Some(build_indexes) => mark_all(outer_scan_map, build_indexes),
                        None => {},
                    },
                    None => {},
                }
            }
            self.keep_block(data);
            self.flush();
            None
        } else if all_false {
            proof {
                select_none(ptrs, ptrs.len());
            }
            drop_all(&mut self.row_state, &self.row_state_indexes);
            self.flush();
            None
        } else {
            let validity = validity.unwrap();
            let ghost bits = bitmap_bits(validity);
            let ghost n = ptrs.len() as int;
            proof {
                select_by_first_bits(ptrs, bits, n);
                assert forall|r: int| 0 <= r < self.row_state@.len() implies without_dropped(
                    self.row_state@,
                    indexes,
                    bits,
                )[r] == #[trigger] without_dropped(self.row_state@, indexes, bits.take(n))[r] by {
                    dropped_by_first_bits(indexes, bits, n, r);
                }
                assert(without_dropped(self.row_state@, indexes, bits) =~= without_dropped(
                    self.row_state@,
                    indexes,
                    bits.take(n),
                ));
            }
            if is_full {
                match &self.block {
                    Some(block) => match &block.build_indexes {
                        Some(build_indexes) => {
                            proof {
                                flags_of_selected(map, ptrs, bits);
                            }
                            mark_selected(outer_scan_map, build_indexes, &validity)
                        },
                        None => {},
                    },
                    None => {},
                }
            }
            drop_invalid(&mut self.row_state, &self.row_state_indexes, &validity);
            self.filter = Some(validity);
            self.phase = Phase::Filtered;
            Some(data)
        }
    }

    /// The block was filtered: `data`.
    pub fn block_filtered(&mut self, data: B)
        requires
            old(self).wf(),
            old(self)@.accepts(old(self).setup(), Event::BlockFiltered { data }),
        ensures
            final(self).wf(),
            final(self).setup() == old(self).setup(),
            final(self).first_counts() == old(self).first_counts(),
            final(self).history() == old(self).history().push(
                Event::BlockFiltered { data },
            ),
            final(self)@ == old(self)@.next(old(self).setup(), Event::BlockFiltered { data }),
    {
        let ghost event = Event::<B, E>::BlockFiltered { data };
        proof {
            run_goes_on(self.setup(), self.first_counts@, self.history@, event);
        }
        self.history = Ghost(self.history@.push(event));
        self.keep_block(data);
        self.flush();
    }

    /// The work on the block failed.
    pub fn block_failed(&mut self, error: E)
        requires
            old(self).wf(),
            old(self)@.accepts(old(self).setup(), Event::BlockFailed { error }),
        ensures
            final(self).wf(),
            final(self).setup() == old(self).setup(),
            final(self).first_counts() == old(self).first_counts(),
            final(self).history() == old(self).history().push(
                Event::BlockFailed { error },
            ),
            final(self)@ == old(self)@.next(old(self).setup(), Event::BlockFailed { error }),
    {
        let ghost event = Event::<B, E>::BlockFailed { error };
        proof {
            run_goes_on(self.setup(), self.first_counts@, self.history@, event);
        }
        self.history = Ghost(self.history@.push(event));
        self.phase = Phase::Failed;
        self.block = None;
        self.block_runs = Ghost(Seq::empty());
        self.filter = None;
        self.error = Some(ErrorCode::Block(error));
    }

    /// The blocks of the result, or the error that ended the probe; and the counts as the probe
    /// left them.
    pub fn into_result(self) -> (result: (
        Result<Vec<ResultBlock<B>>, ErrorCode<E>>,
        Vec<usize>,
    ))
        requires
            self.wf(),
            self@.action(self.setup()) == Action::Finish,
        ensures
            result.0 is Ok <==> self@.phase == Phase::Finished,
            result.0 is Err <==> self@.phase == Phase::Failed,
            result.0 matches Ok(blocks) ==> result_views(blocks@) == self@.results,
            result.0 matches Err(error) ==> self@.error == Some(error),
            self@.error is Some <==> self@.phase == Phase::Failed,
            result.1@ == self@.row_state,
            is_run(self.setup(), self.first_counts(), self.history()),
            self@ == state(self.setup(), self.first_counts(), self.history()),
            result.0 matches Ok(blocks) ==> {
                &&& 0 < self.setup().max_block_size <= u32::MAX
                &&& self.setup().input_num_rows <= u32::MAX + 1
                &&& starts_clear(self.setup(), self.first_counts())
                &&& is_faithful(self.setup(), self.first_counts(), self.history())
                &&& matches_told(self.history()).len() == self.setup().input_num_rows
            } ==> is_left_join(
                self.setup(),
                result_views(blocks@),
                matches_told(self.history()),
                verdicts_told(self.setup(), self.first_counts(), self.history()),
            ),
            result.0 is Ok && matches_told(self.history()).len() <= self.setup().input_num_rows
                ==> result.1@ == with_zeros(
                counts_used(self.setup(), self.first_counts()),
                0,
                self.setup().input_num_rows as int,
            ),
    {
        proof {
            if {
                &&& 0 < self.setup().max_block_size <= u32::MAX
                &&& self.setup().input_num_rows <= u32::MAX + 1
                &&& starts_clear(self.setup(), self.first_counts())
                &&& is_faithful(self.setup(), self.first_counts(), self.history())
                &&& matches_told(self.history()).len() == self.setup().input_num_rows
                &&& self@.phase == Phase::Finished
            } {
                result_is_the_left_join(self.setup(), self.first_counts(), self.history());
            }
            if self@.phase == Phase::Finished && matches_told(self.history()).len()
                <= self.setup().input_num_rows {
                counts_end_clear(self.setup(), self.first_counts(), self.history());
            }
        }
        match self.error {
            Some(error) => (Err(error), self.row_state),
            None => (Ok(self.results), self.row_state),
        }
    }
}

/// The event that the other conditions were evaluated.
pub open spec fn filters_event<B, E>(
    data: B,
    validity: Option<Bitmap>,
    all_true: bool,
    all_false: bool,
) -> Event<B, E> {
    Event::Filters {
        data,
        bits: match validity {
            Some(validity) => Some(bitmap_bits(validity)),
            None => None,
        },
        all_true,
        all_false,
    }
}

/// Flags of the selected rows are flags of the rows whose bit is set.
proof fn flags_of_selected(map: Seq<Seq<bool>>, ptrs: Seq<RowPtr>, bits: Seq<bool>)
    requires
        has_flags(map, select(ptrs, bits)),
    ensures
        forall|k: int| 0 <= k < ptrs.len() && bits[k] ==> has_flag(map, #[trigger] ptrs[k]),
    decreases ptrs.len(),
{
    if ptrs.len() > 0 {
        let rest = select(ptrs.drop_last(), bits);
        let all = select(ptrs, bits);
        assert forall|k: int| 0 <= k < rest.len() implies has_flag(map, #[trigger] rest[k]) by {
            assert(rest[k] == all[k]);
        }
        flags_of_selected(map, ptrs.drop_last(), bits);
        assert forall|k: int| 0 <= k < ptrs.len() && bits[k] implies has_flag(
            map,
            #[trigger] ptrs[k],
        ) by {
            if k < ptrs.len() - 1 {
                assert(ptrs[k] == ptrs.drop_last()[k]);
            } else {
                assert(all[rest.len() as int] == ptrs[k]);
            }
        }
    }
}

} // verus!
