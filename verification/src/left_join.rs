//! The probe of a left join without other conditions.
//!
//! A probe takes the keys of an input block one by one. The matches of a key come from the hash
//! table, and the columns of a block are made by the engine; so the probe says what it needs done
//! next ([`LeftJoinProbe::action`]), and is told the outcome.
//!
//! Matched rows are collected until they fill a block, and so are, separately, the rows without a
//! match. A key may have more matches than the block at hand has room for: then the block is made,
//! and the search goes on where it stopped.
use crate::block::matched_block;
use crate::block::null_block;
use crate::block::result_views;
use crate::block::BlockView;
use crate::block::JoinBlock;
use crate::block::ResultBlock;
use crate::block::ResultView;
use crate::event::matches_told;
use crate::event::Event;
use crate::event::Phase;
use crate::join::row_total;
use crate::join::setup_of;
use crate::join::Action;
use crate::join::ErrorCode;
use crate::join::JoinHashTable;
use crate::join::JoinType;
use crate::join::ProbeState;
use crate::join::Setup;
use crate::left_join_laws::is_faithful;
use crate::left_join_laws::is_left_join;
use crate::left_join_laws::is_run;
use crate::left_join_laws::result_is_the_left_join;
use crate::left_join_laws::run_goes_on;
use crate::left_join_laws::state;
use crate::scan_map::flags;
use crate::scan_map::has_flags;
use crate::scan_map::mark_all;
use crate::scan_map::marked;
use crate::scan_map::marked_nothing;
use crate::scan_map::RowPtr;
use vstd::prelude::*;

verus! {

/// A probe in progress.
pub struct LeftJoinProbe<'a, B, E> {
    table: &'a JoinHashTable,
    probe_state: &'a ProbeState,
    input_num_rows: usize,
    is_probe_projected: bool,
    build_num_rows: usize,
    row: usize,
    phase: Phase,
    probe_indexes: Vec<(u32, u32)>,
    build_indexes: Vec<RowPtr>,
    probe_unmatched_indexes: Vec<(u32, u32)>,
    row_matched: bool,
    incomplete_ptr: u64,
    block: Option<JoinBlock>,
    block_runs: Ghost<Seq<(u32, u32)>>,
    results: Vec<ResultBlock<B>>,
    error: Option<ErrorCode<E>>,
    history: Ghost<Seq<Event<B, E>>>,
}

/// A probe in progress as a mathematical value.
pub struct LeftJoinView<B, E> {
    /// The input row whose key is being probed, or is the next to be.
    pub row: nat,
    pub phase: Phase,
    /// The matched rows that wait for a block: runs of probe rows ...
    pub probe_indexes: Seq<(u32, u32)>,
    /// ... and the build rows that go with them.
    pub build_indexes: Seq<RowPtr>,
    /// The rows without a match that wait for a block.
    pub unmatched: Seq<(u32, u32)>,
    /// Whether a match of the present row was told.
    pub row_matched: bool,
    /// Where the search for matches of the present row stopped, or 0 at its end.
    pub incomplete_ptr: u64,
    /// The block to be made.
    pub block: Option<BlockView>,
    /// The probe rows that it stands for.
    pub block_runs: Seq<(u32, u32)>,
    pub results: Seq<ResultView<B>>,
    pub error: Option<ErrorCode<E>>,
}

impl<B, E> LeftJoinView<B, E> {
    /// The start of a probe.
    pub open spec fn start() -> Self {
        LeftJoinView {
            row: 0,
            phase: Phase::Key,
            probe_indexes: Seq::empty(),
            build_indexes: Seq::empty(),
            unmatched: Seq::empty(),
            row_matched: false,
            incomplete_ptr: 0,
            block: None,
            block_runs: Seq::empty(),
            results: Seq::empty(),
            error: None,
        }
    }

    /// The probe ends with `error`.
    pub open spec fn fail(self, error: ErrorCode<E>) -> Self {
        LeftJoinView {
            phase: Phase::Failed,
            block: None,
            block_runs: Seq::empty(),
            error: Some(error),
            ..self
        }
    }

    /// The probe is done with the present row.
    pub open spec fn next_key(self) -> Self {
        LeftJoinView { row: self.row + 1, phase: Phase::Key, ..self }
    }

    /// Whether the matched rows that wait are to be made a block: they fill it, or the input is at
    /// its last row.
    pub open spec fn is_due(self, setup: Setup) -> bool {
        self.build_indexes.len() >= setup.max_block_size || self.row == setup.input_num_rows - 1
    }

    /// The present row was dealt with as far as its matches are known.
    pub open spec fn settle(self, setup: Setup) -> Self {
        if self.is_due(setup) {
            LeftJoinView { phase: Phase::Interrupt, ..self }
        } else {
            self.next_key()
        }
    }

    /// Matches of the present row are told. A scalar subquery may have one at most.
    pub open spec fn take_matches(self, setup: Setup, matched: Seq<RowPtr>) -> Self {
        if setup.join_type == JoinType::LeftSingle && (self.row_matched || matched.len() > 1) {
            self.fail(ErrorCode::Internal)
        } else {
            LeftJoinView {
                probe_indexes: self.probe_indexes.push((self.row as u32, matched.len() as u32)),
                build_indexes: self.build_indexes + matched,
                row_matched: true,
                ..self
            }.settle(setup)
        }
    }

    /// The matches of the next key are told.
    pub open spec fn after_probe(
        self,
        setup: Setup,
        matched: Seq<RowPtr>,
        incomplete_ptr: u64,
    ) -> Self {
        let at_row = LeftJoinView { row_matched: false, incomplete_ptr, ..self };
        if matched.len() > 0 {
            at_row.take_matches(setup, matched)
        } else {
            let unmatched = self.unmatched.push((self.row as u32, 1));
            if unmatched.len() >= setup.max_block_size {
                LeftJoinView { unmatched, phase: Phase::NullInterrupt, ..at_row }
            } else {
                LeftJoinView { unmatched, ..at_row }.settle(setup)
            }
        }
    }

    /// More matches of the present key are told.
    pub open spec fn after_incomplete(
        self,
        setup: Setup,
        matched: Seq<RowPtr>,
        incomplete_ptr: u64,
    ) -> Self {
        let at_row = LeftJoinView { incomplete_ptr, ..self };
        if matched.len() > 0 {
            at_row.take_matches(setup, matched)
        } else {
            at_row.settle(setup)
        }
    }

    /// There are no more keys.
    pub open spec fn after_last_key(self, setup: Setup) -> Self {
        if self.unmatched.len() == 0 {
            LeftJoinView { phase: Phase::Finished, ..self }
        } else {
            LeftJoinView { phase: Phase::LastNullBlock, ..self }.with_null_block(setup)
        }
    }

    /// The rows without a match that wait become the block to be made.
    pub open spec fn with_null_block(self, setup: Setup) -> Self {
        LeftJoinView {
            unmatched: Seq::empty(),
            block: Some(
                null_block(
                    setup.join_type,
                    setup.build_schema,
                    self.unmatched,
                    self.unmatched.len(),
                    setup.is_probe_projected,
                    setup.is_build_projected,
                ),
            ),
            block_runs: self.unmatched,
            ..self
        }
    }

    /// It is told whether the query was interrupted.
    pub open spec fn after_interrupt(self, setup: Setup, interrupted: bool) -> Self {
        if interrupted {
            self.fail(ErrorCode::AbortedQuery)
        } else if self.phase == Phase::NullInterrupt {
            LeftJoinView { phase: Phase::NullBlock, ..self }.with_null_block(setup)
        } else {
            LeftJoinView {
                phase: Phase::Block,
                probe_indexes: Seq::empty(),
                build_indexes: Seq::empty(),
                block: Some(matched_block(setup, self.probe_indexes, self.build_indexes)),
                block_runs: self.probe_indexes,
                ..self
            }
        }
    }

    /// The block was made. One of matched rows becomes part of the result unless it is empty, one
    /// of rows without a match always.
    pub open spec fn after_block(self, setup: Setup, data: B, num_rows: nat) -> Self {
        let result = ResultView {
            block: self.block.unwrap(),
            runs: self.block_runs,
            filter: None,
            data,
        };
        let dropped = LeftJoinView { block: None, block_runs: Seq::empty(), ..self };
        let kept = LeftJoinView { results: self.results.push(result), ..dropped };
        if self.phase == Phase::NullBlock {
            kept.settle(setup)
        } else if self.phase == Phase::LastNullBlock {
            LeftJoinView { phase: Phase::Finished, ..kept }
        } else {
            let made = if num_rows == 0 {
                dropped
            } else {
                kept
            };
            if self.incomplete_ptr == 0 {
                made.next_key()
            } else {
                LeftJoinView { phase: Phase::Incomplete, ..made }
            }
        }
    }

    /// Whether a block is being made.
    pub open spec fn makes_block(self) -> bool {
        self.phase == Phase::NullBlock || self.phase == Phase::Block || self.phase
            == Phase::LastNullBlock
    }

    /// Whether `event` is what the probe waits for.
    pub open spec fn accepts(self, setup: Setup, event: Event<B, E>) -> bool {
        match event {
            Event::Probed { matched, .. } => {
                &&& self.phase == Phase::Key
                &&& setup.input_num_rows > 0
                &&& self.build_indexes.len() + matched.len() <= setup.max_block_size
            },
            Event::Continued { matched, .. } => {
                &&& self.phase == Phase::Incomplete
                &&& self.build_indexes.len() + matched.len() <= setup.max_block_size
            },
            Event::KeysExhausted => self.phase == Phase::Key,
            Event::Interrupt { .. } => self.phase == Phase::NullInterrupt || self.phase
                == Phase::Interrupt,
            Event::BlockBuilt { .. } => self.makes_block(),
            Event::BlockFailed { .. } => self.makes_block(),
            Event::Filters { .. } => false,
            Event::BlockFiltered { .. } => false,
        }
    }

    /// The probe after it was told of `event`.
    pub open spec fn next(self, setup: Setup, event: Event<B, E>) -> Self {
        match event {
            Event::Probed { matched, incomplete_ptr } => self.after_probe(
                setup,
                matched,
                incomplete_ptr,
            ),
            Event::Continued { matched, incomplete_ptr } => self.after_incomplete(
                setup,
                matched,
                incomplete_ptr,
            ),
            Event::KeysExhausted => self.after_last_key(setup),
            Event::Interrupt { interrupted } => self.after_interrupt(setup, interrupted),
            Event::BlockBuilt { data, num_rows } => self.after_block(setup, data, num_rows),
            Event::BlockFailed { error } => self.fail(ErrorCode::Block(error)),
            Event::Filters { .. } => self,
            Event::BlockFiltered { .. } => self,
        }
    }

    /// The build rows whose flag `event` has the probe set: for a full join, those of a block that
    /// becomes part of the result.
    pub open spec fn marks(self, setup: Setup, event: Event<B, E>) -> Seq<RowPtr> {
        match event {
            Event::BlockBuilt { num_rows, .. } => if setup.join_type == JoinType::Full
                && self.phase == Phase::Block && num_rows != 0 {
                self.block.unwrap().build_indexes.unwrap()
            } else {
                Seq::empty()
            },
            _ => Seq::empty(),
        }
    }

    /// What the probe needs done next.
    pub open spec fn action(self, setup: Setup) -> Action {
        match self.phase {
            Phase::Key => if setup.from_correlated_subquery {
                Action::ProbeHashTable {
                    row: self.row as usize,
                    occupied: self.build_indexes.len() as usize,
                    capacity: setup.max_block_size as usize,
                }
            } else {
                Action::ProbeKey {
                    row: self.row as usize,
                    occupied: self.build_indexes.len() as usize,
                    capacity: setup.max_block_size as usize,
                }
            },
            Phase::Incomplete => Action::NextIncomplete {
                row: self.row as usize,
                incomplete_ptr: self.incomplete_ptr,
                occupied: self.build_indexes.len() as usize,
                capacity: setup.max_block_size as usize,
            },
            Phase::NullInterrupt => Action::LoadInterrupt,
            Phase::Interrupt => Action::LoadInterrupt,
            Phase::NullBlock => Action::BuildBlock,
            Phase::Block => Action::BuildBlock,
            Phase::LastNullBlock => Action::BuildBlock,
            Phase::Filters => Action::Finish,
            Phase::Filtered => Action::Finish,
            Phase::Finished => Action::Finish,
            Phase::Failed => Action::Finish,
        }
    }
}

impl JoinHashTable {
    /// Starts to probe the table with the keys of an input block of `input_num_rows` rows.
    pub fn probe_left_join<'a, B, E>(
        &'a self,
        probe_state: &'a ProbeState,
        input_num_rows: usize,
        is_probe_projected: bool,
    ) -> (probe: LeftJoinProbe<'a, B, E>)
        requires
            row_total(self.chunk_rows@) <= usize::MAX,
            probe_state.max_block_size <= usize::MAX - 7,
        ensures
            probe.wf(),
            probe.setup() == setup_of(*self, *probe_state, input_num_rows, is_probe_projected),
            probe@ == LeftJoinView::<B, E>::start(),
            probe.history() == Seq::<Event<B, E>>::empty(),
    {
        let probe = LeftJoinProbe {
            table: self,
            probe_state,
            input_num_rows,
            is_probe_projected,
            build_num_rows: self.build_num_rows(),
            row: 0,
            phase: Phase::Key,
            probe_indexes: Vec::new(),
            build_indexes: Vec::new(),
            probe_unmatched_indexes: Vec::new(),
            row_matched: false,
            incomplete_ptr: 0,
            block: None,
            block_runs: Ghost(Seq::empty()),
            results: Vec::new(),
            error: None,
            history: Ghost(Seq::empty()),
        };
        assert(probe@.results =~= Seq::<ResultView<B>>::empty());
        probe
    }
}

impl<'a, B, E> View for LeftJoinProbe<'a, B, E> {
    type V = LeftJoinView<B, E>;

    closed spec fn view(&self) -> LeftJoinView<B, E> {
        LeftJoinView {
            row: self.row as nat,
            phase: self.phase,
            probe_indexes: self.probe_indexes@,
            build_indexes: self.build_indexes@,
            unmatched: self.probe_unmatched_indexes@,
            row_matched: self.row_matched,
            incomplete_ptr: self.incomplete_ptr,
            block: match self.block {
                Some(block) => Some(block@),
                None => None,
            },
            block_runs: self.block_runs@,
            results: result_views(self.results@),
            error: self.error,
        }
    }
}

impl<'a, B, E> LeftJoinProbe<'a, B, E> {
    /// What stays the same throughout the probe.
    pub closed spec fn setup(&self) -> Setup {
        setup_of(*self.table, *self.probe_state, self.input_num_rows, self.is_probe_projected)
    }

    /// What the probe was told so far.
    pub closed spec fn history(&self) -> Seq<Event<B, E>> {
        self.history@
    }

    /// The invariant of a probe: it stands where what it was told leads.
    pub closed spec fn wf(&self) -> bool {
        &&& self.inv()
        &&& is_run(self.setup(), self.history())
        &&& self@ == state(self.setup(), self.history())
    }

    /// A probe stands at the end of a run, and has an error exactly when it has failed.
    pub proof fn stands_after_its_history(&self)
        requires
            self.wf(),
        ensures
            is_run(self.setup(), self.history()),
            self@ == state(self.setup(), self.history()),
            self@.error is Some <==> self@.phase == Phase::Failed,
    {
    }

    /// What holds of the parts of a probe.
    spec fn inv(&self) -> bool {
        &&& self.probe_state.max_block_size <= usize::MAX - 7
        &&& self.build_num_rows == row_total(self.table.chunk_rows@)
        &&& self.build_indexes@.len() <= self.probe_state.max_block_size
        &&& self.probe_unmatched_indexes@.len() <= self.probe_state.max_block_size
            || self.probe_unmatched_indexes@.len() <= 1
        &&& self.phase != Phase::NullInterrupt && self.phase != Phase::Failed
            ==> self.probe_unmatched_indexes@.len() == 0 || self.probe_unmatched_indexes@.len()
            < self.probe_state.max_block_size
        &&& self@.makes_block() <==> self.block is Some
        &&& self.block is None ==> self.block_runs@ == Seq::<(u32, u32)>::empty()
        &&& self.phase == Phase::Block ==> self.block.unwrap().build_indexes is Some
        &&& self.phase == Phase::Failed <==> self.error is Some
        &&& self.phase != Phase::Filters && self.phase != Phase::Filtered
        &&& match self.phase {
            Phase::NullInterrupt => self.row < usize::MAX,
            Phase::NullBlock => self.row < usize::MAX,
            Phase::Interrupt => self.row < usize::MAX,
            Phase::Block => self.row < usize::MAX,
            Phase::Incomplete => self.row < usize::MAX,
            _ => true,
        }
    }

    /// What the probe needs done next.
    pub fn action(&self) -> (action: Action)
        requires
            self.wf(),
        ensures
            action == self@.action(self.setup()),
            action is ProbeKey <==> self@.phase is Key && !self.setup().from_correlated_subquery,
            action is ProbeHashTable <==> self@.phase is Key
                && self.setup().from_correlated_subquery,
    {
        let occupied: usize = self.build_indexes.len();
        let capacity: usize = self.probe_state.max_block_size;
        match self.phase {
            Phase::Key => if self.table.hash_join_desc.from_correlated_subquery {
                Action::ProbeHashTable { row: self.row, occupied, capacity }
            } else {
                Action::ProbeKey { row: self.row, occupied, capacity }
            },
            Phase::Incomplete => Action::NextIncomplete {
                row: self.row,
                incomplete_ptr: self.incomplete_ptr,
                occupied,
                capacity,
            },
            Phase::NullInterrupt | Phase::Interrupt => Action::LoadInterrupt,
            Phase::NullBlock | Phase::Block | Phase::LastNullBlock => Action::BuildBlock,
            Phase::Filters | Phase::Filtered | Phase::Finished | Phase::Failed => Action::Finish,
        }
    }

    /// The block to be made, if there is one.
    pub fn block(&self) -> (block: Option<&JoinBlock>)
        requires
            self.wf(),
        ensures
            block is Some <==> self@.block is Some,
            block is Some ==> Some(block.unwrap()@) == self@.block,
            self@.block is Some <==> self@.makes_block(),
    {
        self.block.as_ref()
    }

    /// Whether the probe can be told that the present key has the matches `matched`, first or more.
    pub fn fits(&self, matched: &Vec<RowPtr>) -> (fits: bool)
        requires
            self.wf(),
        ensures
            fits == match self@.phase {
                Phase::Key => self@.row < usize::MAX && self@.accepts(
                    self.setup(),
                    Event::Probed { matched: matched@, incomplete_ptr: 0 },
                ),
                Phase::Incomplete => self@.accepts(
                    self.setup(),
                    Event::Continued { matched: matched@, incomplete_ptr: 0 },
                ),
                _ => false,
            },
    {
        match self.phase {
            Phase::Key => self.row < usize::MAX && self.input_num_rows > 0 && matched.len()
                <= self.probe_state.max_block_size - self.build_indexes.len(),
            Phase::Incomplete => matched.len() <= self.probe_state.max_block_size
                - self.build_indexes.len(),
            _ => false,
        }
    }

    /// The probe is done with the present row as far as its matches are known.
    fn settle(&mut self)
        requires
            old(self).build_indexes@.len() <= old(self).probe_state.max_block_size,
            old(self).row < usize::MAX,
        ensures
            final(self)@ == old(self)@.settle(old(self).setup()),
            final(self).setup() == old(self).setup(),
            final(self).history() == old(self).history(),
            old(self).inv_apart_from_phase() ==> final(self).inv(),
    {
        if self.build_indexes.len() >= self.probe_state.max_block_size || (self.input_num_rows > 0
            && self.row == self.input_num_rows - 1) {
            self.phase = Phase::Interrupt;
        } else {
            self.row = self.row + 1;
            self.phase = Phase::Key;
        }
    }

    /// The invariant between two phases.
    spec fn inv_apart_from_phase(&self) -> bool {
        &&& self.probe_state.max_block_size <= usize::MAX - 7
        &&& self.build_num_rows == row_total(self.table.chunk_rows@)
        &&& self.build_indexes@.len() <= self.probe_state.max_block_size
        &&& self.probe_unmatched_indexes@.len() == 0 || self.probe_unmatched_indexes@.len()
            < self.probe_state.max_block_size
        &&& self.block is None
        &&& self.block_runs@ == Seq::<(u32, u32)>::empty()
        &&& self.error is None
        &&& self.row < usize::MAX
    }

    /// Takes the matches of the present row that were found.
    fn take_matches(&mut self, matched: Vec<RowPtr>)
        requires
            old(self).inv_apart_from_phase(),
            old(self).build_indexes@.len() + matched@.len()
                <= old(self).probe_state.max_block_size,
        ensures
            final(self).inv(),
            final(self).setup() == old(self).setup(),
            final(self).history() == old(self).history(),
            final(self)@ == old(self)@.take_matches(old(self).setup(), matched@),
    {
        if self.table.hash_join_desc.join_type == JoinType::LeftSingle && (self.row_matched
            || matched.len() > 1) {
            self.phase = Phase::Failed;
            self.error = Some(ErrorCode::Internal);
            return;
        }
        let mut matched = matched;
        self.probe_indexes.push((self.row as u32, matched.len() as u32));
        self.build_indexes.append(&mut matched);
        self.row_matched = true;
        self.settle();
    }

    /// The next key has the matches `matched`, and the search for them stopped at
    /// `incomplete_ptr`, or is complete where that is 0.
    pub fn probed(&mut self, matched: Vec<RowPtr>, incomplete_ptr: u64)
        requires
            old(self).wf(),
            old(self)@.accepts(
                old(self).setup(),
                Event::Probed { matched: matched@, incomplete_ptr },
            ),
            old(self)@.row < usize::MAX,
        ensures
            final(self).wf(),
            final(self).setup() == old(self).setup(),
            final(self).history() == old(self).history().push(
                Event::Probed { matched: matched@, incomplete_ptr },
            ),
            final(self)@ == old(self)@.next(
                old(self).setup(),
                Event::Probed { matched: matched@, incomplete_ptr },
            ),
    {
        let ghost event = Event::<B, E>::Probed { matched: matched@, incomplete_ptr };
        proof {
            run_goes_on(self.setup(), self.history@, event);
        }
        self.history = Ghost(self.history@.push(event));
        self.row_matched = false;
        self.incomplete_ptr = incomplete_ptr;
        if matched.len() > 0 {
            self.take_matches(matched);
        } else {
            self.probe_unmatched_indexes.push((self.row as u32, 1));
            if self.probe_unmatched_indexes.len() >= self.probe_state.max_block_size {
                self.phase = Phase::NullInterrupt;
            } else {
                self.settle();
            }
        }
    }

    /// The search for matches of the present key went on to find `matched`, and stopped at
    /// `incomplete_ptr`, or is complete where that is 0.
    pub fn continued(&mut self, matched: Vec<RowPtr>, incomplete_ptr: u64)
        requires
            old(self).wf(),
            old(self)@.accepts(
                old(self).setup(),
                Event::Continued { matched: matched@, incomplete_ptr },
            ),
        ensures
            final(self).wf(),
            final(self).setup() == old(self).setup(),
            final(self).history() == old(self).history().push(
                Event::Continued { matched: matched@, incomplete_ptr },
            ),
            final(self)@ == old(self)@.next(
                old(self).setup(),
                Event::Continued { matched: matched@, incomplete_ptr },
            ),
    {
        let ghost event = Event::<B, E>::Continued { matched: matched@, incomplete_ptr };
        proof {
            run_goes_on(self.setup(), self.history@, event);
        }
        self.history = Ghost(self.history@.push(event));
        self.incomplete_ptr = incomplete_ptr;
        if matched.len() > 0 {
            self.take_matches(matched);
        } else {
            self.settle();
        }
    }

    /// Makes the rows without a match that wait the block to be made.
    fn make_null_block(&mut self)
        requires
            old(self).probe_unmatched_indexes@.len() <= usize::MAX - 7,
        ensures
            final(self)@ == old(self)@.with_null_block(old(self).setup()),
            final(self).setup() == old(self).setup(),
            final(self).history() == old(self).history(),
            final(self).build_num_rows == old(self).build_num_rows,
            final(self).error == old(self).error,
            final(self).block is Some,
    {
        let mut indexes: Vec<(u32, u32)> = Vec::new();
        core::mem::swap(&mut indexes, &mut self.probe_unmatched_indexes);
        let block = self.table.create_left_join_null_block(
            &indexes,
            indexes.len(),
            self.is_probe_projected,
            self.table.is_build_projected,
        );
        self.block = Some(block);
        self.block_runs = Ghost(indexes@);
    }

    /// There are no more keys.
    pub fn keys_exhausted(&mut self)
        requires
            old(self).wf(),
            old(self)@.accepts(old(self).setup(), Event::KeysExhausted),
        ensures
            final(self).wf(),
            final(self).setup() == old(self).setup(),
            final(self).history() == old(self).history().push(
                Event::KeysExhausted,
            ),
            final(self)@ == old(self)@.next(old(self).setup(), Event::KeysExhausted),
    {
        let ghost event = Event::<B, E>::KeysExhausted;
        proof {
            run_goes_on(self.setup(), self.history@, event);
        }
        self.history = Ghost(self.history@.push(event));
        if self.probe_unmatched_indexes.len() == 0 {
            self.phase = Phase::Finished;
        } else {
            self.phase = Phase::LastNullBlock;
            self.make_null_block();
        }
    }

    /// The query was interrupted, or not.
    pub fn interrupt_loaded(&mut self, interrupted: bool)
        requires
            old(self).wf(),
            old(self)@.accepts(old(self).setup(), Event::Interrupt { interrupted }),
        ensures
            final(self).wf(),
            final(self).setup() == old(self).setup(),
            final(self).history() == old(self).history().push(
                Event::Interrupt { interrupted },
            ),
            final(self)@ == old(self)@.next(old(self).setup(), Event::Interrupt { interrupted }),
    {
        let ghost event = Event::<B, E>::Interrupt { interrupted };
        proof {
            run_goes_on(self.setup(), self.history@, event);
        }
        self.history = Ghost(self.history@.push(event));
        if interrupted {
            self.phase = Phase::Failed;
            self.error = Some(ErrorCode::AbortedQuery);
        } else if self.phase == Phase::NullInterrupt {
            self.phase = Phase::NullBlock;
            self.make_null_block();
        } else {
            let mut probe_indexes: Vec<(u32, u32)> = Vec::new();
            let mut build_indexes: Vec<RowPtr> = Vec::new();
            core::mem::swap(&mut probe_indexes, &mut self.probe_indexes);
            core::mem::swap(&mut build_indexes, &mut self.build_indexes);
            self.phase = Phase::Block;
            self.block_runs = Ghost(probe_indexes@);
            self.block = Some(
                self.table.create_matched_block(
                    self.probe_state,
                    probe_indexes,
                    build_indexes,
                    self.build_num_rows,
                    Ghost(self.input_num_rows),
                    self.is_probe_projected,
                ),
            );
        }
    }

    /// The block was made: `data`, of `num_rows` rows. A full join sets the flags of its build rows
    /// in `outer_scan_map`.
    pub fn block_built(
        &mut self,
        outer_scan_map: &mut Vec<Vec<bool>>,
        data: B,
        num_rows: usize,
    )
        requires
            old(self).wf(),
            old(self)@.accepts(
                old(self).setup(),
                Event::BlockBuilt { data, num_rows: num_rows as nat },
            ),
            has_flags(
                flags(old(outer_scan_map)@),
                old(self)@.marks(
                    old(self).setup(),
                    Event::BlockBuilt { data, num_rows: num_rows as nat },
                ),
            ),
        ensures
            final(self).wf(),
            final(self).setup() == old(self).setup(),
            final(self).history() == old(self).history().push(
                Event::BlockBuilt { data, num_rows: num_rows as nat },
            ),
            final(self)@ == old(self)@.next(
                old(self).setup(),
                Event::BlockBuilt { data, num_rows: num_rows as nat },
            ),
            flags(final(outer_scan_map)@) == marked(
                flags(old(outer_scan_map)@),
                old(self)@.marks(
                    old(self).setup(),
                    Event::BlockBuilt { data, num_rows: num_rows as nat },
                ),
            ),
    {
        let ghost event = Event::<B, E>::BlockBuilt { data, num_rows: num_rows as nat };
        proof {
            run_goes_on(self.setup(), self.history@, event);
        }
        self.history = Ghost(self.history@.push(event));
        proof {
            marked_nothing(flags(outer_scan_map@));
        }
        let ghost before = *self;
        let block = self.block.take().unwrap();
        let runs = self.block_runs;
        self.block_runs = Ghost(Seq::empty());
        if self.phase != Phase::Block || num_rows != 0 {
            if self.phase == Phase::Block && self.table.hash_join_desc.join_type
                == JoinType::Full {
                match &block.build_indexes {
                    Some(ptrs) => mark_all(outer_scan_map, ptrs),
                    None => {},
                }
            }
            let result = ResultBlock { block, runs, filter: None, data };
            self.results.push(result);
            assert(result_views(self.results@) =~= before@.results.push(result@));
        }
        match self.phase {
            Phase::NullBlock => self.settle(),
            Phase::LastNullBlock => {
                self.phase = Phase::Finished;
            },
            _ => if self.incomplete_ptr == 0 {
                self.row = self.row + 1;
                self.phase = Phase::Key;
            } else {
                self.phase = Phase::Incomplete;
            },
        }
    }

    /// The block could not be made.
    pub fn block_failed(&mut self, error: E)
        requires
            old(self).wf(),
            old(self)@.accepts(old(self).setup(), Event::BlockFailed { error }),
        ensures
            final(self).wf(),
            final(self).setup() == old(self).setup(),
            final(self).history() == old(self).history().push(
                Event::BlockFailed { error },
            ),
            final(self)@ == old(self)@.next(old(self).setup(), Event::BlockFailed { error }),
    {
        let ghost event = Event::<B, E>::BlockFailed { error };
        proof {
            run_goes_on(self.setup(), self.history@, event);
        }
        self.history = Ghost(self.history@.push(event));
        self.phase = Phase::Failed;
        self.block = None;
        self.block_runs = Ghost(Seq::empty());
        self.error = Some(ErrorCode::Block(error));
    }

    /// The blocks of the result, or the error that ended the probe.
    pub fn into_result(self) -> (result: Result<Vec<ResultBlock<B>>, ErrorCode<E>>)
        requires
            self.wf(),
            self@.action(self.setup()) == Action::Finish,
        ensures
            result is Ok <==> self@.phase == Phase::Finished,
            result is Err <==> self@.phase == Phase::Failed,
            result matches Ok(blocks) ==> result_views(blocks@) == self@.results,
            result matches Err(error) ==> self@.error == Some(error),
            self@.error is Some <==> self@.phase == Phase::Failed,
            is_run(self.setup(), self.history()),
            self@ == state(self.setup(), self.history()),
            result matches Ok(blocks) ==> {
                &&& 0 < self.setup().max_block_size <= u32::MAX
                &&& self.setup().input_num_rows <= u32::MAX + 1
                &&& is_faithful(self.setup(), self.history())
                &&& matches_told(self.history()).len() == self.setup().input_num_rows
            } ==> is_left_join(
                self.setup(),
                result_views(blocks@),
                matches_told(self.history()),
            ),
    {
        proof {
            if {
                &&& 0 < self.setup().max_block_size <= u32::MAX
                &&& self.setup().input_num_rows <= u32::MAX + 1
                &&& is_faithful(self.setup(), self.history())
                &&& matches_told(self.history()).len() == self.setup().input_num_rows
                &&& self@.phase == Phase::Finished
            } {
                result_is_the_left_join(self.setup(), self.history());
            }
        }
        match self.error {
            Some(error) => Err(error),
            None => Ok(self.results),
        }
    }
}

} // verus!
