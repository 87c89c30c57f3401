//! Choice of the lightning gateway that routes a payment.
//!
//! The candidates come from the registry of the protocol client, and only the
//! client can tell whether a candidate resolves to a usable gateway. The
//! choice is therefore made step by step: [`GatewaySelection`] names the
//! candidate to resolve next, the application resolves it and reports back.
//! [`selection`] says which candidate is chosen in the end.

use vstd::prelude::*;

verus! {

/// Smallest base fee, in millisatoshi, of a gateway that is taken for its fees.
pub const FEE_BASE_MSAT: u32 = 1_000;

/// Smallest proportional fee, in millionths, of a gateway that is taken for
/// its fees.
pub const FEE_PROPORTIONAL_MILLIONTHS: u32 = 100;

/// What a gateway charges for routing.
#[derive(Clone, Copy, Debug, PartialEq, Eq)]
pub struct FeeSchedule {
    pub base_msat: u32,
    pub proportional_millionths: u32,
}

impl FeeSchedule {
    /// Whether both fees are at or above their thresholds.
    pub open spec fn spec_meets_threshold(&self) -> bool {
        self.base_msat >= FEE_BASE_MSAT && self.proportional_millionths
            >= FEE_PROPORTIONAL_MILLIONTHS
    }

    /// Tests whether both fees are at or above their thresholds.
    #[verifier::when_used_as_spec(spec_meets_threshold)]
    pub fn meets_threshold(&self) -> (meets: bool)
        ensures
            meets == self.spec_meets_threshold(),
    {
        self.base_msat >= FEE_BASE_MSAT && self.proportional_millionths
            >= FEE_PROPORTIONAL_MILLIONTHS
    }
}

/// A gateway as the registry lists it.
#[derive(Clone, Copy, Debug, PartialEq, Eq)]
pub struct GatewayCandidate {
    /// The public key by which the gateway is known, in its compressed form.
    pub gateway_id: [u8; 33],
    pub vetted: bool,
    pub fees: FeeSchedule,
    pub supports_private_payments: bool,
}

/// The first place at which `flags` holds `true`, if there is one.
pub open spec fn first_true(flags: Seq<bool>) -> Option<int> {
    if exists|i: int| 0 <= i < flags.len() && flags[i] {
        Some(
            choose|i: int|
                0 <= i < flags.len() && flags[i] && forall|j: int| 0 <= j < i ==> !flags[j],
        )
    } else {
        None
    }
}

/// Whether candidate `i` is vetted and resolves.
pub open spec fn vetted_and_resolves(
    candidates: Seq<GatewayCandidate>,
    resolves: Seq<bool>,
    i: int,
) -> bool {
    candidates[i].vetted && resolves[i]
}

/// Of each candidate, whether it is vetted and resolves.
pub open spec fn vetted_outcomes(candidates: Seq<GatewayCandidate>, resolves: Seq<bool>) -> Seq<
    bool,
> {
    Seq::new(candidates.len(), |i: int| vetted_and_resolves(candidates, resolves, i))
}

/// The first candidate that is vetted and resolves, if there is one.
pub open spec fn first_vetted(candidates: Seq<GatewayCandidate>, resolves: Seq<bool>) -> Option<
    int,
> {
    first_true(vetted_outcomes(candidates, resolves))
}

/// The first candidate that resolves, if there is one.
pub open spec fn first_resolving(resolves: Seq<bool>) -> Option<int> {
    first_true(resolves)
}

/// Whether candidate `i` replaces the running choice `running` when it is
/// looked at for its fees: it has to meet the thresholds and to resolve, and
/// it does not replace a gateway that supports private payments unless it
/// supports them too.
pub open spec fn replaces(
    candidates: Seq<GatewayCandidate>,
    resolves: Seq<bool>,
    running: Option<int>,
    i: int,
) -> bool {
    &&& candidates[i].fees.spec_meets_threshold()
    &&& resolves[i]
    &&& !(running matches Some(p) && candidates[p].supports_private_payments
        && !candidates[i].supports_private_payments)
}

/// The running choice by fees after the first `n` candidates were looked at.
pub open spec fn chosen_by_fees(
    candidates: Seq<GatewayCandidate>,
    resolves: Seq<bool>,
    n: int,
) -> Option<int>
    decreases n,
{
    if n <= 0 {
        None
    } else {
        let running = chosen_by_fees(candidates, resolves, n - 1);
        if replaces(candidates, resolves, running, n - 1) {
            Some(n - 1)
        } else {
            running
        }
    }
}

/// The candidate that is chosen, by its place in `candidates`, where
/// `resolves` tells of each candidate whether it resolves.
///
/// The first vetted candidate that resolves is chosen, whatever the others
/// offer. Failing that, the choice by fees is made over all candidates.
/// Failing that too, the first candidate that resolves is chosen, and none
/// where no candidate resolves.
pub open spec fn selection(candidates: Seq<GatewayCandidate>, resolves: Seq<bool>) -> Option<int> {
    match first_vetted(candidates, resolves) {
        Some(i) => Some(i),
        None => match chosen_by_fees(candidates, resolves, candidates.len() as int) {
            Some(i) => Some(i),
            None => first_resolving(resolves),
        },
    }
}

/// Before any place at which `flags` holds `true` there is a first such
/// place.
pub proof fn lemma_least_true(flags: Seq<bool>, i: int) -> (k: int)
    requires
        0 <= i < flags.len(),
        flags[i],
    ensures
        0 <= k <= i,
        flags[k],
        forall|j: int| 0 <= j < k ==> !flags[j],
    decreases i,
{
    if exists|j: int| 0 <= j < i && flags[j] {
        let j = choose|j: int| 0 <= j < i && flags[j];
        lemma_least_true(flags, j)
    } else {
        i
    }
}

/// `first_true` is `None` exactly where no flag holds, and else names a place
/// that holds `true` with none such before it.
pub proof fn lemma_first_true(flags: Seq<bool>)
    ensures
        first_true(flags) is None <==> forall|i: int| 0 <= i < flags.len() ==> !flags[i],
        first_true(flags) matches Some(k) ==> 0 <= k < flags.len() && flags[k] && forall|j: int|
            0 <= j < k ==> !flags[j],
{
    if exists|i: int| 0 <= i < flags.len() && flags[i] {
        let i = choose|i: int| 0 <= i < flags.len() && flags[i];
        let k = lemma_least_true(flags, i);
    }
}

/// A place that holds `true`, with none such before it, is the first.
pub proof fn lemma_first_true_is(flags: Seq<bool>, i: int)
    requires
        0 <= i < flags.len(),
        flags[i],
        forall|j: int| 0 <= j < i ==> !flags[j],
    ensures
        first_true(flags) == Some(i),
{
    lemma_first_true(flags);
    let k = first_true(flags).unwrap();
    if k < i {
        assert(!flags[k]);
    }
    if i < k {
        assert(!flags[i]);
    }
}

/// A candidate that is vetted and resolves, with none such before it, is the
/// first of its kind.
pub proof fn lemma_first_vetted(candidates: Seq<GatewayCandidate>, resolves: Seq<bool>, i: int)
    requires
        0 <= i < candidates.len(),
        vetted_and_resolves(candidates, resolves, i),
        forall|j: int| 0 <= j < i ==> !vetted_and_resolves(candidates, resolves, j),
    ensures
        first_vetted(candidates, resolves) == Some(i),
{
    lemma_first_true_is(vetted_outcomes(candidates, resolves), i);
}

/// Where no candidate is vetted and resolves, there is no first of that kind.
pub proof fn lemma_no_vetted(candidates: Seq<GatewayCandidate>, resolves: Seq<bool>)
    requires
        forall|j: int| 0 <= j < candidates.len() ==> !vetted_and_resolves(candidates, resolves, j),
    ensures
        first_vetted(candidates, resolves) is None,
{
    lemma_first_true(vetted_outcomes(candidates, resolves));
}

/// The rule under which a candidate is looked at.
#[derive(Clone, Copy, Debug, PartialEq, Eq, Structural)]
pub enum Stage {
    /// Is the candidate vetted, and does it resolve?
    Vetted,
    /// Are its fees at or above the thresholds, and does it resolve?
    Fees,
    /// Does it resolve at all?
    Fallback,
    /// The choice is made.
    Finished,
}

/// Mathematical value of a [`GatewaySelection`].
pub struct SelectionState {
    pub candidates: Seq<GatewayCandidate>,
    /// The rule that is being applied.
    pub stage: Stage,
    /// The candidate that is being looked at.
    pub cursor: int,
    /// The running choice by fees; once finished, the choice.
    pub running: Option<int>,
    /// Whether the application was asked to resolve the candidate at the
    /// cursor and has not answered yet.
    pub awaiting: bool,
}

/// Mathematical value of a [`SelectionStep`].
pub enum SelectionStepView {
    Resolve(int),
    Done(Option<int>),
}

impl SelectionState {
    /// Where every selection begins.
    pub open spec fn initial(candidates: Seq<GatewayCandidate>) -> SelectionState {
        SelectionState { candidates, stage: Stage::Vetted, cursor: 0, running: None, awaiting: false }
    }

    pub open spec fn well_formed(self) -> bool {
        &&& 0 <= self.cursor <= self.candidates.len()
        &&& self.running matches Some(p) ==> 0 <= p < self.candidates.len()
        &&& self.stage == Stage::Fees ==> self.cursor < self.candidates.len()
        &&& self.awaiting ==> self.cursor < self.candidates.len() && match self.stage {
            Stage::Vetted => self.candidates[self.cursor].vetted,
            Stage::Fees => self.candidates[self.cursor].fees.spec_meets_threshold(),
            Stage::Fallback => true,
            Stage::Finished => false,
        }
    }

    /// Whether the selection waits for the application or is finished.
    pub open spec fn settled(self) -> bool {
        self.awaiting || self.stage == Stage::Finished
    }

    /// One look at the candidate under the cursor, with no answer outstanding:
    /// either the application has to resolve it, or the selection moves on.
    pub open spec fn examine(self) -> SelectionState {
        let n = self.candidates.len();
        match self.stage {
            Stage::Vetted => if self.cursor >= n {
                if self.running is Some {
                    SelectionState { stage: Stage::Finished, ..self }
                } else {
                    SelectionState { stage: Stage::Fallback, cursor: 0, ..self }
                }
            } else if self.candidates[self.cursor].vetted {
                SelectionState { awaiting: true, ..self }
            } else {
                SelectionState { stage: Stage::Fees, ..self }
            },
            Stage::Fees => if self.candidates[self.cursor].fees.spec_meets_threshold() {
                SelectionState { awaiting: true, ..self }
            } else {
                SelectionState { stage: Stage::Vetted, cursor: self.cursor + 1, ..self }
            },
            Stage::Fallback => if self.cursor >= n {
                SelectionState { stage: Stage::Finished, ..self }
            } else {
                SelectionState { awaiting: true, ..self }
            },
            Stage::Finished => self,
        }
    }

    /// The selection after the application has answered whether the candidate
    /// under the cursor resolves.
    pub open spec fn answered(self, resolves: bool) -> SelectionState {
        let i = self.cursor;
        match self.stage {
            Stage::Vetted => if resolves {
                SelectionState { stage: Stage::Finished, running: Some(i), awaiting: false, ..self }
            } else {
                SelectionState { stage: Stage::Fees, awaiting: false, ..self }
            },
            Stage::Fees => SelectionState {
                stage: Stage::Vetted,
                cursor: i + 1,
                running: if resolves && !(self.running matches Some(p)
                    && self.candidates[p].supports_private_payments
                    && !self.candidates[i].supports_private_payments) {
                    Some(i)
                } else {
                    self.running
                },
                awaiting: false,
                ..self
            },
            Stage::Fallback => if resolves {
                SelectionState { stage: Stage::Finished, running: Some(i), awaiting: false, ..self }
            } else {
                SelectionState { cursor: i + 1, awaiting: false, ..self }
            },
            Stage::Finished => self,
        }
    }

    /// How many looks and answers the selection is away from its end, at most.
    pub open spec fn remaining(self) -> nat {
        let n = self.candidates.len() as int;
        let a: int = if self.awaiting {
            1
        } else {
            0
        };
        let place = match self.stage {
            Stage::Vetted => 4 * self.cursor + a,
            Stage::Fees => 4 * self.cursor + 2 + a,
            Stage::Fallback => 4 * n + 1 + 2 * self.cursor + a,
            Stage::Finished => 6 * n + 2,
        };
        if place <= 6 * n + 2 {
            (6 * n + 2 - place) as nat
        } else {
            0
        }
    }

    /// The selection after it has moved on as far as it can without the
    /// application.
    pub open spec fn settle(self) -> SelectionState
        decreases self.remaining(),
    {
        if self.settled() || !self.well_formed() {
            self
        } else {
            self.examine().settle()
        }
    }

    /// The selection after one exchange with the application: an outstanding
    /// answer is taken, any other is ignored, and the selection moves on until
    /// it needs the application again.
    pub open spec fn advance(self, answer: Option<bool>) -> SelectionState {
        if self.awaiting {
            match answer {
                Some(resolves) => self.answered(resolves).settle(),
                None => self,
            }
        } else {
            self.settle()
        }
    }

    /// What a settled selection tells the application.
    pub open spec fn step(self) -> SelectionStepView {
        if self.stage == Stage::Finished {
            SelectionStepView::Done(self.running)
        } else {
            SelectionStepView::Resolve(self.cursor)
        }
    }

    /// Whether the selection is where the rules put it when every answer so
    /// far was taken from `resolves`.
    pub open spec fn tracks(self, resolves: Seq<bool>) -> bool {
        let c = self.candidates;
        &&& self.well_formed()
        &&& resolves.len() == c.len()
        &&& match self.stage {
            Stage::Vetted => {
                &&& forall|j: int| 0 <= j < self.cursor ==> !vetted_and_resolves(c, resolves, j)
                &&& self.running == chosen_by_fees(c, resolves, self.cursor)
            },
            Stage::Fees => {
                &&& forall|j: int| 0 <= j <= self.cursor ==> !vetted_and_resolves(c, resolves, j)
                &&& self.running == chosen_by_fees(c, resolves, self.cursor)
            },
            Stage::Fallback => {
                &&& first_vetted(c, resolves) is None
                &&& chosen_by_fees(c, resolves, c.len() as int) is None
                &&& self.running is None
                &&& forall|j: int| 0 <= j < self.cursor ==> !resolves[j]
            },
            Stage::Finished => self.running == selection(c, resolves),
        }
    }
}

/// A selection tracks every table of outcomes at its beginning.
pub proof fn lemma_initial_tracks(candidates: Seq<GatewayCandidate>, resolves: Seq<bool>)
    requires
        resolves.len() == candidates.len(),
    ensures
        SelectionState::initial(candidates).tracks(resolves),
{
}

/// A look at a candidate keeps a selection on track and brings it nearer to
/// its end.
pub proof fn lemma_examine_tracks(state: SelectionState, resolves: Seq<bool>)
    requires
        state.tracks(resolves),
        !state.settled(),
    ensures
        state.examine().tracks(resolves),
        state.examine().remaining() < state.remaining(),
{
    let c = state.candidates;
    let n = c.len() as int;
    let next = state.examine();
    match state.stage {
        Stage::Vetted => {
            if state.cursor >= n {
                lemma_no_vetted(c, resolves);
                if state.running is Some {
                    assert(next.running == selection(c, resolves));
                }
            } else if !c[state.cursor].vetted {
                assert(!vetted_and_resolves(c, resolves, state.cursor));
            }
        },
        Stage::Fees => {
            if !c[state.cursor].fees.spec_meets_threshold() {
                assert(!replaces(c, resolves, state.running, state.cursor));
                assert(chosen_by_fees(c, resolves, state.cursor + 1) == state.running);
            }
        },
        Stage::Fallback => {
            if state.cursor >= n {
                lemma_first_true(resolves);
            }
        },
        Stage::Finished => {},
    }
}

/// An answer taken from the table keeps a selection on track and brings it
/// nearer to its end.
pub proof fn lemma_answered_tracks(state: SelectionState, resolves: Seq<bool>)
    requires
        state.tracks(resolves),
        state.awaiting,
    ensures
        state.answered(resolves[state.cursor]).tracks(resolves),
        state.answered(resolves[state.cursor]).remaining() < state.remaining(),
        !state.answered(resolves[state.cursor]).awaiting,
{
    let c = state.candidates;
    let i = state.cursor;
    let next = state.answered(resolves[i]);
    match state.stage {
        Stage::Vetted => {
            if resolves[i] {
                assert(vetted_and_resolves(c, resolves, i));
                lemma_first_vetted(c, resolves, i);
            } else {
                assert(!vetted_and_resolves(c, resolves, i));
            }
        },
        Stage::Fees => {
            assert(chosen_by_fees(c, resolves, i + 1) == if replaces(c, resolves, state.running, i) {
                Some(i)
            } else {
                state.running
            });
        },
        Stage::Fallback => {
            if resolves[i] {
                lemma_first_true_is(resolves, i);
            }
        },
        Stage::Finished => {},
    }
}

/// Moving on without the application keeps a selection on track, and leaves it
/// waiting for an answer or finished.
pub proof fn lemma_settle_tracks(state: SelectionState, resolves: Seq<bool>)
    requires
        state.tracks(resolves),
    ensures
        state.settle().tracks(resolves),
        state.settle().settled(),
        state.settle().remaining() <= state.remaining(),
        !state.settled() ==> state.settle().remaining() < state.remaining(),
    decreases state.remaining(),
{
    if !state.settled() {
        lemma_examine_tracks(state, resolves);
        lemma_settle_tracks(state.examine(), resolves);
    }
}

/// The choice depends on the candidates and on what resolves, and on nothing
/// else: as long as every answer given to a selection is the one that
/// `resolves` holds for the candidate asked about, the selection stays on
/// track, comes nearer to its end with every answer, asks only about
/// candidates that exist, and ends with `selection(candidates, resolves)`.
pub proof fn selection_follows_outcomes(
    state: SelectionState,
    resolves: Seq<bool>,
    answer: Option<bool>,
)
    requires
        state.tracks(resolves),
        state.awaiting ==> answer == Some(resolves[state.cursor]),
    ensures
        state.advance(answer).tracks(resolves),
        state.advance(answer).settled(),
        state.awaiting || !state.settled() ==> state.advance(answer).remaining()
            < state.remaining(),
        state.advance(answer).step() matches SelectionStepView::Resolve(i) ==> 0 <= i
            < state.candidates.len() && state.advance(answer).awaiting,
        state.advance(answer).step() matches SelectionStepView::Done(chosen) ==> chosen
            == selection(state.candidates, resolves),
        state.advance(answer).candidates == state.candidates,
{
    if state.awaiting {
        lemma_answered_tracks(state, resolves);
        lemma_settle_tracks(state.answered(resolves[state.cursor]), resolves);
        lemma_settle_keeps_candidates(state.answered(resolves[state.cursor]));
    } else {
        lemma_settle_tracks(state, resolves);
        lemma_settle_keeps_candidates(state);
    }
}

/// Moving on does not touch the candidates.
pub proof fn lemma_settle_keeps_candidates(state: SelectionState)
    ensures
        state.settle().candidates == state.candidates,
    decreases state.remaining(),
{
    if !(state.settled() || !state.well_formed()) {
        lemma_examine_nearer(state);
        lemma_settle_keeps_candidates(state.examine());
    }
}

/// A look at a candidate leaves the selection well formed and nearer to its
/// end.
pub proof fn lemma_examine_nearer(state: SelectionState)
    requires
        state.well_formed(),
        !state.settled(),
    ensures
        state.examine().well_formed(),
        state.examine().remaining() < state.remaining(),
        state.examine().candidates == state.candidates,
{
}

/// What a selection tells the application.
#[derive(Clone, Copy, Debug, PartialEq, Eq)]
pub enum SelectionStep {
    /// Resolve the candidate at this place and report whether that succeeded.
    Resolve(usize),
    /// The choice is made: the candidate at this place, or none.
    Done(Option<usize>),
}

/// The place that an index names, as a mathematical integer.
pub open spec fn place(index: Option<usize>) -> Option<int> {
    match index {
        Some(i) => Some(i as int),
        None => None,
    }
}

impl View for SelectionStep {
    type V = SelectionStepView;

    open spec fn view(&self) -> SelectionStepView {
        match self {
            SelectionStep::Resolve(i) => SelectionStepView::Resolve(*i as int),
            SelectionStep::Done(chosen) => SelectionStepView::Done(place(*chosen)),
        }
    }
}

/// How far a selection has come.
#[derive(Clone, Copy, Debug)]
struct Progress {
    stage: Stage,
    cursor: usize,
    running: Option<usize>,
    awaiting: bool,
}

/// A selection in progress.
#[derive(Debug)]
pub struct GatewaySelection {
    candidates: Vec<GatewayCandidate>,
    progress: Progress,
}

impl View for GatewaySelection {
    type V = SelectionState;

    closed spec fn view(&self) -> SelectionState {
        SelectionState {
            candidates: self.candidates@,
            stage: self.progress.stage,
            cursor: self.progress.cursor as int,
            running: place(self.progress.running),
            awaiting: self.progress.awaiting,
        }
    }
}

impl GatewaySelection {
    #[verifier::type_invariant]
    spec fn inv(&self) -> bool {
        self@.well_formed()
    }

    /// Begins a selection among `candidates`, which are looked at in the order
    /// given.
    pub fn new(candidates: Vec<GatewayCandidate>) -> (selection: GatewaySelection)
        ensures
            selection@ == SelectionState::initial(candidates@),
    {
        GatewaySelection {
            candidates,
            progress: Progress { stage: Stage::Vetted, cursor: 0, running: None, awaiting: false },
        }
    }

    /// The candidates, in the order in which they are looked at.
    pub fn candidates(&self) -> (candidates: &Vec<GatewayCandidate>)
        ensures
            candidates@ == self@.candidates,
    {
        &self.candidates
    }

    /// Takes the application's answer to the last [`SelectionStep::Resolve`],
    /// if one is outstanding, and returns what the application has to do next.
    /// An answer that nothing asked for is ignored; where one is outstanding
    /// and none is given, the question is repeated.
    pub fn advance(&mut self, answer: Option<bool>) -> (step: SelectionStep)
        ensures
            final(self)@ == old(self)@.advance(answer),
            final(self)@.settled(),
            step@ == final(self)@.step(),
    {
        proof {
            use_type_invariant(&*self);
        }
        let n = self.candidates.len();
        let mut stage = self.progress.stage;
        let mut cursor = self.progress.cursor;
        let mut running = self.progress.running;
        let mut awaiting = self.progress.awaiting;
        let ghost candidates = self.candidates@;
        let ghost current = self@;
        if awaiting {
            match answer {
                Some(resolves) => {
                    match stage {
                        Stage::Vetted => {
                            if resolves {
                                stage = Stage::Finished;
                                running = Some(cursor);
                            } else {
                                stage = Stage::Fees;
                            }
                        },
                        Stage::Fees => {
                            let keeps = match running {
                                Some(p) => self.candidates[p].supports_private_payments
                                    && !self.candidates[cursor].supports_private_payments,
                                None => false,
                            };
                            if resolves && !keeps {
                                running = Some(cursor);
                            }
                            stage = Stage::Vetted;
                            cursor = cursor + 1;
                        },
                        Stage::Fallback => {
                            if resolves {
                                stage = Stage::Finished;
                                running = Some(cursor);
                            } else {
                                cursor = cursor + 1;
                            }
                        },
                        Stage::Finished => {},
                    }
                    awaiting = false;
                    proof {
                        current = self@.answered(resolves);
                    }
                },
                None => {
                    return SelectionStep::Resolve(cursor);
                },
            }
        }
        while !awaiting && stage != Stage::Finished
            invariant
                n == self.candidates.len(),
                candidates == self.candidates@,
                current == (SelectionState {
                    candidates,
                    stage,
                    cursor: cursor as int,
                    running: place(running),
                    awaiting,
                }),
                current.well_formed(),
                current.settle() == old(self)@.advance(answer),
            decreases current.remaining(),
        {
            proof {
                lemma_examine_nearer(current);
            }
            match stage {
                Stage::Vetted => {
                    if cursor >= n {
                        if running.is_some() {
                            stage = Stage::Finished;
                        } else {
                            stage = Stage::Fallback;
                            cursor = 0;
                        }
                    } else if self.candidates[cursor].vetted {
                        awaiting = true;
                    } else {
                        stage = Stage::Fees;
                    }
                },
                Stage::Fees => {
                    if self.candidates[cursor].fees.meets_threshold() {
                        awaiting = true;
                    } else {
                        stage = Stage::Vetted;
                        cursor = cursor + 1;
                    }
                },
                Stage::Fallback => {
                    if cursor >= n {
                        stage = Stage::Finished;
                    } else {
                        awaiting = true;
                    }
                },
                Stage::Finished => {},
            }
            proof {
                current = current.examine();
            }
        }
        self.progress = Progress { stage, cursor, running, awaiting };
        if stage == Stage::Finished {
            SelectionStep::Done(running)
        } else {
            SelectionStep::Resolve(cursor)
        }
    }
}

/// The candidates of a registry whose entries say of each candidate whether
/// it resolves.
pub open spec fn registry_candidates(registry: Seq<(GatewayCandidate, bool)>) -> Seq<
    GatewayCandidate,
> {
    registry.map_values(|entry: (GatewayCandidate, bool)| entry.0)
}

/// What resolves, by the entries of a registry.
pub open spec fn registry_outcomes(registry: Seq<(GatewayCandidate, bool)>) -> Seq<bool> {
    registry.map_values(|entry: (GatewayCandidate, bool)| entry.1)
}

/// Chooses a gateway from a registry in which every candidate comes with the
/// outcome of resolving it. Returns the place of the chosen candidate in the
/// registry, or `None` where no candidate resolves.
pub fn select_gateway(registry: &Vec<(GatewayCandidate, bool)>) -> (chosen: Option<usize>)
    ensures
        place(chosen) == selection(registry_candidates(registry@), registry_outcomes(registry@)),
{
    let ghost candidates = registry_candidates(registry@);
    let ghost resolves = registry_outcomes(registry@);
    let mut listed: Vec<GatewayCandidate> = Vec::new();
    let mut i: usize = 0;
    while i < registry.len()
        invariant
            0 <= i <= registry.len(),
            listed@ == registry_candidates(registry@).take(i as int),
        decreases registry.len() - i,
    {
        listed.push(registry[i].0);
        assert(listed@ =~= registry_candidates(registry@).take(i + 1));
        i = i + 1;
    }
    assert(listed@ =~= candidates);
    let mut machine = GatewaySelection::new(listed);
    let mut answer: Option<bool> = None;
    proof {
        lemma_initial_tracks(candidates, resolves);
    }
    loop
        invariant
            candidates == registry_candidates(registry@),
            resolves == registry_outcomes(registry@),
            machine@.candidates == candidates,
            machine@.tracks(resolves),
            machine@.awaiting || !machine@.settled(),
            machine@.awaiting ==> answer == Some(resolves[machine@.cursor]),
        decreases machine@.remaining(),
    {
        let ghost before = machine@;
        let step = machine.advance(answer);
        proof {
            selection_follows_outcomes(before, resolves, answer);
        }
        match step {
            SelectionStep::Resolve(asked) => {
                answer = Some(registry[asked].1);
            },
            SelectionStep::Done(chosen) => {
                return chosen;
            },
        }
    }
}

/// Where no candidate meets the fee thresholds, none is chosen by fees.
pub proof fn lemma_none_chosen_by_fees(
    candidates: Seq<GatewayCandidate>,
    resolves: Seq<bool>,
    n: int,
)
    requires
        n <= candidates.len(),
        forall|i: int|
            0 <= i < candidates.len() ==> !(#[trigger] candidates[i]).fees.spec_meets_threshold()
                || !resolves[i],
    ensures
        chosen_by_fees(candidates, resolves, n) is None,
    decreases n,
{
    if n > 0 {
        lemma_none_chosen_by_fees(candidates, resolves, n - 1);
        assert(!candidates[n - 1].fees.spec_meets_threshold() || !resolves[n - 1]);
    }
}

/// A candidate chosen by fees is among those looked at, meets the thresholds
/// and resolves.
pub proof fn lemma_chosen_by_fees_resolves(
    candidates: Seq<GatewayCandidate>,
    resolves: Seq<bool>,
    n: int,
)
    ensures
        chosen_by_fees(candidates, resolves, n) matches Some(i) ==> 0 <= i < n && resolves[i]
            && candidates[i].fees.spec_meets_threshold(),
    decreases n,
{
    if n > 0 {
        lemma_chosen_by_fees_resolves(candidates, resolves, n - 1);
    }
}

/// A vetted candidate that resolves is chosen before all others: the first
/// such candidate is the choice, whatever fees the candidates charge.
pub proof fn vetted_candidate_is_preferred(
    candidates: Seq<GatewayCandidate>,
    resolves: Seq<bool>,
    i: int,
)
    requires
        resolves.len() == candidates.len(),
        0 <= i < candidates.len(),
        candidates[i].vetted && resolves[i],
        forall|j: int| 0 <= j < i ==> !(candidates[j].vetted && resolves[j]),
    ensures
        selection(candidates, resolves) == Some(i),
{
    lemma_first_vetted(candidates, resolves, i);
}

/// Where no candidate is vetted and none meets the fee thresholds, but some
/// candidate resolves, the first candidate that resolves is chosen.
pub proof fn fallback_is_first_resolving(candidates: Seq<GatewayCandidate>, resolves: Seq<bool>)
    requires
        resolves.len() == candidates.len(),
        forall|i: int| 0 <= i < candidates.len() ==> !(#[trigger] candidates[i]).vetted,
        forall|i: int|
            0 <= i < candidates.len() ==> !(#[trigger] candidates[i]).fees.spec_meets_threshold(),
        exists|i: int| 0 <= i < resolves.len() && resolves[i],
    ensures
        selection(candidates, resolves) == first_resolving(resolves),
        selection(candidates, resolves) matches Some(k) && 0 <= k < resolves.len() && resolves[k]
            && forall|j: int| 0 <= j < k ==> !resolves[j],
{
    assert forall|i: int| 0 <= i < candidates.len() implies !vetted_and_resolves(
        candidates,
        resolves,
        i,
    ) by {
        assert(!candidates[i].vetted);
    }
    lemma_no_vetted(candidates, resolves);
    lemma_none_chosen_by_fees(candidates, resolves, candidates.len() as int);
    lemma_first_true(resolves);
}

/// A gateway is chosen exactly when some candidate resolves, and the chosen
/// candidate is one that resolves.
pub proof fn some_gateway_iff_one_resolves(candidates: Seq<GatewayCandidate>, resolves: Seq<bool>)
    requires
        resolves.len() == candidates.len(),
    ensures
        selection(candidates, resolves) is Some <==> exists|i: int|
            0 <= i < resolves.len() && resolves[i],
        selection(candidates, resolves) matches Some(k) ==> 0 <= k < candidates.len()
            && resolves[k],
{
    lemma_chosen_by_fees_resolves(candidates, resolves, candidates.len() as int);
    lemma_first_true(vetted_outcomes(candidates, resolves));
    lemma_first_true(resolves);
    if first_vetted(candidates, resolves) is Some {
        let k = first_vetted(candidates, resolves).unwrap();
        assert(vetted_outcomes(candidates, resolves)[k]);
        assert(vetted_and_resolves(candidates, resolves, k));
    }
}

} // verus!
