//! Reconciliation of operation lifecycles.
//!
//! Every payment or deposit reports a sequence of states. A reconciler turns
//! each state into the effects that the application has to carry out (a
//! message for the user interface, an update of the operation's durable
//! record, a refresh of balance and history) and stops at the first state
//! that ends the operation.

use vstd::prelude::*;

verus! {

/// Identifier of a bitcoin transaction.
#[derive(Clone, Copy, Debug, PartialEq, Eq)]
pub struct Txid(pub [u8; 32]);

/// The flows whose lifecycles are reconciled.
#[derive(Clone, Copy, Debug, PartialEq, Eq, Structural)]
pub enum OperationKind {
    LightningReceive,
    LightningPay,
    InternalPay,
    OnchainPay,
    OnchainReceive,
}

/// Outcome recorded for an operation.
#[derive(Clone, Copy, Debug, PartialEq, Eq, Structural)]
pub enum RecordStatus {
    Pending,
    Success,
    Failed,
}

/// A change to the durable record of one operation. Each variant stands for
/// one call of the record store, keyed by the operation's identifier.
#[derive(Clone, Copy, Debug, PartialEq, Eq)]
pub enum RecordUpdate {
    LnReceiveFailed,
    LnReceiveSuccess,
    LightningPaymentFailed,
    LightningPaymentPreimage([u8; 32]),
    OnchainPaymentFailed,
    OnchainPaymentTxid(Txid),
    OnchainReceiveFailed,
    OnchainReceiveTxid { txid: Txid, amount: u64, fee_sats: u64 },
    OnchainReceiveConfirmed,
}

impl RecordUpdate {
    /// The status that the record has once the update is applied. An update
    /// that only stores what is known so far leaves the record pending.
    pub open spec fn spec_status(&self) -> RecordStatus {
        match self {
            RecordUpdate::LnReceiveFailed => RecordStatus::Failed,
            RecordUpdate::LnReceiveSuccess => RecordStatus::Success,
            RecordUpdate::LightningPaymentFailed => RecordStatus::Failed,
            RecordUpdate::LightningPaymentPreimage(_) => RecordStatus::Success,
            RecordUpdate::OnchainPaymentFailed => RecordStatus::Failed,
            RecordUpdate::OnchainPaymentTxid(_) => RecordStatus::Success,
            RecordUpdate::OnchainReceiveFailed => RecordStatus::Failed,
            RecordUpdate::OnchainReceiveTxid { .. } => RecordStatus::Pending,
            RecordUpdate::OnchainReceiveConfirmed => RecordStatus::Success,
        }
    }

    /// The flows whose records the update is written to.
    pub open spec fn applies_to(&self, kind: OperationKind) -> bool {
        match self {
            RecordUpdate::LnReceiveFailed | RecordUpdate::LnReceiveSuccess => kind
                == OperationKind::LightningReceive,
            RecordUpdate::LightningPaymentFailed | RecordUpdate::LightningPaymentPreimage(_) => kind
                == OperationKind::LightningPay || kind == OperationKind::InternalPay,
            RecordUpdate::OnchainPaymentFailed | RecordUpdate::OnchainPaymentTxid(_) => kind
                == OperationKind::OnchainPay,
            RecordUpdate::OnchainReceiveFailed
            | RecordUpdate::OnchainReceiveTxid { .. }
            | RecordUpdate::OnchainReceiveConfirmed => kind == OperationKind::OnchainReceive,
        }
    }

    #[verifier::when_used_as_spec(spec_status)]
    pub fn status(&self) -> (s: RecordStatus)
        ensures
            s == self.spec_status(),
    {
        match self {
            RecordUpdate::LnReceiveFailed => RecordStatus::Failed,
            RecordUpdate::LnReceiveSuccess => RecordStatus::Success,
            RecordUpdate::LightningPaymentFailed => RecordStatus::Failed,
            RecordUpdate::LightningPaymentPreimage(_) => RecordStatus::Success,
            RecordUpdate::OnchainPaymentFailed => RecordStatus::Failed,
            RecordUpdate::OnchainPaymentTxid(_) => RecordStatus::Success,
            RecordUpdate::OnchainReceiveFailed => RecordStatus::Failed,
            RecordUpdate::OnchainReceiveTxid { .. } => RecordStatus::Pending,
            RecordUpdate::OnchainReceiveConfirmed => RecordStatus::Success,
        }
    }
}

/// What a successful receive reports to the user interface.
#[derive(Clone, Copy, Debug, PartialEq, Eq)]
pub enum ReceiveSuccessMsg {
    Lightning,
    Onchain { txid: Txid },
}

/// What a successful send reports to the user interface.
#[derive(Clone, Copy, Debug, PartialEq, Eq)]
pub enum SendSuccessMsg {
    Lightning { preimage: [u8; 32] },
    Onchain { txid: Txid },
}

/// A message about the outcome of an operation, for the user interface.
#[derive(Clone, Debug, PartialEq, Eq)]
pub enum UiNotice {
    ReceiveSuccess(ReceiveSuccessMsg),
    ReceiveFailed(String),
    SendSuccess(SendSuccessMsg),
    SendFailure(String),
}

/// Mathematical value of a [`UiNotice`]: reasons are sequences of characters.
pub enum UiNoticeView {
    ReceiveSuccess(ReceiveSuccessMsg),
    ReceiveFailed(Seq<char>),
    SendSuccess(SendSuccessMsg),
    SendFailure(Seq<char>),
}

impl UiNoticeView {
    /// Whether the message reports a failure.
    pub open spec fn is_failure(&self) -> bool {
        self is ReceiveFailed || self is SendFailure
    }
}

impl View for UiNotice {
    type V = UiNoticeView;

    open spec fn view(&self) -> UiNoticeView {
        match self {
            UiNotice::ReceiveSuccess(m) => UiNoticeView::ReceiveSuccess(*m),
            UiNotice::ReceiveFailed(reason) => UiNoticeView::ReceiveFailed(reason@),
            UiNotice::SendSuccess(m) => UiNoticeView::SendSuccess(*m),
            UiNotice::SendFailure(reason) => UiNoticeView::SendFailure(reason@),
        }
    }
}

/// One thing the application does on behalf of a reconciler, in the order in
/// which a reaction lists it.
#[derive(Clone, Debug, PartialEq, Eq)]
pub enum Effect {
    /// Send the message to the user interface.
    Notify(UiNotice),
    /// Apply the update to the operation's durable record. A failure of the
    /// record store is logged and otherwise ignored.
    Persist(RecordUpdate),
    /// Query the current balance and send it to the user interface.
    RefreshBalance,
    /// Read the transaction history again and send it to the user interface.
    RefreshHistory,
}

/// Mathematical value of an [`Effect`].
pub enum EffectView {
    Notify(UiNoticeView),
    Persist(RecordUpdate),
    RefreshBalance,
    RefreshHistory,
}

impl View for Effect {
    type V = EffectView;

    open spec fn view(&self) -> EffectView {
        match self {
            Effect::Notify(n) => EffectView::Notify(n@),
            Effect::Persist(u) => EffectView::Persist(*u),
            Effect::RefreshBalance => EffectView::RefreshBalance,
            Effect::RefreshHistory => EffectView::RefreshHistory,
        }
    }
}

/// How carrying out an effect went.
#[derive(Clone, Copy, Debug, PartialEq, Eq, Structural)]
pub enum EffectOutcome {
    /// The effect was carried out.
    Done,
    /// The record store refused the update. This is logged and nothing more.
    PersistFailed,
    /// The history could not be read, so that none was sent.
    HistoryUnavailable,
    /// The user interface does not take messages any more.
    ChannelClosed,
}

impl EffectOutcome {
    /// Whether the reconciler goes on after an effect that went this way. Only
    /// a user interface that is gone ends it.
    pub open spec fn spec_goes_on(&self) -> bool {
        !(self is ChannelClosed)
    }

    /// Decides whether the reconciler goes on after an effect that went this
    /// way.
    #[verifier::when_used_as_spec(spec_goes_on)]
    pub fn goes_on(&self) -> (on: bool)
        ensures
            on == self.spec_goes_on(),
    {
        match self {
            EffectOutcome::ChannelClosed => false,
            _ => true,
        }
    }
}

/// A lifecycle state of any flow, reduced to what reconciliation needs.
#[derive(Clone, Debug, PartialEq, Eq)]
pub enum LifecycleEvent {
    /// The operation goes on and nothing is to be done.
    Progress,
    /// The operation goes on, with something to show and to store already.
    Provisional { notice: UiNotice, update: RecordUpdate },
    /// The operation ended without success.
    Failure { notice: UiNotice, update: RecordUpdate },
    /// The operation ended with success.
    Success { notice: UiNotice, update: RecordUpdate },
}

/// Mathematical value of a [`LifecycleEvent`].
pub enum LifecycleEventView {
    Progress,
    Provisional { notice: UiNoticeView, update: RecordUpdate },
    Failure { notice: UiNoticeView, update: RecordUpdate },
    Success { notice: UiNoticeView, update: RecordUpdate },
}

impl LifecycleEventView {
    /// Whether the operation ends with this event.
    pub open spec fn is_terminal(&self) -> bool {
        self is Failure || self is Success
    }

    /// Whether message and record update say the same as the event: a failure
    /// reports a failure and marks the record failed, a success reports a
    /// success and marks the record successful, and a provisional event
    /// reports a success while the record stays pending.
    pub open spec fn coherent(&self) -> bool {
        match self {
            LifecycleEventView::Progress => true,
            LifecycleEventView::Provisional { notice, update } => !notice.is_failure()
                && update.spec_status() == RecordStatus::Pending,
            LifecycleEventView::Failure { notice, update } => notice.is_failure()
                && update.spec_status() == RecordStatus::Failed,
            LifecycleEventView::Success { notice, update } => !notice.is_failure()
                && update.spec_status() == RecordStatus::Success,
        }
    }
}

impl View for LifecycleEvent {
    type V = LifecycleEventView;

    open spec fn view(&self) -> LifecycleEventView {
        match self {
            LifecycleEvent::Progress => LifecycleEventView::Progress,
            LifecycleEvent::Provisional { notice, update } => LifecycleEventView::Provisional {
                notice: notice@,
                update: *update,
            },
            LifecycleEvent::Failure { notice, update } => LifecycleEventView::Failure {
                notice: notice@,
                update: *update,
            },
            LifecycleEvent::Success { notice, update } => LifecycleEventView::Success {
                notice: notice@,
                update: *update,
            },
        }
    }
}

/// What a reconciler does about one state: the effects, in order, and whether
/// it stops afterwards.
#[derive(Debug, PartialEq, Eq)]
pub struct Reaction {
    pub effects: Vec<Effect>,
    pub terminal: bool,
}

/// Mathematical value of a [`Reaction`].
pub struct ReactionView {
    pub effects: Seq<EffectView>,
    pub terminal: bool,
}

impl View for Reaction {
    type V = ReactionView;

    open spec fn view(&self) -> ReactionView {
        ReactionView { effects: self.effects@.map_values(|e: Effect| e@), terminal: self.terminal }
    }
}

/// The reaction that an event calls for. The user interface is told first, the
/// record is written second; balance and history are refreshed after a
/// success, the history alone after a provisional event, neither after a
/// failure.
pub open spec fn reaction_to(event: LifecycleEventView) -> ReactionView {
    match event {
        LifecycleEventView::Progress => ReactionView { effects: seq![], terminal: false },
        LifecycleEventView::Provisional { notice, update } => ReactionView {
            effects: seq![
                EffectView::Notify(notice),
                EffectView::Persist(update),
                EffectView::RefreshHistory,
            ],
            terminal: false,
        },
        LifecycleEventView::Failure { notice, update } => ReactionView {
            effects: seq![EffectView::Notify(notice), EffectView::Persist(update)],
            terminal: true,
        },
        LifecycleEventView::Success { notice, update } => ReactionView {
            effects: seq![
                EffectView::Notify(notice),
                EffectView::Persist(update),
                EffectView::RefreshBalance,
                EffectView::RefreshHistory,
            ],
            terminal: true,
        },
    }
}

/// Computes the reaction to one event.
pub fn react(event: LifecycleEvent) -> (reaction: Reaction)
    ensures
        reaction@ == reaction_to(event@),
{
    let mut effects: Vec<Effect> = Vec::new();
    let terminal = match event {
        LifecycleEvent::Progress => false,
        LifecycleEvent::Provisional { notice, update } => {
            effects.push(Effect::Notify(notice));
            effects.push(Effect::Persist(update));
            effects.push(Effect::RefreshHistory);
            false
        },
        LifecycleEvent::Failure { notice, update } => {
            effects.push(Effect::Notify(notice));
            effects.push(Effect::Persist(update));
            true
        },
        LifecycleEvent::Success { notice, update } => {
            effects.push(Effect::Notify(notice));
            effects.push(Effect::Persist(update));
            effects.push(Effect::RefreshBalance);
            effects.push(Effect::RefreshHistory);
            true
        },
    };
    let reaction = Reaction { effects, terminal };
    assert(reaction@.effects =~= reaction_to(event@).effects);
    reaction
}

/// A state reported by one of the flows.
pub trait LifecycleState: Sized {
    /// The flow that reports states of this type.
    spec fn kind() -> OperationKind;

    /// Whether the state holds what its reconciler reads from it.
    spec fn well_formed(&self) -> bool;

    /// What the state means for reconciliation.
    spec fn event(&self) -> LifecycleEventView;

    /// Tests whether the state is well formed.
    fn check(&self) -> (ok: bool)
        ensures
            ok == self.well_formed(),
    ;

    /// Reduces the state to its event.
    fn classify(&self) -> (event: LifecycleEvent)
        requires
            self.well_formed(),
        ensures
            event@ == self.event(),
    ;

    /// The event of a well-formed state is coherent, and what it writes goes
    /// to a record of this flow.
    proof fn event_is_coherent(&self)
        requires
            self.well_formed(),
        ensures
            self.event().coherent(),
            self.event() matches LifecycleEventView::Provisional { update, .. }
                ==> update.applies_to(Self::kind()),
            self.event() matches LifecycleEventView::Failure { update, .. } ==> update.applies_to(
                Self::kind(),
            ),
            self.event() matches LifecycleEventView::Success { update, .. } ==> update.applies_to(
                Self::kind(),
            ),
    ;
}

/// The events of a sequence of states, in order.
pub open spec fn events_of<S: LifecycleState>(states: Seq<S>) -> Seq<LifecycleEventView> {
    states.map_values(|s: S| s.event())
}

/// Whether a reconciler that is fed `events` handles exactly the first `n` of
/// them: it goes on as long as no event is terminal, and stops with the first
/// that is.
pub open spec fn stops_after(events: Seq<LifecycleEventView>, n: int) -> bool {
    &&& 0 <= n <= events.len()
    &&& forall|i: int| 0 <= i < n - 1 ==> !(#[trigger] events[i]).is_terminal()
    &&& n < events.len() ==> n >= 1 && events[n - 1].is_terminal()
}

/// Whether `reactions` is what reconciling `events` yields: one reaction for
/// each event handled, and no event handled after a terminal one.
pub open spec fn reconciles(events: Seq<LifecycleEventView>, reactions: Seq<ReactionView>) -> bool {
    &&& stops_after(events, reactions.len() as int)
    &&& forall|i: int|
        0 <= i < reactions.len() ==> #[trigger] reactions[i] == reaction_to(events[i])
}

/// The mathematical values of a list of reactions.
pub open spec fn reactions_view(reactions: Seq<Reaction>) -> Seq<ReactionView> {
    reactions.map_values(|r: Reaction| r@)
}

/// Reconciles one operation: handles the states in the order in which they
/// were reported, up to and including the first terminal one, and returns the
/// reaction to each. States after a terminal one are not looked at.
pub fn reconcile<S: LifecycleState>(states: &Vec<S>) -> (reactions: Vec<Reaction>)
    requires
        forall|i: int| 0 <= i < states.len() ==> (#[trigger] states[i]).well_formed(),
    ensures
        reconciles(events_of(states@), reactions_view(reactions@)),
{
    let mut reactions: Vec<Reaction> = Vec::new();
    let mut i: usize = 0;
    let mut stopped = false;
    while i < states.len() && !stopped
        invariant
            0 <= i <= states.len(),
            reactions.len() == i,
            forall|j: int| 0 <= j < states.len() ==> (#[trigger] states[j]).well_formed(),
            forall|j: int|
                0 <= j < i ==> #[trigger] reactions_view(reactions@)[j] == reaction_to(
                    events_of(states@)[j],
                ),
            forall|j: int| 0 <= j < i - 1 ==> !(#[trigger] events_of(states@)[j]).is_terminal(),
            stopped ==> i >= 1 && events_of(states@)[i - 1].is_terminal(),
            !stopped && i >= 1 ==> !events_of(states@)[i - 1].is_terminal(),
        decreases states.len() - i + if stopped { 0int } else { 1int },
    {
        let reaction = react(states[i].classify());
        stopped = reaction.terminal;
        let ghost before = reactions_view(reactions@);
        reactions.push(reaction);
        assert forall|j: int| 0 <= j < i + 1 implies #[trigger] reactions_view(reactions@)[j]
            == reaction_to(events_of(states@)[j]) by {
            if j < i {
                assert(reactions_view(reactions@)[j] == before[j]);
            }
        }
        i = i + 1;
    }
    reactions
}

impl ReactionView {
    /// Whether exactly one of the effects is a message for the user interface.
    pub open spec fn notifies_once(&self) -> bool {
        exists|j: int|
            0 <= j < self.effects.len() && #[trigger] self.effects[j] is Notify && forall|k: int|
                0 <= k < self.effects.len() && #[trigger] self.effects[k] is Notify ==> k == j
    }

    /// Whether exactly one of the effects writes to the durable record.
    pub open spec fn persists_once(&self) -> bool {
        exists|j: int|
            0 <= j < self.effects.len() && #[trigger] self.effects[j] is Persist && forall|k: int|
                0 <= k < self.effects.len() && #[trigger] self.effects[k] is Persist ==> k == j
    }

    /// Whether the effects include a refresh of the balance.
    pub open spec fn refreshes_balance(&self) -> bool {
        exists|j: int| 0 <= j < self.effects.len() && #[trigger] self.effects[j] is RefreshBalance
    }

    /// Whether the effects include a refresh of the history.
    pub open spec fn refreshes_history(&self) -> bool {
        exists|j: int| 0 <= j < self.effects.len() && #[trigger] self.effects[j] is RefreshHistory
    }

    /// Whether the reaction has no effect at all.
    pub open spec fn is_silent(&self) -> bool {
        self.effects.len() == 0
    }
}

/// The reaction to a terminal event stops the reconciler, tells the user
/// interface once and writes the record once, the message first; the reaction
/// to any other event lets the reconciler go on.
pub proof fn terminal_reaction_notifies_and_persists_once(event: LifecycleEventView)
    ensures
        reaction_to(event).terminal <==> event.is_terminal(),
        event.is_terminal() ==> reaction_to(event).notifies_once() && reaction_to(
            event,
        ).persists_once() && reaction_to(event).effects[0] is Notify && reaction_to(
            event,
        ).effects[1] is Persist,
        event is Progress ==> reaction_to(event).is_silent(),
{
    let r = reaction_to(event);
    if event.is_terminal() {
        assert(r.effects[0] is Notify);
        assert(r.effects[1] is Persist);
        assert(r.notifies_once());
        assert(r.persists_once());
    }
}

/// Balance and history are both refreshed after a success and only then:
/// after a failure neither is, and after an event that does not end the
/// operation the balance never is.
pub proof fn refresh_follows_success_only(event: LifecycleEventView)
    ensures
        reaction_to(event).refreshes_balance() <==> event is Success,
        reaction_to(event).refreshes_balance() && reaction_to(event).refreshes_history()
            <==> event is Success,
        event is Failure ==> !reaction_to(event).refreshes_balance() && !reaction_to(
            event,
        ).refreshes_history(),
        reaction_to(event).refreshes_history() <==> event is Success || event is Provisional,
{
    let r = reaction_to(event);
    match event {
        LifecycleEventView::Progress => {},
        LifecycleEventView::Provisional { .. } => {
            assert(r.effects[2] is RefreshHistory);
        },
        LifecycleEventView::Failure { .. } => {},
        LifecycleEventView::Success { .. } => {
            assert(r.effects[2] is RefreshBalance);
            assert(r.effects[3] is RefreshHistory);
        },
    }
}

/// A reconciler that meets a terminal event stops there: it has handled the
/// events up to that one and no other, only its last reaction is terminal,
/// and that reaction tells the user interface once and writes the record
/// once.
pub proof fn terminal_state_ends_reconciliation(
    events: Seq<LifecycleEventView>,
    reactions: Seq<ReactionView>,
    t: int,
)
    requires
        reconciles(events, reactions),
        0 <= t < events.len(),
        events[t].is_terminal(),
        forall|i: int| 0 <= i < t ==> !(#[trigger] events[i]).is_terminal(),
    ensures
        reactions.len() == t + 1,
        forall|i: int| 0 <= i < reactions.len() ==> ((#[trigger] reactions[i]).terminal <==> i == t),
        reactions[t] == reaction_to(events[t]),
        reactions[t].notifies_once(),
        reactions[t].persists_once(),
{
    let n = reactions.len() as int;
    if n < t + 1 {
        assert(n >= 1 && events[n - 1].is_terminal());
        assert(!events[n - 1].is_terminal());
    }
    if n > t + 1 {
        assert(!events[t].is_terminal());
    }
    assert forall|i: int| 0 <= i < reactions.len() implies ((#[trigger] reactions[i]).terminal <==> i
        == t) by {
        assert(reactions[i] == reaction_to(events[i]));
        terminal_reaction_notifies_and_persists_once(events[i]);
    }
    assert(reactions[t] == reaction_to(events[t]));
    terminal_reaction_notifies_and_persists_once(events[t]);
}

/// In every flow, a sequence of states that ends in a terminal state is
/// reconciled to this end: every state up to the terminal one is handled and
/// none after it, the user interface is told of the outcome once, and the
/// record of the operation is written once, with the outcome that the user
/// interface was told: failed after a failure, successful after a success.
pub proof fn terminal_state_settles_the_operation<S: LifecycleState>(
    states: Seq<S>,
    reactions: Seq<ReactionView>,
    t: int,
)
    requires
        forall|i: int| 0 <= i < states.len() ==> (#[trigger] states[i]).well_formed(),
        reconciles(events_of(states), reactions),
        0 <= t < states.len(),
        states[t].event().is_terminal(),
        forall|i: int| 0 <= i < t ==> !(#[trigger] states[i]).event().is_terminal(),
    ensures
        reactions.len() == t + 1,
        forall|i: int| 0 <= i < reactions.len() ==> ((#[trigger] reactions[i]).terminal <==> i == t),
        reactions[t].notifies_once(),
        reactions[t].persists_once(),
        reactions[t].effects[0] matches EffectView::Notify(notice) && (notice.is_failure()
            <==> states[t].event() is Failure),
        reactions[t].effects[1] matches EffectView::Persist(update) && update.applies_to(S::kind())
            && update.spec_status() == (if states[t].event() is Failure {
            RecordStatus::Failed
        } else {
            RecordStatus::Success
        }),
{
    let events = events_of(states);
    assert(events[t] == states[t].event());
    assert forall|i: int| 0 <= i < t implies !(#[trigger] events[i]).is_terminal() by {
        assert(events[i] == states[i].event());
    }
    terminal_state_ends_reconciliation(events, reactions, t);
    states[t].event_is_coherent();
}

/// Over a whole reconciliation, the reactions that refresh the balance are
/// those to a success, and no reaction to a failure refreshes balance or
/// history.
pub proof fn reconciliation_refreshes_after_success_only(
    events: Seq<LifecycleEventView>,
    reactions: Seq<ReactionView>,
)
    requires
        reconciles(events, reactions),
    ensures
        forall|i: int|
            0 <= i < reactions.len() ==> ((#[trigger] reactions[i]).refreshes_balance()
                <==> events[i] is Success),
        forall|i: int|
            0 <= i < reactions.len() && events[i] is Failure ==> !(#[trigger] reactions[
                i
            ]).refreshes_balance() && !reactions[i].refreshes_history(),
{
    assert forall|i: int| 0 <= i < reactions.len() implies ((#[trigger] reactions[
        i
    ]).refreshes_balance() <==> events[i] is Success) && (events[i] is Failure
        ==> !reactions[i].refreshes_history()) by {
        assert(reactions[i] == reaction_to(events[i]));
        refresh_follows_success_only(events[i]);
    }
}

/// What a reconciliation yields is determined by the events alone.
pub proof fn reconciliation_is_unique(
    events: Seq<LifecycleEventView>,
    first: Seq<ReactionView>,
    second: Seq<ReactionView>,
)
    requires
        reconciles(events, first),
        reconciles(events, second),
    ensures
        first == second,
{
    let n = first.len() as int;
    let m = second.len() as int;
    if n < m {
        assert(events[n - 1].is_terminal());
        assert(!events[n - 1].is_terminal());
    }
    if m < n {
        assert(events[m - 1].is_terminal());
        assert(!events[m - 1].is_terminal());
    }
    assert(first =~= second);
}

} // verus!
