use fedimint_bridge::flows::{
    BtcDeposit, DepositState, InternalPayState, LnPayState, LnReceiveState, WithdrawState,
};
use fedimint_bridge::lifecycle::{
    react, reconcile, Effect, EffectOutcome, LifecycleEvent, LifecycleState, Reaction,
    ReceiveSuccessMsg, RecordStatus, RecordUpdate, SendSuccessMsg, Txid, UiNotice,
};

fn silent() -> Reaction {
    Reaction { effects: vec![], terminal: false }
}

fn failure(notice: UiNotice, update: RecordUpdate) -> Reaction {
    Reaction { effects: vec![Effect::Notify(notice), Effect::Persist(update)], terminal: true }
}

fn success(notice: UiNotice, update: RecordUpdate) -> Reaction {
    Reaction {
        effects: vec![
            Effect::Notify(notice),
            Effect::Persist(update),
            Effect::RefreshBalance,
            Effect::RefreshHistory,
        ],
        terminal: true,
    }
}

fn count(reactions: &[Reaction], wanted: fn(&Effect) -> bool) -> usize {
    reactions.iter().flat_map(|r| r.effects.iter()).filter(|e| wanted(e)).count()
}

fn is_notify(effect: &Effect) -> bool {
    matches!(effect, Effect::Notify(_))
}

fn is_persist(effect: &Effect) -> bool {
    matches!(effect, Effect::Persist(_))
}

fn is_balance(effect: &Effect) -> bool {
    matches!(effect, Effect::RefreshBalance)
}

fn is_history(effect: &Effect) -> bool {
    matches!(effect, Effect::RefreshHistory)
}

fn deposit(out_idx: u32) -> BtcDeposit {
    BtcDeposit { txid: Txid([7; 32]), out_idx, output_values: vec![5_000, 12_345, 1] }
}

const PREIMAGE_HEX: &str = "000102030405060708090a0b0c0d0e0f101112131415161718191A1B1C1D1E1F";

fn preimage() -> [u8; 32] {
    let mut bytes = [0u8; 32];
    for (i, byte) in bytes.iter_mut().enumerate() {
        *byte = i as u8;
    }
    bytes
}

#[test]
fn reaction_to_progress_is_silent() {
    assert_eq!(react(LifecycleEvent::Progress), silent());
}

#[test]
fn reaction_to_a_provisional_event_refreshes_the_history_only() {
    let notice = UiNotice::ReceiveSuccess(ReceiveSuccessMsg::Lightning);
    let update = RecordUpdate::OnchainReceiveTxid { txid: Txid([1; 32]), amount: 1, fee_sats: 0 };
    let reaction = react(LifecycleEvent::Provisional { notice: notice.clone(), update });
    assert_eq!(
        reaction,
        Reaction {
            effects: vec![Effect::Notify(notice), Effect::Persist(update), Effect::RefreshHistory],
            terminal: false,
        }
    );
}

#[test]
fn reaction_to_a_failure_notifies_then_persists_and_refreshes_nothing() {
    let notice = UiNotice::SendFailure("no route".to_string());
    let update = RecordUpdate::LightningPaymentFailed;
    let reaction = react(LifecycleEvent::Failure { notice: notice.clone(), update });
    assert_eq!(reaction, failure(notice, update));
}

#[test]
fn reaction_to_a_success_notifies_persists_and_refreshes_both() {
    let notice = UiNotice::ReceiveSuccess(ReceiveSuccessMsg::Lightning);
    let update = RecordUpdate::LnReceiveSuccess;
    let reaction = react(LifecycleEvent::Success { notice: notice.clone(), update });
    assert_eq!(reaction, success(notice, update));
}

#[test]
fn record_updates_set_the_status_they_stand_for() {
    assert_eq!(RecordUpdate::LnReceiveFailed.status(), RecordStatus::Failed);
    assert_eq!(RecordUpdate::LnReceiveSuccess.status(), RecordStatus::Success);
    assert_eq!(RecordUpdate::LightningPaymentFailed.status(), RecordStatus::Failed);
    assert_eq!(RecordUpdate::LightningPaymentPreimage([0; 32]).status(), RecordStatus::Success);
    assert_eq!(RecordUpdate::OnchainPaymentFailed.status(), RecordStatus::Failed);
    assert_eq!(RecordUpdate::OnchainPaymentTxid(Txid([0; 32])).status(), RecordStatus::Success);
    assert_eq!(RecordUpdate::OnchainReceiveFailed.status(), RecordStatus::Failed);
    assert_eq!(RecordUpdate::OnchainReceiveConfirmed.status(), RecordStatus::Success);
    let partial = RecordUpdate::OnchainReceiveTxid { txid: Txid([0; 32]), amount: 1, fee_sats: 0 };
    assert_eq!(partial.status(), RecordStatus::Pending);
}

#[test]
fn lightning_receive_canceled_fails_with_the_reason() {
    let states = vec![
        LnReceiveState::Created,
        LnReceiveState::WaitingForPayment,
        LnReceiveState::Canceled { reason: "timed out".to_string() },
        LnReceiveState::Claimed,
    ];
    let reactions = reconcile(&states);
    assert_eq!(
        reactions,
        vec![
            silent(),
            silent(),
            failure(UiNotice::ReceiveFailed("timed out".to_string()), RecordUpdate::LnReceiveFailed),
        ]
    );
}

#[test]
fn lightning_receive_claimed_succeeds() {
    let states = vec![
        LnReceiveState::Created,
        LnReceiveState::WaitingForPayment,
        LnReceiveState::Funded,
        LnReceiveState::AwaitingFunds,
        LnReceiveState::Claimed,
    ];
    let reactions = reconcile(&states);
    assert_eq!(reactions.len(), 5);
    assert_eq!(reactions[..4], vec![silent(), silent(), silent(), silent()]);
    assert_eq!(
        reactions[4],
        success(UiNotice::ReceiveSuccess(ReceiveSuccessMsg::Lightning), RecordUpdate::LnReceiveSuccess)
    );
}

#[test]
fn lightning_payment_canceled_fails() {
    let reactions = reconcile(&vec![LnPayState::Created, LnPayState::Canceled, LnPayState::Refunded]);
    assert_eq!(
        reactions,
        vec![
            silent(),
            failure(UiNotice::SendFailure("Canceled".to_string()), RecordUpdate::LightningPaymentFailed),
        ]
    );
}

#[test]
fn lightning_payment_unexpected_error_fails_with_its_message() {
    let state = LnPayState::UnexpectedError { error_message: "boom".to_string() };
    assert_eq!(
        reconcile(&vec![state]),
        vec![failure(UiNotice::SendFailure("boom".to_string()), RecordUpdate::LightningPaymentFailed)]
    );
}

#[test]
fn lightning_payment_success_carries_the_decoded_preimage() {
    let states = vec![
        LnPayState::Created,
        LnPayState::Funded,
        LnPayState::Success { preimage: PREIMAGE_HEX.to_string() },
    ];
    assert!(states.iter().all(|s| s.check()));
    let reactions = reconcile(&states);
    assert_eq!(
        reactions,
        vec![
            silent(),
            silent(),
            success(
                UiNotice::SendSuccess(SendSuccessMsg::Lightning { preimage: preimage() }),
                RecordUpdate::LightningPaymentPreimage(preimage()),
            ),
        ]
    );
}

#[test]
fn lightning_payment_states_that_do_not_end_it_are_silent() {
    let states = vec![
        LnPayState::Created,
        LnPayState::Funded,
        LnPayState::WaitingForRefund,
        LnPayState::AwaitingChange,
        LnPayState::Refunded,
    ];
    assert_eq!(reconcile(&states), vec![silent(), silent(), silent(), silent(), silent()]);
}

#[test]
fn preimage_has_to_be_sixty_four_hexadecimal_digits() {
    let well_formed = |text: &str| LnPayState::Success { preimage: text.to_string() }.check();
    assert!(well_formed(PREIMAGE_HEX));
    assert!(well_formed(&"ab".repeat(32)));
    assert!(well_formed(&"AB".repeat(32)));
    assert!(!well_formed(""));
    assert!(!well_formed(&"ab".repeat(31)));
    assert!(!well_formed(&"ab".repeat(33)));
    assert!(!well_formed(&PREIMAGE_HEX[1..]));
    assert!(!well_formed(&format!("{}g", &PREIMAGE_HEX[1..])));
    assert!(!well_formed(&format!("{} ", &PREIMAGE_HEX[1..])));
    assert!(!well_formed(&format!("{}\u{e9}", &PREIMAGE_HEX[2..])));
    assert!(LnPayState::Canceled.check());
}

#[test]
fn preimage_digits_are_read_upper_half_first() {
    let text = format!("f0{}", "0".repeat(60)) + "0f";
    let event = LnPayState::Success { preimage: text }.classify();
    let mut expected = [0u8; 32];
    expected[0] = 0xf0;
    expected[31] = 0x0f;
    assert_eq!(
        event,
        LifecycleEvent::Success {
            notice: UiNotice::SendSuccess(SendSuccessMsg::Lightning { preimage: expected }),
            update: RecordUpdate::LightningPaymentPreimage(expected),
        }
    );
}

#[test]
fn internal_payment_funding_failure_is_reported_as_a_failed_receive() {
    let state = InternalPayState::FundingFailed { error: "no funds".to_string() };
    assert_eq!(
        reconcile(&vec![InternalPayState::Funding, state]),
        vec![
            silent(),
            failure(UiNotice::ReceiveFailed("no funds".to_string()), RecordUpdate::LightningPaymentFailed),
        ]
    );
}

#[test]
fn internal_payment_unexpected_error_is_reported_as_a_failed_send() {
    let state = InternalPayState::UnexpectedError("odd".to_string());
    assert_eq!(
        reconcile(&vec![state]),
        vec![failure(UiNotice::SendFailure("odd".to_string()), RecordUpdate::LightningPaymentFailed)]
    );
}

#[test]
fn internal_payment_preimage_succeeds() {
    let states = vec![
        InternalPayState::Funding,
        InternalPayState::RefundSuccess,
        InternalPayState::RefundError,
        InternalPayState::Preimage([9; 32]),
        InternalPayState::Funding,
    ];
    assert_eq!(
        reconcile(&states),
        vec![
            silent(),
            silent(),
            silent(),
            success(
                UiNotice::SendSuccess(SendSuccessMsg::Lightning { preimage: [9; 32] }),
                RecordUpdate::LightningPaymentPreimage([9; 32]),
            ),
        ]
    );
}

#[test]
fn withdrawal_failed_fails_with_its_message() {
    let states = vec![WithdrawState::Created, WithdrawState::Failed("fee too low".to_string())];
    assert_eq!(
        reconcile(&states),
        vec![
            silent(),
            failure(UiNotice::SendFailure("fee too low".to_string()), RecordUpdate::OnchainPaymentFailed),
        ]
    );
}

#[test]
fn withdrawal_succeeded_carries_the_transaction() {
    let txid = Txid([3; 32]);
    let states = vec![WithdrawState::Created, WithdrawState::Succeeded(txid)];
    assert_eq!(
        reconcile(&states),
        vec![
            silent(),
            success(
                UiNotice::SendSuccess(SendSuccessMsg::Onchain { txid }),
                RecordUpdate::OnchainPaymentTxid(txid),
            ),
        ]
    );
}

#[test]
fn deposit_seen_on_chain_is_shown_and_stored_and_the_operation_goes_on() {
    let seen = deposit(1);
    assert_eq!(seen.amount(), 12_345);
    let reactions = reconcile(&vec![
        DepositState::WaitingForTransaction,
        DepositState::WaitingForConfirmation(seen.clone()),
        DepositState::Confirmed(seen.clone()),
    ]);
    let notice = UiNotice::ReceiveSuccess(ReceiveSuccessMsg::Onchain { txid: seen.txid });
    let update = RecordUpdate::OnchainReceiveTxid { txid: seen.txid, amount: 12_345, fee_sats: 0 };
    assert_eq!(
        reactions,
        vec![
            silent(),
            Reaction {
                effects: vec![Effect::Notify(notice), Effect::Persist(update), Effect::RefreshHistory],
                terminal: false,
            },
            silent(),
        ]
    );
    assert_eq!(count(&reactions, is_balance), 0);
}

#[test]
fn deposit_claimed_succeeds() {
    let seen = deposit(0);
    let reactions = reconcile(&vec![
        DepositState::WaitingForTransaction,
        DepositState::WaitingForConfirmation(seen.clone()),
        DepositState::Confirmed(seen.clone()),
        DepositState::Claimed(seen.clone()),
        DepositState::Failed("late".to_string()),
    ]);
    assert_eq!(reactions.len(), 4);
    assert_eq!(
        reactions[3],
        success(
            UiNotice::ReceiveSuccess(ReceiveSuccessMsg::Onchain { txid: seen.txid }),
            RecordUpdate::OnchainReceiveConfirmed,
        )
    );
}

#[test]
fn deposit_failed_fails_with_its_message() {
    let reactions = reconcile(&vec![DepositState::Failed("reorg".to_string())]);
    assert_eq!(
        reactions,
        vec![failure(UiNotice::ReceiveFailed("reorg".to_string()), RecordUpdate::OnchainReceiveFailed)]
    );
}

#[test]
fn deposit_that_names_a_missing_output_is_not_well_formed() {
    assert!(DepositState::WaitingForConfirmation(deposit(2)).check());
    assert!(!DepositState::WaitingForConfirmation(deposit(3)).check());
    assert!(DepositState::Claimed(deposit(3)).check());
    assert!(DepositState::Confirmed(deposit(3)).check());
    assert!(DepositState::WaitingForTransaction.check());
}

#[test]
fn reconciler_stops_at_the_first_terminal_state() {
    let states = vec![
        WithdrawState::Created,
        WithdrawState::Failed("first".to_string()),
        WithdrawState::Succeeded(Txid([1; 32])),
        WithdrawState::Failed("second".to_string()),
    ];
    let reactions = reconcile(&states);
    assert_eq!(reactions.len(), 2);
    assert!(!reactions[0].terminal);
    assert!(reactions[1].terminal);
    assert_eq!(count(&reactions, is_notify), 1);
    assert_eq!(count(&reactions, is_persist), 1);
}

#[test]
fn reconciler_without_a_terminal_state_handles_every_state() {
    let states = vec![WithdrawState::Created, WithdrawState::Created];
    assert_eq!(reconcile(&states), vec![silent(), silent()]);
    assert_eq!(reconcile(&Vec::<WithdrawState>::new()), vec![]);
}

#[test]
fn terminal_state_of_every_flow_notifies_once_and_persists_once() {
    let ln_receive = vec![
        reconcile(&vec![LnReceiveState::Created, LnReceiveState::Claimed]),
        reconcile(&vec![LnReceiveState::Canceled { reason: "r".to_string() }]),
    ];
    let ln_pay = vec![
        reconcile(&vec![LnPayState::Created, LnPayState::Success { preimage: PREIMAGE_HEX.to_string() }]),
        reconcile(&vec![LnPayState::Canceled]),
        reconcile(&vec![LnPayState::UnexpectedError { error_message: "e".to_string() }]),
    ];
    let internal = vec![
        reconcile(&vec![InternalPayState::Funding, InternalPayState::Preimage([1; 32])]),
        reconcile(&vec![InternalPayState::FundingFailed { error: "e".to_string() }]),
        reconcile(&vec![InternalPayState::UnexpectedError("e".to_string())]),
    ];
    let withdraw = vec![
        reconcile(&vec![WithdrawState::Created, WithdrawState::Succeeded(Txid([1; 32]))]),
        reconcile(&vec![WithdrawState::Failed("e".to_string())]),
    ];
    let deposits = vec![
        reconcile(&vec![DepositState::WaitingForTransaction, DepositState::Claimed(deposit(0))]),
        reconcile(&vec![DepositState::Failed("e".to_string())]),
    ];
    for run in ln_receive.iter().chain(&ln_pay).chain(&internal).chain(&withdraw).chain(&deposits) {
        let last = run.last().unwrap();
        assert!(last.terminal);
        assert_eq!(run.iter().filter(|r| r.terminal).count(), 1);
        assert_eq!(count(run, is_notify), 1);
        assert_eq!(count(run, is_persist), 1);
        assert!(matches!(last.effects[0], Effect::Notify(_)));
        assert!(matches!(last.effects[1], Effect::Persist(_)));
    }
}

#[test]
fn balance_and_history_are_refreshed_after_success_and_not_after_failure() {
    let succeeded = reconcile(&vec![LnReceiveState::Created, LnReceiveState::Claimed]);
    assert_eq!(count(&succeeded, is_balance), 1);
    assert_eq!(count(&succeeded, is_history), 1);
    let failed = reconcile(&vec![LnReceiveState::Canceled { reason: "r".to_string() }]);
    assert_eq!(count(&failed, is_balance), 0);
    assert_eq!(count(&failed, is_history), 0);
    let unfinished = reconcile(&vec![LnReceiveState::Created, LnReceiveState::Funded]);
    assert_eq!(count(&unfinished, is_balance), 0);
    assert_eq!(count(&unfinished, is_history), 0);
}

#[test]
fn only_a_closed_channel_ends_a_reconciler() {
    assert!(EffectOutcome::Done.goes_on());
    assert!(EffectOutcome::PersistFailed.goes_on());
    assert!(EffectOutcome::HistoryUnavailable.goes_on());
    assert!(!EffectOutcome::ChannelClosed.goes_on());
}
