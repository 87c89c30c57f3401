//! The five flows and the states they report, each reduced to what its
//! reconciler reads.

use crate::lifecycle::{
    LifecycleEvent, LifecycleEventView, LifecycleState, OperationKind, ReceiveSuccessMsg,
    RecordUpdate, SendSuccessMsg, Txid, UiNotice, UiNoticeView,
};
use crate::preimage::{decode_preimage, is_hex_preimage, lemma_preimage_of, preimage_of};
use vstd::prelude::*;

verus! {

/// States of receiving over lightning.
#[derive(Clone, Debug, PartialEq, Eq)]
pub enum LnReceiveState {
    Created,
    WaitingForPayment,
    Canceled { reason: String },
    Funded,
    AwaitingFunds,
    Claimed,
}

impl LifecycleState for LnReceiveState {
    open spec fn kind() -> OperationKind {
        OperationKind::LightningReceive
    }

    open spec fn well_formed(&self) -> bool {
        true
    }

    open spec fn event(&self) -> LifecycleEventView {
        match self {
            LnReceiveState::Canceled { reason } => LifecycleEventView::Failure {
                notice: UiNoticeView::ReceiveFailed(reason@),
                update: RecordUpdate::LnReceiveFailed,
            },
            LnReceiveState::Claimed => LifecycleEventView::Success {
                notice: UiNoticeView::ReceiveSuccess(ReceiveSuccessMsg::Lightning),
                update: RecordUpdate::LnReceiveSuccess,
            },
            _ => LifecycleEventView::Progress,
        }
    }

    fn check(&self) -> (ok: bool) {
        true
    }

    fn classify(&self) -> (event: LifecycleEvent) {
        match self {
            LnReceiveState::Canceled { reason } => LifecycleEvent::Failure {
                notice: UiNotice::ReceiveFailed(reason.clone()),
                update: RecordUpdate::LnReceiveFailed,
            },
            LnReceiveState::Claimed => LifecycleEvent::Success {
                notice: UiNotice::ReceiveSuccess(ReceiveSuccessMsg::Lightning),
                update: RecordUpdate::LnReceiveSuccess,
            },
            _ => LifecycleEvent::Progress,
        }
    }

    proof fn event_is_coherent(&self) {
    }
}

/// States of paying a lightning invoice through a gateway.
#[derive(Clone, Debug, PartialEq, Eq)]
pub enum LnPayState {
    Created,
    Canceled,
    Funded,
    WaitingForRefund,
    AwaitingChange,
    /// The payment went through; `preimage` is its proof, in hexadecimal.
    Success { preimage: String },
    Refunded,
    UnexpectedError { error_message: String },
}

impl LifecycleState for LnPayState {
    open spec fn kind() -> OperationKind {
        OperationKind::LightningPay
    }

    /// A successful payment carries a preimage that can be decoded.
    open spec fn well_formed(&self) -> bool {
        self matches LnPayState::Success { preimage } ==> is_hex_preimage(preimage@)
    }

    open spec fn event(&self) -> LifecycleEventView {
        match self {
            LnPayState::Canceled => LifecycleEventView::Failure {
                notice: UiNoticeView::SendFailure("Canceled"@),
                update: RecordUpdate::LightningPaymentFailed,
            },
            LnPayState::UnexpectedError { error_message } => LifecycleEventView::Failure {
                notice: UiNoticeView::SendFailure(error_message@),
                update: RecordUpdate::LightningPaymentFailed,
            },
            LnPayState::Success { preimage } => LifecycleEventView::Success {
                notice: UiNoticeView::SendSuccess(
                    SendSuccessMsg::Lightning { preimage: preimage_of(preimage@) },
                ),
                update: RecordUpdate::LightningPaymentPreimage(preimage_of(preimage@)),
            },
            _ => LifecycleEventView::Progress,
        }
    }

    fn check(&self) -> (ok: bool) {
        match self {
            LnPayState::Success { preimage } => decode_preimage(preimage.as_str()).is_some(),
            _ => true,
        }
    }

    fn classify(&self) -> (event: LifecycleEvent) {
        match self {
            LnPayState::Canceled => LifecycleEvent::Failure {
                notice: UiNotice::SendFailure("Canceled".to_owned()),
                update: RecordUpdate::LightningPaymentFailed,
            },
            LnPayState::UnexpectedError { error_message } => LifecycleEvent::Failure {
                notice: UiNotice::SendFailure(error_message.clone()),
                update: RecordUpdate::LightningPaymentFailed,
            },
            LnPayState::Success { preimage } => {
                match decode_preimage(preimage.as_str()) {
                    Some(bytes) => {
                        proof {
                            lemma_preimage_of(preimage@, bytes);
                        }
                        LifecycleEvent::Success {
                            notice: UiNotice::SendSuccess(
                                SendSuccessMsg::Lightning { preimage: bytes },
                            ),
                            update: RecordUpdate::LightningPaymentPreimage(bytes),
                        }
                    },
                    None => vstd::pervasive::unreached(),
                }
            },
            _ => LifecycleEvent::Progress,
        }
    }

    proof fn event_is_coherent(&self) {
    }
}

/// States of paying an invoice of the same federation, without a gateway.
#[derive(Clone, Debug, PartialEq, Eq)]
pub enum InternalPayState {
    Funding,
    Preimage([u8; 32]),
    RefundSuccess,
    RefundError,
    FundingFailed { error: String },
    UnexpectedError(String),
}

impl LifecycleState for InternalPayState {
    open spec fn kind() -> OperationKind {
        OperationKind::InternalPay
    }

    open spec fn well_formed(&self) -> bool {
        true
    }

    /// A failed funding is reported on the receiving side of the user
    /// interface, any other error on the sending side.
    open spec fn event(&self) -> LifecycleEventView {
        match self {
            InternalPayState::FundingFailed { error } => LifecycleEventView::Failure {
                notice: UiNoticeView::ReceiveFailed(error@),
                update: RecordUpdate::LightningPaymentFailed,
            },
            InternalPayState::UnexpectedError(error_message) => LifecycleEventView::Failure {
                notice: UiNoticeView::SendFailure(error_message@),
                update: RecordUpdate::LightningPaymentFailed,
            },
            InternalPayState::Preimage(preimage) => LifecycleEventView::Success {
                notice: UiNoticeView::SendSuccess(SendSuccessMsg::Lightning { preimage: *preimage }),
                update: RecordUpdate::LightningPaymentPreimage(*preimage),
            },
            _ => LifecycleEventView::Progress,
        }
    }

    fn check(&self) -> (ok: bool) {
        true
    }

    fn classify(&self) -> (event: LifecycleEvent) {
        match self {
            InternalPayState::FundingFailed { error } => LifecycleEvent::Failure {
                notice: UiNotice::ReceiveFailed(error.clone()),
                update: RecordUpdate::LightningPaymentFailed,
            },
            InternalPayState::UnexpectedError(error_message) => LifecycleEvent::Failure {
                notice: UiNotice::SendFailure(error_message.clone()),
                update: RecordUpdate::LightningPaymentFailed,
            },
            InternalPayState::Preimage(preimage) => LifecycleEvent::Success {
                notice: UiNotice::SendSuccess(SendSuccessMsg::Lightning { preimage: *preimage }),
                update: RecordUpdate::LightningPaymentPreimage(*preimage),
            },
            _ => LifecycleEvent::Progress,
        }
    }

    proof fn event_is_coherent(&self) {
    }
}

/// States of withdrawing to a bitcoin address.
#[derive(Clone, Debug, PartialEq, Eq)]
pub enum WithdrawState {
    Created,
    Succeeded(Txid),
    Failed(String),
}

impl LifecycleState for WithdrawState {
    open spec fn kind() -> OperationKind {
        OperationKind::OnchainPay
    }

    open spec fn well_formed(&self) -> bool {
        true
    }

    open spec fn event(&self) -> LifecycleEventView {
        match self {
            WithdrawState::Created => LifecycleEventView::Progress,
            WithdrawState::Failed(error) => LifecycleEventView::Failure {
                notice: UiNoticeView::SendFailure(error@),
                update: RecordUpdate::OnchainPaymentFailed,
            },
            WithdrawState::Succeeded(txid) => LifecycleEventView::Success {
                notice: UiNoticeView::SendSuccess(SendSuccessMsg::Onchain { txid: *txid }),
                update: RecordUpdate::OnchainPaymentTxid(*txid),
            },
        }
    }

    fn check(&self) -> (ok: bool) {
        true
    }

    fn classify(&self) -> (event: LifecycleEvent) {
        match self {
            WithdrawState::Created => LifecycleEvent::Progress,
            WithdrawState::Failed(error) => LifecycleEvent::Failure {
                notice: UiNotice::SendFailure(error.clone()),
                update: RecordUpdate::OnchainPaymentFailed,
            },
            WithdrawState::Succeeded(txid) => LifecycleEvent::Success {
                notice: UiNotice::SendSuccess(SendSuccessMsg::Onchain { txid: *txid }),
                update: RecordUpdate::OnchainPaymentTxid(*txid),
            },
        }
    }

    proof fn event_is_coherent(&self) {
    }
}

/// A bitcoin transaction that pays into a deposit address, reduced to its
/// identifier, the amounts of its outputs in satoshi, and the index of the
/// output that is the deposit.
#[derive(Clone, Debug, PartialEq, Eq)]
pub struct BtcDeposit {
    pub txid: Txid,
    pub out_idx: u32,
    pub output_values: Vec<u64>,
}

impl BtcDeposit {
    /// Whether the transaction has the output that the deposit is said to be.
    pub open spec fn has_output(&self) -> bool {
        self.out_idx < self.output_values.len()
    }

    /// Amount of the deposit, in satoshi.
    pub open spec fn spec_amount(&self) -> u64
        recommends
            self.has_output(),
    {
        self.output_values[self.out_idx as int]
    }

    /// Returns the amount of the deposit, in satoshi.
    pub fn amount(&self) -> (sats: u64)
        requires
            self.has_output(),
        ensures
            sats == self.spec_amount(),
    {
        self.output_values[self.out_idx as usize]
    }
}

/// States of a deposit from the bitcoin chain.
#[derive(Clone, Debug, PartialEq, Eq)]
pub enum DepositState {
    WaitingForTransaction,
    WaitingForConfirmation(BtcDeposit),
    Confirmed(BtcDeposit),
    Claimed(BtcDeposit),
    Failed(String),
}

impl LifecycleState for DepositState {
    open spec fn kind() -> OperationKind {
        OperationKind::OnchainReceive
    }

    /// A deposit that waits for confirmation names an output that exists.
    open spec fn well_formed(&self) -> bool {
        self matches DepositState::WaitingForConfirmation(deposit) ==> deposit.has_output()
    }

    /// A deposit seen on the chain is shown and stored at once, with no fee,
    /// though the operation goes on; it has succeeded once it is claimed.
    open spec fn event(&self) -> LifecycleEventView {
        match self {
            DepositState::WaitingForTransaction => LifecycleEventView::Progress,
            DepositState::Failed(error) => LifecycleEventView::Failure {
                notice: UiNoticeView::ReceiveFailed(error@),
                update: RecordUpdate::OnchainReceiveFailed,
            },
            DepositState::WaitingForConfirmation(deposit) => LifecycleEventView::Provisional {
                notice: UiNoticeView::ReceiveSuccess(ReceiveSuccessMsg::Onchain { txid: deposit.txid }),
                update: RecordUpdate::OnchainReceiveTxid {
                    txid: deposit.txid,
                    amount: deposit.spec_amount(),
                    fee_sats: 0,
                },
            },
            DepositState::Confirmed(_) => LifecycleEventView::Progress,
            DepositState::Claimed(deposit) => LifecycleEventView::Success {
                notice: UiNoticeView::ReceiveSuccess(ReceiveSuccessMsg::Onchain { txid: deposit.txid }),
                update: RecordUpdate::OnchainReceiveConfirmed,
            },
        }
    }

    fn check(&self) -> (ok: bool) {
        match self {
            DepositState::WaitingForConfirmation(deposit) => (deposit.out_idx as usize)
                < deposit.output_values.len(),
            _ => true,
        }
    }

    fn classify(&self) -> (event: LifecycleEvent) {
        match self {
            DepositState::WaitingForTransaction => LifecycleEvent::Progress,
            DepositState::Failed(error) => LifecycleEvent::Failure {
                notice: UiNotice::ReceiveFailed(error.clone()),
                update: RecordUpdate::OnchainReceiveFailed,
            },
            DepositState::WaitingForConfirmation(deposit) => LifecycleEvent::Provisional {
                notice: UiNotice::ReceiveSuccess(ReceiveSuccessMsg::Onchain { txid: deposit.txid }),
                update: RecordUpdate::OnchainReceiveTxid {
                    txid: deposit.txid,
                    amount: deposit.amount(),
                    fee_sats: 0,
                },
            },
            DepositState::Confirmed(_) => LifecycleEvent::Progress,
            DepositState::Claimed(deposit) => LifecycleEvent::Success {
                notice: UiNotice::ReceiveSuccess(ReceiveSuccessMsg::Onchain { txid: deposit.txid }),
                update: RecordUpdate::OnchainReceiveConfirmed,
            },
        }
    }

    proof fn event_is_coherent(&self) {
    }
}

} // verus!
