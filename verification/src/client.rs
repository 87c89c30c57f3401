//! Identity of a federation and the decisions taken while a client for it is
//! constructed.

use vstd::prelude::*;

verus! {

/// Identifier of a federation: the 32 bytes of the hash of its configuration.
#[derive(Clone, Copy, Debug, PartialEq, Eq)]
pub struct FederationId(pub [u8; 32]);

/// An invitation to a federation, reduced to what the bridge reads from it:
/// the federation it leads to, and the guardian endpoint it names.
#[derive(Clone, Debug, PartialEq, Eq)]
pub struct InviteCode {
    pub federation_id: FederationId,
    pub peer: u16,
    pub url: String,
}

/// How the application names the federation it wants a client for.
#[derive(Clone, Debug, PartialEq, Eq)]
pub enum FederationInviteOrId {
    Invite(InviteCode),
    Id(FederationId),
}

impl FederationInviteOrId {
    /// The federation that `self` names.
    pub open spec fn spec_federation_id(&self) -> FederationId {
        match self {
            FederationInviteOrId::Invite(i) => i.federation_id,
            FederationInviteOrId::Id(i) => *i,
        }
    }

    /// Whether `self` carries an invitation, which is what joining needs.
    pub open spec fn has_invite(&self) -> bool {
        self is Invite
    }

    /// Returns the identifier of the federation, taken from the invitation
    /// where there is one.
    pub fn federation_id(&self) -> (id: FederationId)
        ensures
            id == self.spec_federation_id(),
    {
        match self {
            FederationInviteOrId::Invite(i) => i.federation_id,
            FederationInviteOrId::Id(i) => *i,
        }
    }
}

/// The bitcoin networks a federation can live on.
#[derive(Clone, Copy, Debug, PartialEq, Eq, Structural)]
pub enum Network {
    Bitcoin,
    Testnet,
    Signet,
    Regtest,
}

/// Why the construction of a client was given up.
#[derive(Clone, Copy, Debug, PartialEq, Eq, Structural)]
pub enum SetupError {
    /// The snapshot store of the federation could not be opened.
    Storage,
    /// The client could not be opened from its stored state.
    Open,
    /// The configuration of the federation could not be downloaded.
    Download,
    /// The federation could not be joined.
    Join,
    /// The client was never initialized and no invitation was given.
    NotEnoughInformation,
    /// The federation lives on another network than the one expected.
    NetworkMismatch { expected: Network },
    /// An answer arrived that the step before did not ask for.
    UnexpectedEvent,
}

/// How far the construction of a client has come.
#[derive(Clone, Copy, Debug, PartialEq, Eq, Structural)]
pub enum SetupPhase {
    Start,
    OpeningStorage,
    CheckingInitialized,
    OpeningClient,
    DownloadingConfig,
    Joining,
    CheckingNetwork,
    Ready,
    Failed,
}

/// What the application reports back after carrying out a [`SetupAction`].
#[derive(Clone, Copy, Debug, PartialEq, Eq, Structural)]
pub enum SetupEvent {
    /// Construction begins.
    Started,
    StorageOpened,
    StorageFailed,
    /// Whether the store already holds an initialized client.
    Initialized(bool),
    /// A client was opened or has joined.
    ClientReady,
    /// Opening or joining failed.
    ClientFailed,
    ConfigDownloaded,
    DownloadFailed,
    /// The network that the federation's wallet reports.
    NetworkObserved(Network),
}

/// What the application has to do next.
#[derive(Clone, Copy, Debug, PartialEq, Eq)]
pub enum SetupAction {
    /// Open the snapshot store of the federation.
    OpenStorage(FederationId),
    /// Ask whether the store holds an initialized client.
    QueryInitialized,
    /// Open the client from its stored state.
    OpenClient,
    /// Download the federation's configuration with the invitation.
    DownloadConfig,
    /// Join the federation with the downloaded configuration.
    JoinFederation,
    /// Ask the wallet of the federation for its network.
    QueryNetwork,
    /// Start refreshing the gateway cache in the background and hand out the
    /// client.
    StartGatewayRefresh,
    /// Give up with the error.
    Abort(SetupError),
}

/// The construction of a client for one federation, as a sequence of steps
/// that the application carries out and reports back on.
pub struct ClientSetup {
    target: FederationInviteOrId,
    network: Network,
    phase: SetupPhase,
}

/// The step that follows `event` in `phase`, for a client that is to live on
/// `network` and was asked for by `target`: the next phase, and what to do.
///
/// An initialized client is opened. One that is not is joined, which takes an
/// invitation: the configuration is downloaded with it first. The network is
/// checked last, and a client on another network is refused. Anything that
/// fails ends the construction, and so does an event that does not answer the
/// action before it; once ended, the construction stays as it is.
pub open spec fn setup_step(
    target: FederationInviteOrId,
    network: Network,
    phase: SetupPhase,
    event: SetupEvent,
) -> (SetupPhase, SetupAction) {
    match (phase, event) {
        (SetupPhase::Start, SetupEvent::Started) => (
            SetupPhase::OpeningStorage,
            SetupAction::OpenStorage(target.spec_federation_id()),
        ),
        (SetupPhase::OpeningStorage, SetupEvent::StorageOpened) => (
            SetupPhase::CheckingInitialized,
            SetupAction::QueryInitialized,
        ),
        (SetupPhase::OpeningStorage, SetupEvent::StorageFailed) => (
            SetupPhase::Failed,
            SetupAction::Abort(SetupError::Storage),
        ),
        (SetupPhase::CheckingInitialized, SetupEvent::Initialized(initialized)) => if initialized {
            (SetupPhase::OpeningClient, SetupAction::OpenClient)
        } else if target.has_invite() {
            (SetupPhase::DownloadingConfig, SetupAction::DownloadConfig)
        } else {
            (SetupPhase::Failed, SetupAction::Abort(SetupError::NotEnoughInformation))
        },
        (SetupPhase::OpeningClient, SetupEvent::ClientReady) => (
            SetupPhase::CheckingNetwork,
            SetupAction::QueryNetwork,
        ),
        (SetupPhase::OpeningClient, SetupEvent::ClientFailed) => (
            SetupPhase::Failed,
            SetupAction::Abort(SetupError::Open),
        ),
        (SetupPhase::DownloadingConfig, SetupEvent::ConfigDownloaded) => (
            SetupPhase::Joining,
            SetupAction::JoinFederation,
        ),
        (SetupPhase::DownloadingConfig, SetupEvent::DownloadFailed) => (
            SetupPhase::Failed,
            SetupAction::Abort(SetupError::Download),
        ),
        (SetupPhase::Joining, SetupEvent::ClientReady) => (
            SetupPhase::CheckingNetwork,
            SetupAction::QueryNetwork,
        ),
        (SetupPhase::Joining, SetupEvent::ClientFailed) => (
            SetupPhase::Failed,
            SetupAction::Abort(SetupError::Join),
        ),
        (SetupPhase::CheckingNetwork, SetupEvent::NetworkObserved(observed)) => if observed
            == network {
            (SetupPhase::Ready, SetupAction::StartGatewayRefresh)
        } else {
            (SetupPhase::Failed, SetupAction::Abort(SetupError::NetworkMismatch { expected: network }))
        },
        (SetupPhase::Ready, _) => (SetupPhase::Ready, SetupAction::Abort(SetupError::UnexpectedEvent)),
        _ => (SetupPhase::Failed, SetupAction::Abort(SetupError::UnexpectedEvent)),
    }
}

impl ClientSetup {
    /// What the client was asked for by.
    pub closed spec fn target(&self) -> FederationInviteOrId {
        self.target
    }

    /// The network the client is expected on.
    pub closed spec fn network(&self) -> Network {
        self.network
    }

    /// How far the construction has come.
    pub closed spec fn spec_phase(&self) -> SetupPhase {
        self.phase
    }

    /// Begins the construction of a client for the federation that `target`
    /// names, expected on `network`.
    pub fn new(target: FederationInviteOrId, network: Network) -> (setup: ClientSetup)
        ensures
            setup.target() == target,
            setup.network() == network,
            setup.spec_phase() == SetupPhase::Start,
    {
        ClientSetup { target, network, phase: SetupPhase::Start }
    }

    /// Returns how far the construction has come.
    #[verifier::when_used_as_spec(spec_phase)]
    pub fn phase(&self) -> (phase: SetupPhase)
        ensures
            phase == self.spec_phase(),
    {
        self.phase
    }

    /// Returns the invitation to join with, where the client was asked for by
    /// one.
    pub fn invite(&self) -> (invite: Option<&InviteCode>)
        ensures
            match invite {
                Some(i) => self.target() == FederationInviteOrId::Invite(*i),
                None => !self.target().has_invite(),
            },
    {
        match &self.target {
            FederationInviteOrId::Invite(i) => Some(i),
            FederationInviteOrId::Id(_) => None,
        }
    }

    /// Takes what the application reports and returns what it has to do next.
    pub fn step(&mut self, event: SetupEvent) -> (action: SetupAction)
        ensures
            final(self).target() == old(self).target(),
            final(self).network() == old(self).network(),
            (final(self).spec_phase(), action) == setup_step(
                old(self).target(),
                old(self).network(),
                old(self).spec_phase(),
                event,
            ),
    {
        let (phase, action) = match (self.phase, event) {
            (SetupPhase::Start, SetupEvent::Started) => (
                SetupPhase::OpeningStorage,
                SetupAction::OpenStorage(self.target.federation_id()),
            ),
            (SetupPhase::OpeningStorage, SetupEvent::StorageOpened) => (
                SetupPhase::CheckingInitialized,
                SetupAction::QueryInitialized,
            ),
            (SetupPhase::OpeningStorage, SetupEvent::StorageFailed) => (
                SetupPhase::Failed,
                SetupAction::Abort(SetupError::Storage),
            ),
            (SetupPhase::CheckingInitialized, SetupEvent::Initialized(initialized)) => {
                if initialized {
                    (SetupPhase::OpeningClient, SetupAction::OpenClient)
                } else if self.invite().is_some() {
                    (SetupPhase::DownloadingConfig, SetupAction::DownloadConfig)
                } else {
                    (SetupPhase::Failed, SetupAction::Abort(SetupError::NotEnoughInformation))
                }
            },
            (SetupPhase::OpeningClient, SetupEvent::ClientReady) => (
                SetupPhase::CheckingNetwork,
                SetupAction::QueryNetwork,
            ),
            (SetupPhase::OpeningClient, SetupEvent::ClientFailed) => (
                SetupPhase::Failed,
                SetupAction::Abort(SetupError::Open),
            ),
            (SetupPhase::DownloadingConfig, SetupEvent::ConfigDownloaded) => (
                SetupPhase::Joining,
                SetupAction::JoinFederation,
            ),
            (SetupPhase::DownloadingConfig, SetupEvent::DownloadFailed) => (
                SetupPhase::Failed,
                SetupAction::Abort(SetupError::Download),
            ),
            (SetupPhase::Joining, SetupEvent::ClientReady) => (
                SetupPhase::CheckingNetwork,
                SetupAction::QueryNetwork,
            ),
            (SetupPhase::Joining, SetupEvent::ClientFailed) => (
                SetupPhase::Failed,
                SetupAction::Abort(SetupError::Join),
            ),
            (SetupPhase::CheckingNetwork, SetupEvent::NetworkObserved(observed)) => {
                if observed == self.network {
                    (SetupPhase::Ready, SetupAction::StartGatewayRefresh)
                } else {
                    (
                        SetupPhase::Failed,
                        SetupAction::Abort(SetupError::NetworkMismatch { expected: self.network }),
                    )
                }
            },
            (SetupPhase::Ready, _) => (
                SetupPhase::Ready,
                SetupAction::Abort(SetupError::UnexpectedEvent),
            ),
            _ => (SetupPhase::Failed, SetupAction::Abort(SetupError::UnexpectedEvent)),
        };
        self.phase = phase;
        action
    }
}

/// Decides, after a round of refreshing the gateway cache, whether another
/// round follows. The request to stop is looked at between rounds only.
pub fn refresh_again(stop_requested: bool) -> (again: bool)
    ensures
        again == !stop_requested,
{
    !stop_requested
}

/// A client becomes ready in one way only: its network was asked for and the
/// answer is the network expected.
pub proof fn ready_means_network_matched(
    target: FederationInviteOrId,
    network: Network,
    phase: SetupPhase,
    event: SetupEvent,
)
    requires
        phase != SetupPhase::Ready,
        setup_step(target, network, phase, event).0 == SetupPhase::Ready,
    ensures
        phase == SetupPhase::CheckingNetwork,
        event == SetupEvent::NetworkObserved(network),
        setup_step(target, network, phase, event).1 is StartGatewayRefresh,
{
}

/// Once the construction has ended, in either way, no event moves it, and no
/// event has the application do anything more.
pub proof fn ended_setup_stays_ended(
    target: FederationInviteOrId,
    network: Network,
    phase: SetupPhase,
    event: SetupEvent,
)
    requires
        phase == SetupPhase::Ready || phase == SetupPhase::Failed,
    ensures
        setup_step(target, network, phase, event).0 == phase,
        setup_step(target, network, phase, event).1 is Abort,
{
}

/// A client that was never initialized is joined exactly when there is an
/// invitation; without one the construction fails for want of information.
pub proof fn uninitialized_client_needs_invite(target: FederationInviteOrId, network: Network)
    ensures
        setup_step(
            target,
            network,
            SetupPhase::CheckingInitialized,
            SetupEvent::Initialized(false),
        ) == if target.has_invite() {
            (SetupPhase::DownloadingConfig, SetupAction::DownloadConfig)
        } else {
            (SetupPhase::Failed, SetupAction::Abort(SetupError::NotEnoughInformation))
        },
{
}

} // verus!
