use fedimint_bridge::client::{
    refresh_again, ClientSetup, FederationId, FederationInviteOrId, InviteCode, Network, SetupAction,
    SetupError, SetupEvent, SetupPhase,
};

fn invite() -> InviteCode {
    InviteCode {
        federation_id: FederationId([4; 32]),
        peer: 2,
        url: "wss://guardian.example".to_string(),
    }
}

fn by_invite() -> ClientSetup {
    ClientSetup::new(FederationInviteOrId::Invite(invite()), Network::Signet)
}

fn by_id() -> ClientSetup {
    ClientSetup::new(FederationInviteOrId::Id(FederationId([5; 32])), Network::Signet)
}

fn run(setup: &mut ClientSetup, events: &[SetupEvent]) -> Vec<SetupAction> {
    events.iter().map(|event| setup.step(*event)).collect()
}

#[test]
fn federation_id_of_an_invitation_is_the_one_it_leads_to() {
    let target = FederationInviteOrId::Invite(invite());
    assert_eq!(target.federation_id(), FederationId([4; 32]));
}

#[test]
fn federation_id_of_an_identifier_is_itself() {
    let target = FederationInviteOrId::Id(FederationId([5; 32]));
    assert_eq!(target.federation_id(), FederationId([5; 32]));
}

#[test]
fn setup_begins_at_the_start() {
    let setup = by_invite();
    assert_eq!(setup.phase(), SetupPhase::Start);
    assert_eq!(setup.invite(), Some(&invite()));
    assert_eq!(by_id().invite(), None);
}

#[test]
fn initialized_client_is_opened() {
    let mut setup = by_id();
    let actions = run(
        &mut setup,
        &[
            SetupEvent::Started,
            SetupEvent::StorageOpened,
            SetupEvent::Initialized(true),
            SetupEvent::ClientReady,
            SetupEvent::NetworkObserved(Network::Signet),
        ],
    );
    assert_eq!(
        actions,
        vec![
            SetupAction::OpenStorage(FederationId([5; 32])),
            SetupAction::QueryInitialized,
            SetupAction::OpenClient,
            SetupAction::QueryNetwork,
            SetupAction::StartGatewayRefresh,
        ]
    );
    assert_eq!(setup.phase(), SetupPhase::Ready);
}

#[test]
fn initialized_client_is_opened_even_with_an_invitation() {
    let mut setup = by_invite();
    let actions =
        run(&mut setup, &[SetupEvent::Started, SetupEvent::StorageOpened, SetupEvent::Initialized(true)]);
    assert_eq!(actions[2], SetupAction::OpenClient);
    assert_eq!(setup.phase(), SetupPhase::OpeningClient);
}

#[test]
fn uninitialized_client_joins_with_its_invitation() {
    let mut setup = by_invite();
    let actions = run(
        &mut setup,
        &[
            SetupEvent::Started,
            SetupEvent::StorageOpened,
            SetupEvent::Initialized(false),
            SetupEvent::ConfigDownloaded,
            SetupEvent::ClientReady,
            SetupEvent::NetworkObserved(Network::Signet),
        ],
    );
    assert_eq!(
        actions,
        vec![
            SetupAction::OpenStorage(FederationId([4; 32])),
            SetupAction::QueryInitialized,
            SetupAction::DownloadConfig,
            SetupAction::JoinFederation,
            SetupAction::QueryNetwork,
            SetupAction::StartGatewayRefresh,
        ]
    );
    assert_eq!(setup.phase(), SetupPhase::Ready);
}

#[test]
fn uninitialized_client_without_an_invitation_lacks_information() {
    let mut setup = by_id();
    let actions =
        run(&mut setup, &[SetupEvent::Started, SetupEvent::StorageOpened, SetupEvent::Initialized(false)]);
    assert_eq!(actions[2], SetupAction::Abort(SetupError::NotEnoughInformation));
    assert_eq!(setup.phase(), SetupPhase::Failed);
}

#[test]
fn client_on_another_network_is_refused() {
    for observed in [Network::Bitcoin, Network::Testnet, Network::Regtest] {
        let mut setup = by_id();
        let actions = run(
            &mut setup,
            &[
                SetupEvent::Started,
                SetupEvent::StorageOpened,
                SetupEvent::Initialized(true),
                SetupEvent::ClientReady,
                SetupEvent::NetworkObserved(observed),
            ],
        );
        assert_eq!(
            actions[4],
            SetupAction::Abort(SetupError::NetworkMismatch { expected: Network::Signet })
        );
        assert_eq!(setup.phase(), SetupPhase::Failed);
    }
}

#[test]
fn every_failure_ends_the_setup_with_its_own_error() {
    let mut setup = by_invite();
    assert_eq!(
        run(&mut setup, &[SetupEvent::Started, SetupEvent::StorageFailed])[1],
        SetupAction::Abort(SetupError::Storage)
    );
    assert_eq!(setup.phase(), SetupPhase::Failed);

    let mut setup = by_invite();
    let opening = [SetupEvent::Started, SetupEvent::StorageOpened, SetupEvent::Initialized(true)];
    run(&mut setup, &opening);
    assert_eq!(setup.step(SetupEvent::ClientFailed), SetupAction::Abort(SetupError::Open));
    assert_eq!(setup.phase(), SetupPhase::Failed);

    let mut setup = by_invite();
    let joining = [SetupEvent::Started, SetupEvent::StorageOpened, SetupEvent::Initialized(false)];
    run(&mut setup, &joining);
    assert_eq!(setup.step(SetupEvent::DownloadFailed), SetupAction::Abort(SetupError::Download));
    assert_eq!(setup.phase(), SetupPhase::Failed);

    let mut setup = by_invite();
    run(&mut setup, &joining);
    setup.step(SetupEvent::ConfigDownloaded);
    assert_eq!(setup.step(SetupEvent::ClientFailed), SetupAction::Abort(SetupError::Join));
    assert_eq!(setup.phase(), SetupPhase::Failed);
}

#[test]
fn event_out_of_turn_ends_the_setup() {
    let mut setup = by_invite();
    assert_eq!(
        setup.step(SetupEvent::StorageOpened),
        SetupAction::Abort(SetupError::UnexpectedEvent)
    );
    assert_eq!(setup.phase(), SetupPhase::Failed);
    assert_eq!(setup.step(SetupEvent::Started), SetupAction::Abort(SetupError::UnexpectedEvent));
    assert_eq!(setup.phase(), SetupPhase::Failed);
}

#[test]
fn ready_setup_stays_ready() {
    let mut setup = by_id();
    run(
        &mut setup,
        &[
            SetupEvent::Started,
            SetupEvent::StorageOpened,
            SetupEvent::Initialized(true),
            SetupEvent::ClientReady,
            SetupEvent::NetworkObserved(Network::Signet),
        ],
    );
    assert_eq!(
        setup.step(SetupEvent::NetworkObserved(Network::Bitcoin)),
        SetupAction::Abort(SetupError::UnexpectedEvent)
    );
    assert_eq!(setup.phase(), SetupPhase::Ready);
}

#[test]
fn gateway_refresh_goes_on_until_it_is_asked_to_stop() {
    assert!(refresh_again(false));
    assert!(!refresh_again(true));
}
