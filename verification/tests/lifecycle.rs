use sfu_relay::client::ClientSslState;
use sfu_relay::client::DtlsAction;
use sfu_relay::sfu::ReadOutcome;
use sfu_relay::sfu::Sfu;
use sfu_relay::srtp_engine::SrtpFault;
use sfu_relay::srtp_engine::extract_keying_material;

fn exporter_material() -> Vec<u8> {
    (0u8..60).collect()
}

fn client_state(sfu: &Sfu, addr: u64) -> &ClientSslState {
    let i = sfu.client_storage.find(addr).unwrap();
    &sfu.client_storage.clients[i].ssl_state
}

#[test]
fn keying_material_split_exact() {
    let material = exporter_material();
    let (inbound, outbound) = extract_keying_material(&material).unwrap();
    let mut client: Vec<u8> = (0u8..16).collect();
    client.extend(32u8..46);
    let mut server: Vec<u8> = (16u8..32).collect();
    server.extend(46u8..60);
    assert_eq!(inbound.master, client);
    assert_eq!(outbound.master, server);
}

#[test]
fn keying_material_of_wrong_length_is_rejected() {
    assert!(extract_keying_material(&vec![0u8; 59]).is_none());
    assert!(extract_keying_material(&vec![0u8; 61]).is_none());
    assert!(extract_keying_material(&vec![]).is_none());
}

#[test]
fn first_datagram_drives_one_handshake() {
    let mut sfu = Sfu::new();
    let d1 = vec![22, 1, 2, 3];
    let d2 = vec![22, 4, 5, 6];
    // first datagram from a new address: queued, driver started
    assert_eq!(sfu.handle_dtls(1, d1.clone()), DtlsAction::Drive);
    // a second datagram while the driver runs is queued, no second driver
    assert_eq!(sfu.handle_dtls(1, d2.clone()), DtlsAction::Queued);
    // the driver reads the first datagram first: it is the ClientHello
    assert_eq!(sfu.pop_incoming(1), Some(d1));
    assert_eq!(sfu.pop_incoming(1), Some(d2));
    assert_eq!(sfu.pop_incoming(1), None);
}

#[test]
fn handshake_success_establishes_both_sessions() {
    let mut sfu = Sfu::new();
    sfu.handle_dtls(1, vec![22]);
    assert!(sfu.on_handshake_success(1, &exporter_material()));
    match client_state(&sfu, 1) {
        ClientSslState::Connected { inbound, outbound } => {
            assert_eq!(inbound.master.len(), 30);
            assert_eq!(outbound.master.len(), 30);
            assert_ne!(inbound.master, outbound.master);
        }
        other => panic!("expected a connected client, found {:?}", other),
    }
    assert!(sfu.should_unprotect(1));
    // a connected client cannot connect again without a teardown
    assert!(!sfu.on_handshake_success(1, &exporter_material()));
}

#[test]
fn handshake_success_needs_whole_material() {
    let mut sfu = Sfu::new();
    sfu.handle_dtls(1, vec![22]);
    assert!(!sfu.on_handshake_success(1, &vec![0u8; 10]));
    assert!(!sfu.should_unprotect(1));
    // the client is still there, in its pre-handshake state
    assert!(matches!(client_state(&sfu, 1), ClientSslState::New));
}

#[test]
fn handshake_failure_deletes_and_next_datagram_starts_fresh() {
    let mut sfu = Sfu::new();
    assert_eq!(sfu.handle_dtls(5, vec![22, 9]), DtlsAction::Drive);
    sfu.join_group(7, 5);
    // the handshake timed out: the client is deleted
    assert!(sfu.on_handshake_failure(5));
    assert!(sfu.client_storage.find(5).is_none());
    assert!(sfu.groups.group_of(5).is_none());
    // a later datagram from the same address begins a fresh record
    assert_eq!(sfu.handle_dtls(5, vec![22, 10]), DtlsAction::Drive);
    assert!(matches!(client_state(&sfu, 5), ClientSslState::New));
    assert_eq!(sfu.pop_incoming(5), Some(vec![22, 10]));
}

#[test]
fn post_handshake_read_of_zero_deletes() {
    let mut sfu = Sfu::new();
    sfu.handle_dtls(1, vec![22]);
    assert!(sfu.on_handshake_success(1, &exporter_material()));
    // a deadline expiry is benign
    assert!(!sfu.on_post_handshake_read(1, ReadOutcome::TimedOut));
    assert!(sfu.client_storage.find(1).is_some());
    // data keeps the client as well
    assert!(!sfu.on_post_handshake_read(1, ReadOutcome::Bytes(17)));
    assert!(sfu.client_storage.find(1).is_some());
    // a read of zero bytes is an orderly shutdown
    assert!(sfu.on_post_handshake_read(1, ReadOutcome::Bytes(0)));
    assert!(sfu.client_storage.find(1).is_none());
}

#[test]
fn rtp_from_unconnected_clients_is_dropped() {
    let mut sfu = Sfu::new();
    // unknown address
    assert!(!sfu.should_unprotect(9));
    // known but still in the handshake
    sfu.handle_dtls(9, vec![22]);
    assert!(!sfu.should_unprotect(9));
}

#[test]
fn ignorable_faults_keep_the_client() {
    // per-packet faults are contained to the packet
    assert!(SrtpFault::Replay.should_ignored());
    assert!(SrtpFault::Auth.should_ignored());
    assert!(SrtpFault::BadFormat.should_ignored());
    assert!(SrtpFault::NotConnected.should_ignored());
    // these are not
    assert!(!SrtpFault::Overflow.should_ignored());
    assert!(!SrtpFault::Other.should_ignored());
}

#[test]
fn datagrams_after_shutdown_are_dropped() {
    let mut sfu = Sfu::new();
    sfu.handle_dtls(1, vec![22]);
    assert_eq!(sfu.pop_incoming(1), Some(vec![22]));
    // force the terminal state through the record itself
    let i = sfu.client_storage.find(1).unwrap();
    sfu.client_storage.clients[i].shutdown();
    // a datagram in the terminal state is dropped, not queued
    assert_eq!(sfu.handle_dtls(1, vec![22, 1]), DtlsAction::Dropped);
    assert_eq!(sfu.pop_incoming(1), None);
}
