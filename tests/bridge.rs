use roc_ray_host::bridge::{
    Inbound, PeerState, PeerTable, WorkerToMainMsg, MAIN_TO_WORKER_BUFFER_SIZE, WORKER_TO_MAIN_BUFFER_SIZE,
};

#[test]
fn channel_capacities() {
    assert_eq!(MAIN_TO_WORKER_BUFFER_SIZE, 100);
    assert_eq!(WORKER_TO_MAIN_BUFFER_SIZE, 1000);
}

#[test]
fn peer_table_set_and_get() {
    let mut t = PeerTable::new();
    assert_eq!(t.get(1), None);
    t.set(1, PeerState::Connected);
    t.set(2, PeerState::Connected);
    t.set(1, PeerState::Disconnected);
    assert_eq!(t.get(1), Some(PeerState::Disconnected));
    assert_eq!(t.get(2), Some(PeerState::Connected));
    assert_eq!(t.len(), 2);
    assert_eq!(t.to_vec(), vec![(1, PeerState::Disconnected), (2, PeerState::Connected)]);
}

#[test]
fn peer_states_follow_send_order_across_frames() {
    let a: u128 = 0xA;
    let mut inbound = Inbound::new();
    let mut seen = Vec::new();
    let sent = vec![
        WorkerToMainMsg::PeerConnected(a),
        WorkerToMainMsg::MessageReceived(a, b"hi".to_vec()),
        WorkerToMainMsg::PeerDisconnected(a),
    ];
    // one message drained per frame
    for msg in sent {
        assert_eq!(inbound.receive(msg), None);
        seen.push(inbound.peers().get(a));
    }
    assert_eq!(
        seen,
        vec![Some(PeerState::Connected), Some(PeerState::Connected), Some(PeerState::Disconnected)]
    );
    let msgs = inbound.take_messages();
    assert_eq!(msgs.len(), 1);
    assert_eq!(msgs[0].peer, a);
    assert_eq!(msgs[0].data, b"hi".to_vec());
}

#[test]
fn drained_batch_keeps_order() {
    let mut inbound = Inbound::new();
    let errors = inbound.receive_all(vec![
        WorkerToMainMsg::PeerConnected(5),
        WorkerToMainMsg::Tock,
        WorkerToMainMsg::MessageReceived(5, vec![1]),
        WorkerToMainMsg::Error(String::from("send failed")),
        WorkerToMainMsg::MessageReceived(6, vec![2]),
        WorkerToMainMsg::PeerDisconnected(5),
        WorkerToMainMsg::PeerConnected(6),
    ]);
    assert_eq!(errors, vec![String::from("send failed")]);
    let more = inbound.receive_all(vec![
        WorkerToMainMsg::Error(String::from("first")),
        WorkerToMainMsg::Tock,
        WorkerToMainMsg::Error(String::from("second")),
    ]);
    assert_eq!(more, vec![String::from("first"), String::from("second")]);
    assert_eq!(inbound.peers().get(5), Some(PeerState::Disconnected));
    assert_eq!(inbound.peers().get(6), Some(PeerState::Connected));
    let msgs = inbound.take_messages();
    let got: Vec<(u128, Vec<u8>)> = msgs.into_iter().map(|m| (m.peer, m.data)).collect();
    assert_eq!(got, vec![(5, vec![1]), (6, vec![2])]);
    assert!(inbound.take_messages().is_empty());
}

#[test]
fn worker_error_is_reported_not_fatal() {
    let mut inbound = Inbound::new();
    assert_eq!(inbound.receive(WorkerToMainMsg::Error(String::from("boom"))), Some(String::from("boom")));
    assert_eq!(inbound.receive(WorkerToMainMsg::Tock), None);
    assert_eq!(inbound.peers().len(), 0);
}
