use std::collections::VecDeque;

use rustgl::networking::client::{
    approx_packets, ClientError, ClientUpdate, ConnectPoll, ConnectStep, ConnectionQueues, ConnectionState,
};
use rustgl::networking::config::{MAX_TCP_MESSAGE_QUEUE_SIZE, MAX_TCP_MESSAGE_SIZE, MAX_UDP_MESSAGE_SIZE};
use rustgl::networking::{AddressPair, NetAddress, Protocol};

fn pair(port: u16) -> AddressPair {
    let a = NetAddress { v6: false, ip: 0x0a000001, port, flowinfo: 0, scope_id: 0 };
    AddressPair { udp: a, tcp: NetAddress { port: port + 1, ..a } }
}

fn failed_text(u: Option<ClientUpdate>) -> String {
    match u {
        Some(ClientUpdate::Error(ClientError::FailedConnection(m))) => m,
        other => panic!("not a failed connection: {:?}", other),
    }
}

#[test]
fn asking_for_connections() {
    let mut s = ConnectionState::init_disconnected();
    assert!(!s.is_connected());
    assert_eq!(s.connect(pair(10)), Some(pair(10)));
    assert_eq!(s.connecting, Some(pair(10)));
    // while an attempt is under way, the next one waits
    assert_eq!(s.connect(pair(20)), None);
    assert_eq!(s.connecting, Some(pair(10)));
    assert_eq!(s.next_attempt, Some(pair(20)));
    assert_eq!(s.connect(pair(30)), None);
    assert_eq!(s.next_attempt, Some(pair(30)));
}

#[test]
fn attempts_that_fail() {
    let mut s = ConnectionState::init_disconnected();
    s.connect(pair(1));
    let (u, step) = s.check_connection(ConnectPoll::Pending);
    assert!(u.is_none() && matches!(step, ConnectStep::Idle));
    assert_eq!(s.connecting, Some(pair(1)));
    let (u, _) = s.check_connection(ConnectPoll::ThreadGone);
    assert_eq!(failed_text(u), "TCP connect thread disconnected unexpectedly");
    assert_eq!(s.connecting, None);
    s.connect(pair(1));
    let (u, _) = s.check_connection(ConnectPoll::TcpFailed("10.0.0.1:2".to_string(), "refused".to_string()));
    assert_eq!(failed_text(u), "Error connecting TCP to 10.0.0.1:2: refused");
    s.connect(pair(1));
    let (u, _) = s.check_connection(ConnectPoll::UdpFailed("busy".to_string()));
    assert_eq!(failed_text(u), "Error opening UDP socket at 0.0.0.0:0: busy");
    assert!(!s.is_connected());
}

#[test]
fn an_attempt_that_succeeds() {
    let mut s = ConnectionState::init_disconnected();
    s.connect(pair(1));
    let (u, step) = s.check_connection(ConnectPoll::Ready);
    assert!(u.is_none());
    assert!(matches!(step, ConnectStep::Finish(p) if p == pair(1)));
    assert_eq!(s.connecting, None);
    assert!(matches!(s.finish_connecting(Ok(()), Ok(())), ClientUpdate::Connected));
    assert!(s.is_connected());
    let (u, step) = s.check_connection(ConnectPoll::Ready);
    assert!(u.is_none() && matches!(step, ConnectStep::Idle));
    assert!(matches!(s.disconnect(None), Some(ClientUpdate::Disconnected(None))));
    assert!(!s.is_connected());
    assert!(s.disconnect(None).is_none());
}

#[test]
fn sockets_that_cannot_be_made_non_blocking() {
    let mut s = ConnectionState::init_disconnected();
    match s.finish_connecting(Ok(()), Err("tcp".to_string())) {
        ClientUpdate::Error(ClientError::FailedConnection(m)) => assert_eq!(m, "Error setting TCP stream to nonblocking: tcp"),
        _ => panic!(),
    }
    match s.finish_connecting(Err("udp".to_string()), Err("tcp".to_string())) {
        ClientUpdate::Error(ClientError::FailedConnection(m)) => assert_eq!(m, "Error setting TCP stream to nonblocking: udp"),
        _ => panic!(),
    }
    assert!(!s.is_connected());
}

#[test]
fn a_waiting_address_replaces_a_finished_attempt() {
    let mut s = ConnectionState::init_disconnected();
    s.connect(pair(1));
    s.connect(pair(2));
    let (u, step) = s.check_connection(ConnectPoll::Ready);
    assert!(matches!(u, Some(ClientUpdate::Error(ClientError::DiscardedConnection))));
    assert!(matches!(step, ConnectStep::Restart(p) if p == pair(2)));
    assert_eq!(s.connecting, Some(pair(2)));
    assert_eq!(s.next_attempt, Some(pair(2)));
    // dropping everything while an address waits
    assert!(matches!(s.disconnect(Some(ClientError::NoConnection)), Some(ClientUpdate::PreventedReconnection(Some(ClientError::NoConnection)))));
    assert_eq!(s.connecting, None);
    assert_eq!(s.next_attempt, None);
}

#[test]
fn a_waiting_address_starts_when_nothing_is_under_way() {
    let mut s = ConnectionState { connected: false, connecting: None, next_attempt: Some(pair(7)) };
    let (u, step) = s.check_connection(ConnectPoll::Pending);
    assert!(u.is_none());
    assert!(matches!(step, ConnectStep::Start(p) if p == pair(7)));
    assert_eq!(s.connecting, Some(pair(7)));
    let mut idle = ConnectionState::init_disconnected();
    let (u, step) = idle.check_connection(ConnectPoll::Ready);
    assert!(u.is_none() && matches!(step, ConnectStep::Idle));
}

#[test]
fn packets_are_counted_per_kilobyte() {
    assert_eq!(approx_packets(1), 1);
    assert_eq!(approx_packets(1024), 1);
    assert_eq!(approx_packets(1025), 2);
    assert_eq!(approx_packets(4096), 4);
}

#[test]
fn queued_data_respects_the_limits() {
    let mut q = ConnectionQueues::init();
    assert!(q.send_data(Protocol::UDP, vec![7; MAX_UDP_MESSAGE_SIZE]).is_ok());
    assert_eq!(q.udp_message_queue, VecDeque::from(vec![vec![7u8; MAX_UDP_MESSAGE_SIZE]]));
    match q.send_data(Protocol::UDP, vec![0; MAX_UDP_MESSAGE_SIZE + 1]) {
        Err(ClientError::BadCommand(m)) => assert_eq!(m, "Attempted to send UDP message that was too big: 513 > 512"),
        _ => panic!(),
    }
    match q.send_data(Protocol::TCP, vec![0; MAX_TCP_MESSAGE_SIZE + 1]) {
        Err(ClientError::BadCommand(m)) => {
            assert_eq!(m, "Attempted to send TCP message that was too big: 1048577 > 1048576")
        },
        _ => panic!(),
    }
    match q.send_data(Protocol::TCP, vec![0; MAX_TCP_MESSAGE_SIZE - 3]) {
        Err(ClientError::Other(m)) => assert_eq!(m, "Tried to send message that was too big: 1048577 > 1048576"),
        _ => panic!(),
    }
    assert!(q.send_data(Protocol::TCP, vec![1, 2]).is_ok());
    assert_eq!(q.tcp_send.next_send().map(|b| b.to_vec()), Some(vec![0, 0, 0, 2, 1, 2]));
}

#[test]
fn the_tcp_queue_fills_up() {
    let mut q = ConnectionQueues::init();
    let size = MAX_TCP_MESSAGE_SIZE - 4;
    // the first message goes out at once; the rest wait in the queue
    let fit = 1 + MAX_TCP_MESSAGE_QUEUE_SIZE / size;
    for _ in 0..fit {
        assert!(q.send_data(Protocol::TCP, vec![0; size]).is_ok());
    }
    match q.send_data(Protocol::TCP, vec![0; size]) {
        Err(ClientError::Other(m)) => assert_eq!(m, "Exceeded maximum message queue size for client"),
        _ => panic!(),
    }
}
