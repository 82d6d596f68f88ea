use rustgl::networking::networking_old::{
    connect_poll_step, read_step, ConnectOutcome, ConnectionID, ConnectionIDGenerator, PollAction, ReadOutcome,
    ReadStep, TcpSendState,
};
use rustgl::networking::networking_old::TcpConnectionStatus::{Connected, Connecting, NotConnected};

#[test]
fn connection_ids_count_up() {
    let mut g = ConnectionIDGenerator::new();
    assert_eq!(g.generate(), ConnectionID(0));
    assert_eq!(g.generate(), ConnectionID(1));
}

#[test]
fn the_first_sender_cuts_frames_to_the_payload_length() {
    let mut send = TcpSendState::new();
    assert!(send.next_send().is_none());
    assert!(send.enqueue(vec![1, 2, 3, 4, 5, 6]).is_ok());
    assert!(send.enqueue(vec![7, 8]).is_ok());
    assert_eq!(send.next_send().map(|b| b.to_vec()), Some(vec![0, 0, 0, 6, 1, 2]));
    send.update_buffer(2);
    assert_eq!(send.next_send().map(|b| b.to_vec()), Some(vec![0, 6, 1, 2]));
    send.update_buffer(4);
    assert_eq!(send.next_send().map(|b| b.to_vec()), Some(vec![0, 0]));
    send.update_buffer(2);
    assert!(send.next_send().is_none());
    assert_eq!(
        send.enqueue(vec![0; 1048573]),
        Err("Tried to send message that was too big: 1048577 > 1048576".to_string())
    );
}

#[test]
fn a_poll_connects_on_the_already_connected_error() {
    let failed = |would_block, os_error| ConnectOutcome::Failed { would_block, os_error };
    assert_eq!(connect_poll_step(Connecting, failed(false, Some(10056))), (Connected, PollAction::Read));
    assert_eq!(connect_poll_step(Connecting, failed(true, Some(10056))), (Connected, PollAction::Read));
    assert_eq!(connect_poll_step(Connecting, failed(true, None)), (Connecting, PollAction::Nothing));
    assert_eq!(connect_poll_step(Connecting, failed(false, Some(10037))), (Connecting, PollAction::Nothing));
    assert_eq!(connect_poll_step(Connecting, ConnectOutcome::Succeeded), (Connecting, PollAction::Disconnect));
    assert_eq!(connect_poll_step(Connecting, ConnectOutcome::NoSocket), (NotConnected, PollAction::Nothing));
    assert_eq!(connect_poll_step(NotConnected, ConnectOutcome::Succeeded), (NotConnected, PollAction::Nothing));
    assert_eq!(connect_poll_step(Connected, ConnectOutcome::NoSocket), (Connected, PollAction::Read));
}

#[test]
fn reads_stop_at_the_end_or_a_block_and_quit_on_errors() {
    assert_eq!(read_step(ReadOutcome::Received(0)), ReadStep::Stop);
    assert_eq!(read_step(ReadOutcome::Received(7)), ReadStep::Take);
    assert_eq!(read_step(ReadOutcome::WouldBlock), ReadStep::Stop);
    assert_eq!(read_step(ReadOutcome::Failed), ReadStep::Quit);
}
