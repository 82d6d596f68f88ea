use rustgl::networking::tcp_buffering::{TcpRecvState, TcpSendState};

#[test]
fn send_then_receive_gives_messages_back() {
    let mut send = TcpSendState::init();
    assert!(send.enqueue(vec![1, 2, 3]).is_ok());
    assert!(send.enqueue(vec![4]).is_ok());
    let mut stream: Vec<u8> = Vec::new();
    while let Some(chunk) = send.next_send() {
        let chunk = chunk.to_vec();
        stream.extend_from_slice(&chunk);
        send.update_buffer(chunk.len());
    }
    assert_eq!(stream, vec![0, 0, 0, 3, 1, 2, 3, 0, 0, 0, 1, 4]);
    let mut recv = TcpRecvState::init();
    let mut messages = Vec::new();
    for piece in stream.chunks(5) {
        messages.extend(recv.receive(piece));
    }
    assert_eq!(messages, vec![vec![1, 2, 3], vec![4]]);
    assert!(recv.failed().is_none());
}

#[test]
fn a_header_over_the_limit_gives_up_the_stream() {
    let mut recv = TcpRecvState::init();
    // 2_000_000 = 0x001E8480
    let got = recv.receive(&[0x00, 0x1e, 0x84, 0x80, 9, 9, 9]);
    assert!(got.is_empty());
    assert_eq!(recv.failed(), Some("Attempted to decode message that was too big: 2000000".to_string()));
    // nothing more is taken once the stream is given up
    assert!(recv.receive(&[0, 0, 0, 1, 5]).is_empty());
}

#[test]
fn chunks_of_any_size_give_the_same_messages() {
    let stream: Vec<u8> = vec![0, 0, 0, 2, 10, 11, 0, 0, 0, 3, 20, 21, 22, 0, 0];
    for size in 1..stream.len() + 1 {
        let mut recv = TcpRecvState::init();
        let mut messages = Vec::new();
        for piece in stream.chunks(size) {
            messages.extend(recv.receive(piece));
        }
        assert_eq!(messages, vec![vec![10, 11], vec![20, 21, 22]]);
    }
}

#[test]
fn an_empty_message_yields_nothing_on_the_other_side() {
    let mut send = TcpSendState::init();
    assert!(send.enqueue(vec![]).is_ok());
    assert!(send.enqueue(vec![3]).is_ok());
    let mut stream: Vec<u8> = Vec::new();
    while let Some(chunk) = send.next_send() {
        let chunk = chunk.to_vec();
        stream.extend_from_slice(&chunk);
        send.update_buffer(chunk.len());
    }
    assert_eq!(stream, vec![0, 0, 0, 0, 0, 0, 0, 1, 3]);
    let mut recv = TcpRecvState::init();
    assert_eq!(recv.receive(&stream), vec![vec![3]]);
}

#[test]
fn partial_writes_resume_where_they_stopped() {
    let mut send = TcpSendState::init();
    assert!(send.enqueue(vec![1, 2, 3, 4]).is_ok());
    send.update_buffer(3);
    assert_eq!(send.next_send().map(|b| b.to_vec()), Some(vec![4, 1, 2, 3, 4]));
    send.update_buffer(5);
    assert!(send.next_send().is_none());
}

#[test]
fn oversized_messages_are_refused() {
    let mut send = TcpSendState::init();
    assert_eq!(
        send.enqueue(vec![0; 1048573]),
        Err("Tried to send message that was too big: 1048577 > 1048576".to_string())
    );
    assert!(send.next_send().is_none());
}
