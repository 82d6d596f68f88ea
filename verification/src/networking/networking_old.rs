use std::collections::VecDeque;

use vstd::prelude::*;
use vstd::slice::slice_subrange;

use super::config::{MAX_TCP_MESSAGE_QUEUE_SIZE, MAX_TCP_MESSAGE_SIZE};
use super::tcp_buffering::{
    copy_into, frame, lemma_frames_push, oversize_send_message, oversize_send_text, payload_bytes,
    write_be32,
};

verus! {

/// The identity of a connection to the server.
#[derive(Clone, Copy, Debug, PartialEq, Eq, Structural, Hash)]
pub struct ConnectionID(pub i32);

/// Hands out connection IDs in increasing order, starting at 0.
pub struct ConnectionIDGenerator {
    pub counter: i32,
}

impl ConnectionIDGenerator {
    pub fn new() -> (g: Self)
        ensures
            g.counter == 0,
    {
        Self { counter: 0 }
    }

    /// Hands out the next connection ID.
    pub fn generate(&mut self) -> (id: ConnectionID)
        requires
            old(self).counter < i32::MAX,
        ensures
            id == ConnectionID(old(self).counter),
            final(self).counter == old(self).counter + 1,
    {
        self.counter = self.counter + 1;
        ConnectionID(self.counter - 1)
    }
}

/// Where a client's TCP connection to the server stands.
#[derive(Clone, Copy, Debug, PartialEq, Eq, Structural)]
pub enum TcpConnectionStatus {
    NotConnected,
    Connecting,
    Connected,
}

/// How an attempt to connect the TCP socket came out: there was no socket,
/// the call returned success, or it failed, with whether it would block and
/// the operating system's error code, if it gave one.
#[derive(Clone, Copy, Debug, PartialEq, Eq, Structural)]
pub enum ConnectOutcome {
    NoSocket,
    Succeeded,
    Failed { would_block: bool, os_error: Option<i32> },
}

/// What a poll does next: hand back no messages, drop the sockets and hand
/// back no messages, or read the sockets.
#[derive(Clone, Copy, Debug, PartialEq, Eq, Structural)]
pub enum PollAction {
    Nothing,
    Disconnect,
    Read,
}

/// The operating system's code for "already connected".
pub const ALREADY_CONNECTED: i32 = 10056;

/// The operating system's code for "a connection attempt is under way".
pub const ALREADY_CONNECTING: i32 = 10037;

/// A failed attempt to connect that the poll knows how to read: the socket
/// is connected, the attempt would block, or it is still under way.
pub open spec fn known_connect_failure(would_block: bool, os_error: Option<i32>) -> bool {
    os_error == Some(ALREADY_CONNECTED) || would_block || os_error == Some(ALREADY_CONNECTING)
}

/// The status after a poll's connection step, and what the poll does next:
/// - not connected: nothing to read;
/// - connecting: with no socket, the client is not connected; a connect
///   that succeeds outright is not trusted and the sockets are dropped; an
///   "already connected" failure means the connection works and the sockets
///   are read; one that would block or is under way leaves it connecting;
/// - connected: the sockets are read.
pub open spec fn spec_connect_poll_step(status: TcpConnectionStatus, outcome: ConnectOutcome) -> (
    TcpConnectionStatus,
    PollAction,
) {
    match status {
        TcpConnectionStatus::NotConnected => (status, PollAction::Nothing),
        TcpConnectionStatus::Connected => (status, PollAction::Read),
        TcpConnectionStatus::Connecting => match outcome {
            ConnectOutcome::NoSocket => (TcpConnectionStatus::NotConnected, PollAction::Nothing),
            ConnectOutcome::Succeeded => (status, PollAction::Disconnect),
            ConnectOutcome::Failed { would_block, os_error } => if os_error == Some(ALREADY_CONNECTED) {
                (TcpConnectionStatus::Connected, PollAction::Read)
            } else {
                (status, PollAction::Nothing)
            },
        },
    }
}

/// The connection step of a poll, as `spec_connect_poll_step` says; the
/// outcome of the connect call only counts while connecting, and any other
/// failure there is one the client does not handle.
pub fn connect_poll_step(status: TcpConnectionStatus, outcome: ConnectOutcome) -> (r: (TcpConnectionStatus, PollAction))
    requires
        status == TcpConnectionStatus::Connecting ==> (outcome matches ConnectOutcome::Failed { would_block, os_error }
            ==> known_connect_failure(would_block, os_error)),
    ensures
        r == spec_connect_poll_step(status, outcome),
{
    match status {
        TcpConnectionStatus::NotConnected => (status, PollAction::Nothing),
        TcpConnectionStatus::Connected => (status, PollAction::Read),
        TcpConnectionStatus::Connecting => match outcome {
            ConnectOutcome::NoSocket => (TcpConnectionStatus::NotConnected, PollAction::Nothing),
            ConnectOutcome::Succeeded => (status, PollAction::Disconnect),
            ConnectOutcome::Failed { would_block: _, os_error } => {
                let connected = match os_error {
                    Some(code) => code == ALREADY_CONNECTED,
                    None => false,
                };
                if connected {
                    (TcpConnectionStatus::Connected, PollAction::Read)
                } else {
                    (status, PollAction::Nothing)
                }
            },
        },
    }
}

/// How one read from the TCP socket came out.
#[derive(Clone, Copy, Debug, PartialEq, Eq, Structural)]
pub enum ReadOutcome {
    /// This many bytes arrived; none means the stream has ended.
    Received(usize),
    WouldBlock,
    Failed,
}

/// What the poll does after a read: stop reading, hand the bytes to the
/// receiver, or give up the connection.
#[derive(Clone, Copy, Debug, PartialEq, Eq, Structural)]
pub enum ReadStep {
    Stop,
    Take,
    Quit,
}

/// The step after a read: an ended stream or a read that would block stops
/// the reading, bytes are handed to the receiver (and the connection is
/// given up if the receiver then has failed), and an error gives it up.
pub open spec fn spec_read_step(outcome: ReadOutcome) -> ReadStep {
    match outcome {
        ReadOutcome::Received(n) => if n == 0 {
            ReadStep::Stop
        } else {
            ReadStep::Take
        },
        ReadOutcome::WouldBlock => ReadStep::Stop,
        ReadOutcome::Failed => ReadStep::Quit,
    }
}

/// The step after a read, as `spec_read_step` says.
pub fn read_step(outcome: ReadOutcome) -> (r: ReadStep)
    ensures
        r == spec_read_step(outcome),
{
    match outcome {
        ReadOutcome::Received(n) => if n == 0 {
            ReadStep::Stop
        } else {
            ReadStep::Take
        },
        ReadOutcome::WouldBlock => ReadStep::Stop,
        ReadOutcome::Failed => ReadStep::Quit,
    }
}

/// What this sender writes for a message `p`: its frame cut to the length
/// of the payload, so the header and all but the last four payload bytes.
pub open spec fn short_frame(p: Seq<u8>) -> Seq<u8> {
    frame(p).take(p.len() as int)
}

/// The first sender of length-prefixed messages: it queues messages and
/// hands out, one message at a time, what `short_frame` says.
pub struct TcpSendState {
    queue: VecDeque<Vec<u8>>,
    queue_size: usize,
    buffer: Vec<u8>,
    length: usize,
    position: usize,
}

impl TcpSendState {
    /// The rest of what is being written for the current message.
    pub closed spec fn current(&self) -> Seq<u8> {
        self.buffer@.subrange(self.position as int, self.length as int)
    }

    /// The messages that wait behind the current one.
    pub closed spec fn queued(&self) -> Seq<Seq<u8>> {
        self.queue@.map_values(|v: Vec<u8>| v@)
    }

    pub closed spec fn wf(&self) -> bool {
        &&& self.buffer@.len() == MAX_TCP_MESSAGE_SIZE
        &&& self.position <= self.length <= MAX_TCP_MESSAGE_SIZE
        &&& self.queue_size == payload_bytes(self.queued())
        &&& self.queue_size <= MAX_TCP_MESSAGE_QUEUE_SIZE
        &&& forall|i: int|
            0 <= i < self.queue@.len() ==> #[trigger] self.queue@[i]@.len() + 4 <= MAX_TCP_MESSAGE_SIZE
    }

    /// Nothing to send and nothing queued.
    pub fn new() -> (s: Self)
        ensures
            s.wf(),
            s.current() == Seq::<u8>::empty(),
            s.queued() == Seq::<Seq<u8>>::empty(),
    {
        let s = TcpSendState {
            queue: VecDeque::new(),
            queue_size: 0,
            buffer: vec![0u8; MAX_TCP_MESSAGE_SIZE],
            length: 0,
            position: 0,
        };
        assert(s.queued() =~= Seq::<Seq<u8>>::empty());
        assert(s.current() =~= Seq::<u8>::empty());
        s
    }

    /// The bytes to write next, if any are left of the current message.
    pub fn next_send(&self) -> (r: Option<&[u8]>)
        requires
            self.wf(),
        ensures
            match r {
                Some(b) => b@ == self.current() && b@.len() > 0,
                None => self.current() == Seq::<u8>::empty(),
            },
    {
        if self.position < self.length {
            Some(slice_subrange(self.buffer.as_slice(), self.position, self.length))
        } else {
            assert(self.current() =~= Seq::<u8>::empty());
            None
        }
    }

    /// Records that `sent` more bytes were written; once the current
    /// message is done, takes the next queued one.
    pub fn update_buffer(&mut self, sent: usize)
        requires
            old(self).wf(),
            sent <= old(self).current().len(),
        ensures
            final(self).wf(),
            sent == old(self).current().len() && old(self).queued().len() > 0 ==> final(self).current()
                == short_frame(old(self).queued()[0]) && final(self).queued() == old(self).queued().drop_first(),
            !(sent == old(self).current().len() && old(self).queued().len() > 0) ==> final(self).current()
                == old(self).current().skip(sent as int) && final(self).queued() == old(self).queued(),
    {
        let ghost old_q = self.queued();
        self.position = self.position + sent;
        assert(self.current() =~= old(self).current().skip(sent as int));
        if self.position >= self.length {
            if let Some(next) = self.queue.pop_front() {
                assert(next@.len() + 4 <= MAX_TCP_MESSAGE_SIZE) by {
                    assert(old(self).queue@[0] == next);
                }
                let len = next.len();
                write_be32(&mut self.buffer, len as u32);
                copy_into(&mut self.buffer, 4, next.as_slice(), 0, len);
                self.position = 0;
                self.length = len;
                self.queue_size = self.queue_size - len;
                proof {
                    assert(self.queued() =~= old_q.drop_first());
                    assert(self.current() =~= short_frame(next@));
                    assert forall|i: int| 0 <= i < self.queue@.len() implies #[trigger] self.queue@[i]@.len() + 4
                        <= MAX_TCP_MESSAGE_SIZE by {
                        assert(self.queue@[i] == old(self).queue@[i + 1]);
                    }
                }
            } else {
                assert(old_q =~= Seq::<Seq<u8>>::empty());
            }
        }
    }

    /// Queues a message, unless its frame would be too big or the queue
    /// would hold too many bytes, then moves on as `update_buffer(0)` does.
    pub fn enqueue(&mut self, packet: Vec<u8>) -> (r: Result<(), String>)
        requires
            old(self).wf(),
        ensures
            final(self).wf(),
            packet@.len() + 4 > MAX_TCP_MESSAGE_SIZE ==> (r matches Err(m) && m@ == oversize_send_text(
                packet@.len(),
            )) && *final(self) == *old(self),
            packet@.len() + 4 <= MAX_TCP_MESSAGE_SIZE && payload_bytes(old(self).queued()) + packet@.len()
                > MAX_TCP_MESSAGE_QUEUE_SIZE ==> (r matches Err(m) && m@
                == "Exceeded maximum message queue size for client"@) && *final(self) == *old(self),
            packet@.len() + 4 <= MAX_TCP_MESSAGE_SIZE && payload_bytes(old(self).queued()) + packet@.len()
                <= MAX_TCP_MESSAGE_QUEUE_SIZE ==> r is Ok && if old(self).current().len() == 0 {
                final(self).current() == short_frame(old(self).queued().push(packet@)[0])
                    && final(self).queued() == old(self).queued().push(packet@).drop_first()
            } else {
                final(self).current() == old(self).current() && final(self).queued() == old(
                    self,
                ).queued().push(packet@)
            },
    {
        if packet.len() > MAX_TCP_MESSAGE_SIZE - 4 {
            Err(oversize_send_message(packet.len()))
        } else if packet.len() > MAX_TCP_MESSAGE_QUEUE_SIZE - self.queue_size {
            Err(String::from_str("Exceeded maximum message queue size for client"))
        } else {
            let ghost old_q = self.queued();
            let ghost p = packet@;
            self.queue_size = self.queue_size + packet.len();
            self.queue.push_back(packet);
            proof {
                assert(self.queued() =~= old_q.push(p));
                lemma_frames_push(old_q, p);
                assert forall|i: int| 0 <= i < self.queue@.len() implies #[trigger] self.queue@[i]@.len() + 4
                    <= MAX_TCP_MESSAGE_SIZE by {
                    if i < old(self).queue@.len() {
                        assert(self.queue@[i] == old(self).queue@[i]);
                    }
                }
            }
            self.update_buffer(0);
            proof {
                assert(old(self).current().skip(0) =~= old(self).current());
            }
            Ok(())
        }
    }
}

} // verus!
