use std::collections::VecDeque;

use vstd::prelude::*;

use super::config::{MAX_TCP_MESSAGE_QUEUE_SIZE, MAX_TCP_MESSAGE_SIZE, MAX_UDP_MESSAGE_SIZE};
use super::tcp_buffering::{frame, oversize_send_text, payload_bytes, TcpRecvState, TcpSendState};
use crate::formatting::{decimal, push_decimal};
use super::{AddressPair, Protocol};

verus! {

/// What can go wrong on the client's side of the connection.
#[derive(Debug)]
pub enum ClientError {
    NoConnection,
    DiscardedConnection,
    FailedConnection(String),
    BadCommand(String),
    Other(String),
}

/// What happened to the client's connection.
#[derive(Debug)]
pub enum ClientUpdate {
    Connected,
    Disconnected(Option<ClientError>),
    PreventedReconnection(Option<ClientError>),
    Log(String),
    Error(ClientError),
    Message(Protocol, Vec<u8>),
}


/// Why a message of `len` bytes is not sent over `transport`, which takes
/// at most `max`.
pub open spec fn too_big_text(transport: Seq<char>, len: nat, max: nat) -> Seq<char> {
    "Attempted to send "@ + transport + " message that was too big: "@ + decimal(len) + " > "@ + decimal(max)
}

fn too_big_message(transport: &str, len: usize, max: usize) -> (r: String)
    ensures
        r@ == too_big_text(transport@, len as nat, max as nat),
{
    let mut r = String::from_str("Attempted to send ");
    r.append(transport);
    r.append(" message that was too big: ");
    push_decimal(&mut r, len as u128);
    r.append(" > ");
    push_decimal(&mut r, max as u128);
    r
}

/// The buffers of an open connection to the server: UDP datagrams waiting
/// to be sent, and both directions of the TCP stream.
pub struct ConnectionQueues {
    pub udp_message_queue: VecDeque<Vec<u8>>,
    pub tcp_send: TcpSendState,
    pub tcp_recv: TcpRecvState,
}

impl ConnectionQueues {
    /// The queues are consistent.
    pub open spec fn wf(&self) -> bool {
        self.tcp_send.wf() && self.tcp_recv.wf()
    }

    /// Empty queues for a connection just made.
    pub fn init() -> (q: Self)
        ensures
            q.wf(),
            q.udp_message_queue@ == Seq::<Vec<u8>>::empty(),
            q.tcp_send@ == Seq::<u8>::empty(),
            q.tcp_recv@ == Seq::<u8>::empty(),
    {
        ConnectionQueues {
            udp_message_queue: VecDeque::new(),
            tcp_send: TcpSendState::init(),
            tcp_recv: TcpRecvState::init(),
        }
    }

    /// Queues `data` to go out over `protocol`, unless it is too big for it.
    pub fn send_data(&mut self, protocol: Protocol, data: Vec<u8>) -> (r: Result<(), ClientError>)
        requires
            old(self).wf(),
        ensures
            final(self).wf(),
            final(self).tcp_recv == old(self).tcp_recv,
            protocol == Protocol::UDP && data@.len() > MAX_UDP_MESSAGE_SIZE ==> (r matches Err(
                ClientError::BadCommand(m),
            ) && m@ == too_big_text("UDP"@, data@.len(), MAX_UDP_MESSAGE_SIZE as nat))
                && final(self).udp_message_queue@ == old(self).udp_message_queue@,
            protocol == Protocol::UDP && data@.len() <= MAX_UDP_MESSAGE_SIZE ==> r is Ok
                && final(self).udp_message_queue@ == old(self).udp_message_queue@.push(data),
            protocol == Protocol::UDP ==> final(self).tcp_send@ == old(self).tcp_send@,
            protocol == Protocol::TCP ==> final(self).udp_message_queue@ == old(self).udp_message_queue@,
            protocol == Protocol::TCP && data@.len() > MAX_TCP_MESSAGE_SIZE ==> (r matches Err(
                ClientError::BadCommand(m),
            ) && m@ == too_big_text("TCP"@, data@.len(), MAX_TCP_MESSAGE_SIZE as nat))
                && final(self).tcp_send@ == old(self).tcp_send@,
            protocol == Protocol::TCP && data@.len() <= MAX_TCP_MESSAGE_SIZE && data@.len() + 4
                > MAX_TCP_MESSAGE_SIZE ==> (r matches Err(ClientError::Other(m)) && m@ == oversize_send_text(
                data@.len(),
            )) && final(self).tcp_send@ == old(self).tcp_send@,
            protocol == Protocol::TCP && data@.len() + 4 <= MAX_TCP_MESSAGE_SIZE && payload_bytes(
                old(self).tcp_send.queued(),
            ) + data@.len() > MAX_TCP_MESSAGE_QUEUE_SIZE ==> (r matches Err(ClientError::Other(m)) && m@
                == "Exceeded maximum message queue size for client"@) && final(self).tcp_send@
                == old(self).tcp_send@,
            protocol == Protocol::TCP && data@.len() + 4 <= MAX_TCP_MESSAGE_SIZE && payload_bytes(
                old(self).tcp_send.queued(),
            ) + data@.len() <= MAX_TCP_MESSAGE_QUEUE_SIZE ==> r is Ok && final(self).tcp_send@
                == old(self).tcp_send@ + frame(data@),
    {
        match protocol {
            Protocol::UDP => {
                if data.len() > MAX_UDP_MESSAGE_SIZE {
                    return Err(
                        ClientError::BadCommand(too_big_message("UDP", data.len(), MAX_UDP_MESSAGE_SIZE)),
                    );
                }
                self.udp_message_queue.push_back(data);
                Ok(())
            },
            Protocol::TCP => {
                if data.len() > MAX_TCP_MESSAGE_SIZE {
                    return Err(
                        ClientError::BadCommand(too_big_message("TCP", data.len(), MAX_TCP_MESSAGE_SIZE)),
                    );
                }
                match self.tcp_send.enqueue(data) {
                    Ok(()) => Ok(()),
                    Err(msg) => Err(ClientError::Other(msg)),
                }
            },
        }
    }
}

/// Where the client stands in making its connection: connected or not, the
/// address pair an attempt is under way to, and the one to try next.
pub struct ConnectionState {
    pub connected: bool,
    pub connecting: Option<AddressPair>,
    pub next_attempt: Option<AddressPair>,
}

/// What the attempt under way has come to.
pub enum ConnectPoll {
    /// No answer yet.
    Pending,
    /// The thread that connects went away without an answer.
    ThreadGone,
    /// The TCP connection failed: the address tried and the error, as texts.
    TcpFailed(String, String),
    /// TCP connected, but no UDP socket could be opened: the error, as text.
    UdpFailed(String),
    /// TCP connected and a UDP socket is open.
    Ready,
}

/// What the caller is to do next about the connection.
pub enum ConnectStep {
    Idle,
    /// Start an attempt to this pair.
    Start(AddressPair),
    /// Drop the sockets just made and start an attempt to this pair.
    Restart(AddressPair),
    /// Make the new sockets non-blocking and report how that went to
    /// `finish_connecting`.
    Finish(AddressPair),
}

/// A text made of the literal `prefix` and `rest`.
fn prefixed(prefix: &str, rest: &str) -> (r: String)
    ensures
        r@ == prefix@ + rest@,
{
    let mut r = String::from_str(prefix);
    r.append(rest);
    r
}

impl ConnectionState {
    /// Not connected, and no attempt under way or waiting.
    pub fn init_disconnected() -> (s: Self)
        ensures
            !s.connected,
            s.connecting is None,
            s.next_attempt is None,
    {
        ConnectionState { connected: false, connecting: None, next_attempt: None }
    }

    pub fn is_connected(&self) -> (r: bool)
        ensures
            r == self.connected,
    {
        self.connected
    }

    /// Asks for a connection to `addr`: at once if no attempt is under way,
    /// else after it (an address asked for earlier is forgotten). Gives the
    /// pair to start an attempt to now, if any.
    pub fn connect(&mut self, addr: AddressPair) -> (start: Option<AddressPair>)
        ensures
            final(self).connected == old(self).connected,
            old(self).connecting is Some ==> start is None && final(self).connecting == old(self).connecting
                && final(self).next_attempt == Some(addr),
            old(self).connecting is None ==> start == Some(addr) && final(self).connecting == Some(addr)
                && final(self).next_attempt == old(self).next_attempt,
    {
        if self.connecting.is_some() {
            self.next_attempt = Some(addr);
            None
        } else {
            self.connecting = Some(addr);
            Some(addr)
        }
    }

    /// Drops the connection and every attempt; says so if there was a
    /// connection, or an attempt waiting to be made.
    pub fn disconnect(&mut self, error: Option<ClientError>) -> (r: Option<ClientUpdate>)
        ensures
            !final(self).connected,
            final(self).connecting is None,
            final(self).next_attempt is None,
            r == (if old(self).connected {
                Some(ClientUpdate::Disconnected(error))
            } else if old(self).next_attempt is Some {
                Some(ClientUpdate::PreventedReconnection(error))
            } else {
                None
            }),
    {
        let update = if self.connected {
            Some(ClientUpdate::Disconnected(error))
        } else if self.next_attempt.is_some() {
            Some(ClientUpdate::PreventedReconnection(error))
        } else {
            None
        };
        self.connected = false;
        self.connecting = None;
        self.next_attempt = None;
        update
    }

    /// Moves the connection on by what `poll` says of the attempt under way
    /// (it is read only while not connected and an attempt is under way):
    /// - connected: nothing is under way or waiting any more;
    /// - the attempt failed: it ends, and the failure is reported;
    /// - the attempt is ready: if another address is waiting, the sockets
    ///   are dropped and an attempt to it starts, reported as discarded;
    ///   else the sockets are to be finished;
    /// - nothing under way but an address waiting: an attempt to it starts.
    pub fn check_connection(&mut self, poll: ConnectPoll) -> (r: (Option<ClientUpdate>, ConnectStep))
        ensures
            final(self).connected == old(self).connected,
            old(self).connected ==> final(self).connecting is None && final(self).next_attempt is None
                && r.0 is None && r.1 is Idle,
            !old(self).connected && old(self).connecting is None ==> match old(self).next_attempt {
                Some(n) => final(self).connecting == Some(n) && final(self).next_attempt == Some(n)
                    && r.0 is None && r.1 == ConnectStep::Start(n),
                None => *final(self) == *old(self) && r.0 is None && r.1 is Idle,
            },
            !old(self).connected && old(self).connecting is Some ==> final(self).next_attempt
                == old(self).next_attempt && match poll {
                ConnectPoll::Pending => *final(self) == *old(self) && r.0 is None && r.1 is Idle,
                ConnectPoll::ThreadGone => final(self).connecting is None && r.1 is Idle && (r.0 matches Some(
                    ClientUpdate::Error(ClientError::FailedConnection(m)),
                ) && m@ == "TCP connect thread disconnected unexpectedly"@),
                ConnectPoll::TcpFailed(a, e) => final(self).connecting is None && r.1 is Idle && (r.0 matches Some(
                    ClientUpdate::Error(ClientError::FailedConnection(m)),
                ) && m@ == "Error connecting TCP to "@ + a@ + ": "@ + e@),
                ConnectPoll::UdpFailed(e) => final(self).connecting is None && r.1 is Idle && (r.0 matches Some(
                    ClientUpdate::Error(ClientError::FailedConnection(m)),
                ) && m@ == "Error opening UDP socket at 0.0.0.0:0: "@ + e@),
                ConnectPoll::Ready => match old(self).next_attempt {
                    Some(n) => final(self).connecting == Some(n) && r.1 == ConnectStep::Restart(n) && (r.0 matches Some(
                        ClientUpdate::Error(ClientError::DiscardedConnection),
                    )),
                    None => final(self).connecting is None && r.0 is None && r.1 == ConnectStep::Finish(
                        old(self).connecting->0,
                    ),
                },
            },
    {
        if self.connected {
            self.connecting = None;
            self.next_attempt = None;
            return (None, ConnectStep::Idle);
        }
        match self.connecting {
            Some(addr) => match poll {
                ConnectPoll::Pending => (None, ConnectStep::Idle),
                ConnectPoll::ThreadGone => {
                    self.connecting = None;
                    (
                        Some(ClientUpdate::Error(ClientError::FailedConnection(
                            String::from_str("TCP connect thread disconnected unexpectedly"),
                        ))),
                        ConnectStep::Idle,
                    )
                },
                ConnectPoll::TcpFailed(a, e) => {
                    self.connecting = None;
                    let mut m = prefixed("Error connecting TCP to ", a.as_str());
                    m.append(": ");
                    m.append(e.as_str());
                    (Some(ClientUpdate::Error(ClientError::FailedConnection(m))), ConnectStep::Idle)
                },
                ConnectPoll::UdpFailed(e) => {
                    self.connecting = None;
                    (
                        Some(ClientUpdate::Error(ClientError::FailedConnection(
                            prefixed("Error opening UDP socket at 0.0.0.0:0: ", e.as_str()),
                        ))),
                        ConnectStep::Idle,
                    )
                },
                ConnectPoll::Ready => match self.next_attempt {
                    Some(n) => {
                        self.connecting = Some(n);
                        (Some(ClientUpdate::Error(ClientError::DiscardedConnection)), ConnectStep::Restart(n))
                    },
                    None => {
                        self.connecting = None;
                        (None, ConnectStep::Finish(addr))
                    },
                },
            },
            None => match self.next_attempt {
                Some(n) => {
                    self.connecting = Some(n);
                    (None, ConnectStep::Start(n))
                },
                None => (None, ConnectStep::Idle),
            },
        }
    }

    /// Ends an attempt whose sockets were to be made non-blocking: connected
    /// if both were, else the failure is reported.
    pub fn finish_connecting(&mut self, udp_nonblocking: Result<(), String>, tcp_nonblocking: Result<(), String>) -> (r: ClientUpdate)
        ensures
            final(self).connecting == old(self).connecting,
            final(self).next_attempt == old(self).next_attempt,
            final(self).connected == (old(self).connected || (udp_nonblocking is Ok && tcp_nonblocking is Ok)),
            udp_nonblocking is Ok && tcp_nonblocking is Ok ==> r is Connected,
            udp_nonblocking matches Err(e) ==> (r matches ClientUpdate::Error(ClientError::FailedConnection(m))
                && m@ == "Error setting TCP stream to nonblocking: "@ + e@),
            udp_nonblocking is Ok ==> (tcp_nonblocking matches Err(e) ==> (r matches ClientUpdate::Error(
                ClientError::FailedConnection(m),
            ) && m@ == "Error setting TCP stream to nonblocking: "@ + e@)),
    {
        match (udp_nonblocking, tcp_nonblocking) {
            (Ok(()), Ok(())) => {
                self.connected = true;
                ClientUpdate::Connected
            },
            (Ok(()), Err(e)) => ClientUpdate::Error(
                ClientError::FailedConnection(prefixed("Error setting TCP stream to nonblocking: ", e.as_str())),
            ),
            (Err(e), _) => ClientUpdate::Error(
                ClientError::FailedConnection(prefixed("Error setting TCP stream to nonblocking: ", e.as_str())),
            ),
        }
    }
}

/// About how many packets `size` bytes of a stream count as, at 1024 bytes
/// each, for the limit on work done in one round.
pub fn approx_packets(size: usize) -> (n: usize)
    requires
        size >= 1,
    ensures
        n == 1 + (size - 1) / 1024,
{
    1 + (size - 1) / 1024
}

} // verus!
