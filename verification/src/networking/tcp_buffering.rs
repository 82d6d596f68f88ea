use vstd::prelude::*;
use vstd::slice::{slice_subrange, slice_to_vec};

use std::collections::VecDeque;

use super::config::{MAX_TCP_MESSAGE_QUEUE_SIZE, MAX_TCP_MESSAGE_SIZE};
use crate::formatting::{decimal, push_decimal};

verus! {

/// The number a four-byte big-endian header stands for.
pub open spec fn be32_value(b: Seq<u8>) -> nat
    recommends
        b.len() >= 4,
{
    (b[0] as nat) * 16777216 + (b[1] as nat) * 65536 + (b[2] as nat) * 256 + (b[3] as nat)
}

/// The four big-endian bytes of `n`.
pub open spec fn be32_bytes(n: nat) -> Seq<u8>
    recommends
        n <= u32::MAX,
{
    seq![
        (n / 16777216) as u8,
        ((n / 65536) % 256) as u8,
        ((n / 256) % 256) as u8,
        (n % 256) as u8,
    ]
}

/// Decoding a header that was encoded gives the number back.
pub proof fn lemma_be32_value_of_bytes(n: nat)
    requires
        n <= u32::MAX,
    ensures
        be32_bytes(n).len() == 4,
        be32_value(be32_bytes(n)) == n,
{
    let b = be32_bytes(n);
    assert(b[0] as nat == n / 16777216);
    assert(b[1] as nat == (n / 65536) % 256);
    assert(b[2] as nat == (n / 256) % 256);
    assert(b[3] as nat == n % 256);
    assert((n / 16777216) * 16777216 + ((n / 65536) % 256) * 65536 + ((n / 256) % 256) * 256 + n % 256
        == n) by (nonlinear_arith)
        requires
            n <= u32::MAX,
    ;
}

/// Encoding the number that a header stands for gives the header back.
pub proof fn lemma_be32_bytes_of_value(b: Seq<u8>)
    requires
        b.len() >= 4,
    ensures
        be32_value(b) <= u32::MAX,
        be32_bytes(be32_value(b)) == b.take(4),
{
    let (b0, b1, b2, b3) = (b[0] as nat, b[1] as nat, b[2] as nat, b[3] as nat);
    let n = be32_value(b);
    assert(n == b0 * 16777216 + b1 * 65536 + b2 * 256 + b3);
    assert(n / 16777216 == b0 && (n / 65536) % 256 == b1 && (n / 256) % 256 == b2 && n % 256 == b3
        && n <= u32::MAX) by (nonlinear_arith)
        requires
            n == b0 * 16777216 + b1 * 65536 + b2 * 256 + b3,
            b0 < 256,
            b1 < 256,
            b2 < 256,
            b3 < 256,
    ;
    assert(be32_bytes(n) =~= b.take(4));
}

/// The frame that carries `payload` on a TCP stream: a four-byte big-endian
/// length, then the payload.
pub open spec fn frame(payload: Seq<u8>) -> Seq<u8> {
    be32_bytes(payload.len()) + payload
}

/// Splits a byte stream into the payloads of its complete frames, and what
/// is left. A frame with an empty payload yields no message. A header whose
/// length exceeds `MAX_TCP_MESSAGE_SIZE` stops the decoding: what is left is
/// that header alone.
pub open spec fn parse_frames(s: Seq<u8>) -> (Seq<Seq<u8>>, Seq<u8>)
    decreases s.len(),
{
    if s.len() < 4 {
        (Seq::empty(), s)
    } else {
        let n = be32_value(s) as int;
        if n > MAX_TCP_MESSAGE_SIZE {
            (Seq::empty(), s.take(4))
        } else if n == 0 {
            parse_frames(s.skip(4))
        } else if s.len() < 4 + n {
            (Seq::empty(), s)
        } else {
            let rest = parse_frames(s.skip(4 + n));
            (seq![s.subrange(4, 4 + n)] + rest.0, rest.1)
        }
    }
}

/// A stream whose decoding stopped at a header that announces too much.
pub open spec fn stream_failed(rest: Seq<u8>) -> bool {
    rest.len() >= 4 && be32_value(rest) > MAX_TCP_MESSAGE_SIZE
}

/// The views of a list of messages.
pub open spec fn messages_view(m: Seq<Vec<u8>>) -> Seq<Seq<u8>> {
    m.map_values(|v: Vec<u8>| v@)
}

/// Copies `src[from..from + count]` into `buffer[at..at + count]`.
pub(crate) fn copy_into(buffer: &mut Vec<u8>, at: usize, src: &[u8], from: usize, count: usize)
    requires
        at + count <= old(buffer)@.len(),
        from + count <= src@.len(),
    ensures
        final(buffer)@ == old(buffer)@.take(at as int) + src@.subrange(from as int, from + count)
            + old(buffer)@.skip(at + count),
{
    let mut i: usize = 0;
    while i < count
        invariant
            at + count <= old(buffer)@.len(),
            from + count <= src@.len(),
            i <= count,
            buffer@.len() == old(buffer)@.len(),
            at + count <= buffer.len(),
            from + count <= src.len(),
            buffer@ == old(buffer)@.take(at as int) + src@.subrange(from as int, from + i)
                + old(buffer)@.skip(at + i),
        decreases count - i,
    {
        buffer.set(at + i, src[from + i]);
        assert(buffer@ =~= old(buffer)@.take(at as int) + src@.subrange(from as int, from + i + 1)
            + old(buffer)@.skip(at + i + 1));
        i = i + 1;
    }
}

/// The number held by the first four bytes of `b`, read big-endian.
fn read_be32(b: &Vec<u8>) -> (n: u32)
    requires
        b@.len() >= 4,
    ensures
        n == be32_value(b@),
{
    (b[0] as u32) * 16777216 + (b[1] as u32) * 65536 + (b[2] as u32) * 256 + (b[3] as u32)
}

/// Why a stream is given up: a frame announced `announced` bytes, more
/// than allowed.
pub open spec fn oversize_text(announced: nat) -> Seq<char> {
    "Attempted to decode message that was too big: "@ + decimal(announced)
}

fn oversize_message(announced: usize) -> (r: String)
    ensures
        r@ == oversize_text(announced as nat),
{
    let mut r = String::from_str("Attempted to decode message that was too big: ");
    push_decimal(&mut r, announced as u128);
    r
}

/// Reassembles length-prefixed messages out of a TCP byte stream that
/// arrives in pieces.
pub struct TcpRecvState {
    buffer: Vec<u8>,
    length: usize,
    remaining: usize,
    failure: Option<String>,
}

impl View for TcpRecvState {
    /// The bytes taken in that belong to no complete frame yet.
    type V = Seq<u8>;

    closed spec fn view(&self) -> Seq<u8> {
        if self.remaining == 0 {
            self.buffer@.take(self.length as int)
        } else {
            be32_bytes((self.length + self.remaining) as nat) + self.buffer@.take(self.length as int)
        }
    }
}

impl TcpRecvState {
    /// The state is consistent.
    pub closed spec fn wf(&self) -> bool {
        &&& self.inner_wf()
        &&& (self.failure is Some <==> self.remaining > MAX_TCP_MESSAGE_SIZE)
        &&& (self.failure matches Some(m) ==> m@ == oversize_text(self.remaining as nat))
    }

    closed spec fn inner_wf(&self) -> bool {
        &&& self.buffer@.len() == MAX_TCP_MESSAGE_SIZE
        &&& self.length <= MAX_TCP_MESSAGE_SIZE
        &&& self.remaining <= u32::MAX
        &&& self.remaining == 0 ==> self.length < 4
        &&& 0 < self.remaining <= MAX_TCP_MESSAGE_SIZE ==> self.length + self.remaining
            <= MAX_TCP_MESSAGE_SIZE
        &&& self.remaining > MAX_TCP_MESSAGE_SIZE ==> self.length == 0
    }

    /// The stream held a header that announced a message over the limit.
    pub closed spec fn is_failed(&self) -> bool {
        self.failure is Some
    }

    /// What the state's view says of it: the state is failed exactly when
    /// its view is a header announcing too much, which is then all the view
    /// holds; and the view holds no complete frame.
    pub proof fn lemma_view_facts(&self)
        requires
            self.wf(),
        ensures
            self.is_failed() <==> stream_failed(self@),
            self.is_failed() ==> self@.len() == 4,
            parse_frames(self@) == (Seq::<Seq<u8>>::empty(), self@),
    {
        if self.remaining > 0 {
            lemma_be32_value_of_bytes((self.length + self.remaining) as nat);
        }
        let s = self@;
        if self.remaining > 0 {
            assert(s.len() >= 4);
            assert(be32_value(s) == be32_value(be32_bytes((self.length + self.remaining) as nat)));
        }
    }

    pub fn init() -> (s: TcpRecvState)
        ensures
            s.wf(),
            s@ == Seq::<u8>::empty(),
            !s.is_failed(),
    {
        let s = TcpRecvState {
            buffer: vec![0u8; MAX_TCP_MESSAGE_SIZE],
            length: 0,
            remaining: 0,
            failure: None,
        };
        assert(s@ =~= Seq::<u8>::empty());
        s
    }

    /// The reason the stream was given up, if it was.
    pub fn failed(&self) -> (f: Option<String>)
        requires
            self.wf(),
        ensures
            f is Some <==> self.is_failed(),
            f is Some <==> stream_failed(self@),
            f matches Some(m) ==> m@ == oversize_text(be32_value(self@)),
    {
        proof {
            self.lemma_view_facts();
            if self.remaining > 0 {
                lemma_be32_value_of_bytes((self.length + self.remaining) as nat);
            }
        }
        match &self.failure {
            Some(m) => Some(m.clone()),
            None => None,
        }
    }

    /// Completes the length header of the next frame from `data[pos..]`.
    fn take_header(&mut self, data: &[u8], pos: usize) -> (p: usize)
        requires
            old(self).wf(),
            old(self).remaining == 0,
            pos <= data@.len(),
            data@.len() - pos >= 4 - old(self).length,
        ensures
            final(self).inner_wf(),
            final(self).failure == old(self).failure,
            pos < p <= data@.len(),
            final(self).remaining > MAX_TCP_MESSAGE_SIZE ==> final(self)@ == (old(self)@ + data@.skip(
                pos as int)).take(4),
            final(self).remaining <= MAX_TCP_MESSAGE_SIZE ==> parse_frames(final(self)@ + data@.skip(
                p as int)) == parse_frames(old(self)@ + data@.skip(pos as int)),
            stream_failed(old(self)@ + data@.skip(pos as int)) <==> final(self).remaining
                > MAX_TCP_MESSAGE_SIZE,
    {
        let ghost cur = self@ + data@.skip(pos as int);
        let copy_len = 4 - self.length;
        assert(pos + copy_len <= data.len());
        copy_into(&mut self.buffer, self.length, data, pos, copy_len);
        assert(self.buffer@.take(4) =~= cur.take(4));
        let p = pos + copy_len;
        let header = read_be32(&self.buffer);
        proof {
            assert(be32_value(self.buffer@) == be32_value(cur));
            lemma_be32_bytes_of_value(cur);
            assert(cur.skip(4) =~= data@.skip(p as int));
        }
        self.remaining = header as usize;
        self.length = 0;
        if self.remaining > 0 {
            assert(self@ + data@.skip(p as int) =~= cur);
        } else {
            assert(self@ + data@.skip(p as int) =~= cur.skip(4));
        }
        p
    }

    /// Copies the next bytes of the current frame's payload out of
    /// `data[pos..]`, and hands the payload over once it is complete.
    fn take_body(&mut self, data: &[u8], pos: usize, messages: &mut Vec<Vec<u8>>) -> (p: usize)
        requires
            old(self).wf(),
            0 < old(self).remaining <= MAX_TCP_MESSAGE_SIZE,
            pos <= data@.len(),
        ensures
            final(self).wf(),
            pos <= p <= data@.len(),
            p < data@.len() ==> pos < p,
            p == data@.len() || final(self).remaining == 0,
            messages_view(final(messages)@) + parse_frames(final(self)@ + data@.skip(p as int)).0
                == messages_view(old(messages)@) + parse_frames(old(self)@ + data@.skip(pos as int)).0,
            parse_frames(final(self)@ + data@.skip(p as int)).1 == parse_frames(old(self)@ + data@.skip(
                pos as int)).1,
    {
        let ghost c2 = self@ + data@.skip(pos as int);
        let ghost total: int = (self.length + self.remaining) as int;
        let avail = data.len() - pos;
        let copy_len = if self.remaining < avail {
            self.remaining
        } else {
            avail
        };
        copy_into(&mut self.buffer, self.length, data, pos, copy_len);
        self.length = self.length + copy_len;
        self.remaining = self.remaining - copy_len;
        assert(copy_len <= avail);
        let p = pos + copy_len;
        if self.remaining == 0 {
            let finished = slice_to_vec(slice_subrange(self.buffer.as_slice(), 0, self.length));
            proof {
                lemma_be32_value_of_bytes(total as nat);
                assert(c2 =~= be32_bytes(total as nat) + finished@ + data@.skip(p as int));
                assert(be32_value(c2) == total);
                assert(c2.subrange(4, 4 + total) =~= finished@);
                assert(c2.skip(4 + total) =~= data@.skip(p as int));
            }
            let ghost prev = messages@;
            messages.push(finished);
            self.length = 0;
            proof {
                assert(messages_view(messages@) =~= messages_view(prev) + seq![finished@]);
                assert(self@ =~= Seq::<u8>::empty());
                assert(self@ + data@.skip(p as int) =~= data@.skip(p as int));
                assert(messages_view(messages@) + parse_frames(self@ + data@.skip(p as int)).0
                    =~= messages_view(prev) + parse_frames(c2).0);
            }
        } else {
            assert(self@ + data@.skip(p as int) =~= c2);
        }
        p
    }

    /// Takes in the next piece of the stream and gives back the messages it
    /// completes, in order.
    pub fn receive(&mut self, data: &[u8]) -> (messages: Vec<Vec<u8>>)
        requires
            old(self).wf(),
        ensures
            final(self).wf(),
            messages_view(messages@) == parse_frames(old(self)@ + data@).0,
            final(self)@ == parse_frames(old(self)@ + data@).1,
            final(self).is_failed() <==> stream_failed(final(self)@),
            old(self).is_failed() ==> messages@.len() == 0 && final(self)@ == old(self)@
                && final(self).is_failed(),
    {
        proof {
            self.lemma_view_facts();
            if self.is_failed() {
                let all = self@ + data@;
                assert(all.take(4) =~= self@);
                assert(be32_value(all) == be32_value(self@));
            }
        }
        let mut messages: Vec<Vec<u8>> = Vec::new();
        let ghost target = parse_frames(old(self)@ + data@);
        let mut pos: usize = 0;
        assert(data@.skip(0) =~= data@);
        assert(messages_view(messages@) =~= Seq::<Seq<u8>>::empty());
        while pos < data.len()
            invariant_except_break
                self.wf(),
                pos <= data@.len(),
                target.0 == messages_view(messages@) + parse_frames(self@ + data@.skip(pos as int)).0,
                target.1 == parse_frames(self@ + data@.skip(pos as int)).1,
            ensures
                self.wf(),
                target.0 == messages_view(messages@) + parse_frames(self@).0,
                target.1 == parse_frames(self@).1,
            decreases data@.len() - pos,
        {
            let ghost cur = self@ + data@.skip(pos as int);
            if self.remaining == 0 {
                if data.len() - pos < 4 - self.length {
                    let copy_len = data.len() - pos;
                    copy_into(&mut self.buffer, self.length, data, pos, copy_len);
                    self.length = self.length + copy_len;
                    assert(self@ =~= cur);
                    break;
                }
                pos = self.take_header(data, pos);
            }
            if self.remaining > MAX_TCP_MESSAGE_SIZE {
                let ghost c2 = self@ + data@.skip(pos as int);
                self.failure = Some(oversize_message(self.remaining));
                proof {
                    lemma_be32_value_of_bytes(self.remaining as nat);
                    assert(be32_value(c2) == be32_value(self@));
                    assert(c2.take(4) =~= self@);
                    assert(parse_frames(cur) == (Seq::<Seq<u8>>::empty(), self@));
                    assert(target.0 =~= messages_view(messages@) + Seq::<Seq<u8>>::empty());
                    self.lemma_view_facts();
                }
                break;
            }
            if self.remaining > 0 {
                pos = self.take_body(data, pos, &mut messages);
            }
        }
        proof {
            self.lemma_view_facts();
        }
        messages
    }
}


/// The frames of `payloads`, one after another.
pub open spec fn frames(payloads: Seq<Seq<u8>>) -> Seq<u8>
    decreases payloads.len(),
{
    if payloads.len() == 0 {
        Seq::empty()
    } else {
        frame(payloads[0]) + frames(payloads.drop_first())
    }
}

/// The number of payload bytes in `payloads`.
pub open spec fn payload_bytes(payloads: Seq<Seq<u8>>) -> nat
    decreases payloads.len(),
{
    if payloads.len() == 0 {
        0
    } else {
        payloads[0].len() + payload_bytes(payloads.drop_first())
    }
}

pub(crate) proof fn lemma_frames_push(payloads: Seq<Seq<u8>>, p: Seq<u8>)
    ensures
        frames(payloads.push(p)) == frames(payloads) + frame(p),
        payload_bytes(payloads.push(p)) == payload_bytes(payloads) + p.len(),
    decreases payloads.len(),
{
    if payloads.len() == 0 {
        assert(payloads.push(p).drop_first() =~= Seq::<Seq<u8>>::empty());
        assert(frames(Seq::<Seq<u8>>::empty()) == Seq::<u8>::empty());
        assert(payload_bytes(Seq::<Seq<u8>>::empty()) == 0);
        assert(frames(payloads.push(p)) =~= frame(p) + Seq::<u8>::empty());
        assert(frames(payloads) =~= Seq::<u8>::empty());
    } else {
        lemma_frames_push(payloads.drop_first(), p);
        assert(payloads.push(p).drop_first() =~= payloads.drop_first().push(p));
        assert(frames(payloads.push(p)) =~= frames(payloads) + frame(p));
    }
}

/// Writes the big-endian bytes of `n` into `buffer[0..4]`.
pub(crate) fn write_be32(buffer: &mut Vec<u8>, n: u32)
    requires
        old(buffer)@.len() >= 4,
    ensures
        final(buffer)@ == be32_bytes(n as nat) + old(buffer)@.skip(4),
{
    buffer.set(0, (n / 16777216) as u8);
    buffer.set(1, ((n / 65536) % 256) as u8);
    buffer.set(2, ((n / 256) % 256) as u8);
    buffer.set(3, (n % 256) as u8);
    assert(buffer@ =~= be32_bytes(n as nat) + old(buffer)@.skip(4));
}

/// Why a message of `len` bytes is not sent: its frame is too big.
pub open spec fn oversize_send_text(len: nat) -> Seq<char> {
    "Tried to send message that was too big: "@ + decimal(len + 4) + " > "@ + decimal(
        MAX_TCP_MESSAGE_SIZE as nat,
    )
}

pub(crate) fn oversize_send_message(len: usize) -> (r: String)
    ensures
        r@ == oversize_send_text(len as nat),
{
    let mut r = String::from_str("Tried to send message that was too big: ");
    push_decimal(&mut r, len as u128 + 4);
    r.append(" > ");
    push_decimal(&mut r, MAX_TCP_MESSAGE_SIZE as u128);
    r
}

/// Turns messages into length-prefixed frames and hands them out piece by
/// piece, as fast as the socket takes them.
pub struct TcpSendState {
    queue: VecDeque<Vec<u8>>,
    queue_size: usize,
    buffer: Vec<u8>,
    length: usize,
    position: usize,
}

impl View for TcpSendState {
    /// The bytes still to be written to the stream, in order.
    type V = Seq<u8>;

    closed spec fn view(&self) -> Seq<u8> {
        self.current() + frames(self.queued())
    }
}

impl TcpSendState {
    /// The rest of the frame that is being written.
    pub closed spec fn current(&self) -> Seq<u8> {
        if self.position < self.length {
            self.buffer@.subrange(self.position as int, self.length as int)
        } else {
            Seq::empty()
        }
    }

    /// The payloads that wait behind the frame being written.
    pub closed spec fn queued(&self) -> Seq<Seq<u8>> {
        self.queue@.map_values(|v: Vec<u8>| v@)
    }

    /// The state is consistent.
    pub closed spec fn wf(&self) -> bool {
        &&& self.buffer@.len() == MAX_TCP_MESSAGE_SIZE
        &&& self.length <= MAX_TCP_MESSAGE_SIZE
        &&& self.position <= self.length
        &&& self.position == self.length ==> self.queue@.len() == 0
        &&& self.queue_size == payload_bytes(self.queued())
        &&& self.queue_size <= MAX_TCP_MESSAGE_QUEUE_SIZE
        &&& forall|i: int|
            0 <= i < self.queue@.len() ==> #[trigger] self.queue@[i]@.len() + 4 <= MAX_TCP_MESSAGE_SIZE
    }

    pub fn init() -> (s: Self)
        ensures
            s.wf(),
            s@ == Seq::<u8>::empty(),
            s.queued() == Seq::<Seq<u8>>::empty(),
    {
        let s = TcpSendState {
            queue: VecDeque::new(),
            queue_size: 0,
            buffer: vec![0u8; MAX_TCP_MESSAGE_SIZE],
            length: 0,
            position: 0,
        };
        assert(s.queued() =~= Seq::<Seq<u8>>::empty());
        assert(s@ =~= Seq::<u8>::empty());
        s
    }

    /// The bytes still to write are the rest of the current frame, then the
    /// frames of the queued payloads in order.
    pub proof fn lemma_view(&self)
        ensures
            self@ == self.current() + frames(self.queued()),
    {
    }

    /// The bytes to write next, if any are left: the rest of the current
    /// frame, which is the front of what is still to be written.
    pub fn next_send(&self) -> (r: Option<&[u8]>)
        requires
            self.wf(),
        ensures
            r is None <==> self@.len() == 0,
            match r {
                Some(b) => b@ == self.current() && 0 < b@.len() <= self@.len() && self@.take(b@.len() as int) == b@,
                None => self@ == Seq::<u8>::empty(),
            },
    {
        if self.position < self.length {
            let b = slice_subrange(self.buffer.as_slice(), self.position, self.length);
            assert(self@.take(b@.len() as int) =~= b@);
            Some(b)
        } else {
            assert(self.queued() =~= Seq::<Seq<u8>>::empty());
            assert(self@ =~= Seq::<u8>::empty());
            None
        }
    }

    /// The state is consistent, but for a finished frame that may still
    /// have to make way for the next queued one.
    closed spec fn wf_but_refill(&self) -> bool {
        &&& self.buffer@.len() == MAX_TCP_MESSAGE_SIZE
        &&& self.length <= MAX_TCP_MESSAGE_SIZE
        &&& self.position <= self.length
        &&& self.queue_size == payload_bytes(self.queued())
        &&& self.queue_size <= MAX_TCP_MESSAGE_QUEUE_SIZE
        &&& forall|i: int|
            0 <= i < self.queue@.len() ==> #[trigger] self.queue@[i]@.len() + 4 <= MAX_TCP_MESSAGE_SIZE
    }

    /// Once the current frame is written, frames the next queued message.
    fn refill(&mut self)
        requires
            old(self).wf_but_refill(),
        ensures
            final(self).wf(),
            final(self)@ == old(self)@,
            old(self).position < old(self).length ==> final(self).queued() == old(self).queued()
                && final(self).current() == old(self).current(),
            old(self).position == old(self).length && old(self).queued().len() > 0 ==> final(self).current()
                == frame(old(self).queued()[0]),
            old(self).position == old(self).length ==> final(self).queued() == (if old(self).queued().len()
                > 0 {
                old(self).queued().drop_first()
            } else {
                old(self).queued()
            }),
    {
        let ghost old_q = self.queued();
        if self.position >= self.length {
            let next = self.queue.pop_front();
            match next {
                Some(next) => {
                    assert(next@.len() + 4 <= MAX_TCP_MESSAGE_SIZE) by {
                        assert(old(self).queue@[0] == next);
                    }
                    let len = next.len();
                    write_be32(&mut self.buffer, len as u32);
                    copy_into(&mut self.buffer, 4, next.as_slice(), 0, len);
                    self.position = 0;
                    self.length = len + 4;
                    self.queue_size = self.queue_size - len;
                    proof {
                        assert(self.queued() =~= old_q.drop_first());
                        assert(self.current() =~= frame(next@));
                        assert(self@ =~= frames(old_q));
                        assert(old(self)@ =~= frames(old_q));
                        assert forall|i: int| 0 <= i < self.queue@.len() implies #[trigger] self.queue@[i]@.len() + 4
                            <= MAX_TCP_MESSAGE_SIZE by {
                            assert(self.queue@[i] == old(self).queue@[i + 1]);
                        }
                    }
                },
                None => {
                    proof {
                        assert(self.queued() =~= Seq::<Seq<u8>>::empty());
                        assert(old_q =~= Seq::<Seq<u8>>::empty());
                    }
                },
            }
        }
    }

    /// Records that `sent` bytes of what `next_send` gave were written, and
    /// moves on to the next queued message once the current frame is done.
    pub fn update_buffer(&mut self, sent: usize)
        requires
            old(self).wf(),
            sent <= old(self).current().len(),
        ensures
            final(self).wf(),
            final(self)@ == old(self)@.skip(sent as int),
            sent < old(self).current().len() ==> final(self).queued() == old(self).queued()
                && final(self).current() == old(self).current().skip(sent as int),
            sent == old(self).current().len() && old(self).queued().len() > 0 ==> final(self).current()
                == frame(old(self).queued()[0]),
            sent == old(self).current().len() ==> final(self).queued() == (if old(self).queued().len() > 0 {
                old(self).queued().drop_first()
            } else {
                old(self).queued()
            }),
    {
        let ghost old_cur = self.current();
        proof {
            if self.position == self.length {
                assert(self.queued() =~= Seq::<Seq<u8>>::empty());
            }
        }
        self.position = self.position + sent;
        assert(self.current() =~= old_cur.skip(sent as int));
        assert(self@ =~= old(self)@.skip(sent as int));
        self.refill();
    }

    /// Queues a message to be sent as one frame, unless the frame would be
    /// too big or the queue would hold too many bytes.
    pub fn enqueue(&mut self, packet: Vec<u8>) -> (r: Result<(), String>)
        requires
            old(self).wf(),
        ensures
            final(self).wf(),
            packet@.len() + 4 > MAX_TCP_MESSAGE_SIZE ==> (r matches Err(m) && m@ == oversize_send_text(
                packet@.len(),
            )) && final(self)@ == old(self)@ && final(self).queued() == old(self).queued(),
            packet@.len() + 4 <= MAX_TCP_MESSAGE_SIZE && payload_bytes(old(self).queued()) + packet@.len()
                > MAX_TCP_MESSAGE_QUEUE_SIZE ==> (r matches Err(m) && m@
                == "Exceeded maximum message queue size for client"@) && final(self)@ == old(self)@
                && final(self).queued() == old(self).queued(),
            packet@.len() + 4 <= MAX_TCP_MESSAGE_SIZE && payload_bytes(old(self).queued()) + packet@.len()
                <= MAX_TCP_MESSAGE_QUEUE_SIZE ==> r is Ok && final(self)@ == old(self)@ + frame(packet@)
                && (old(self)@.len() == 0 ==> final(self).current() == frame(packet@)
                && final(self).queued() == Seq::<Seq<u8>>::empty())
                && (old(self)@.len() > 0 ==> final(self).current() == old(self).current()
                && final(self).queued() == old(self).queued().push(packet@)),
    {
        if packet.len() > MAX_TCP_MESSAGE_SIZE - 4 {
            Err(oversize_send_message(packet.len()))
        } else if packet.len() > MAX_TCP_MESSAGE_QUEUE_SIZE - self.queue_size {
            Err(String::from_str("Exceeded maximum message queue size for client"))
        } else {
            let ghost old_q = self.queued();
            let ghost old_cur = self.current();
            let ghost p = packet@;
            self.queue_size = self.queue_size + packet.len();
            self.queue.push_back(packet);
            proof {
                assert(self.queued() =~= old_q.push(p));
                lemma_frames_push(old_q, p);
                assert forall|i: int| 0 <= i < self.queue@.len() implies #[trigger] self.queue@[i]@.len() + 4
                    <= MAX_TCP_MESSAGE_SIZE by {
                    if i < old(self).queue@.len() {
                        assert(self.queue@[i] == old(self).queue@[i]);
                    }
                }
                if self.position >= self.length {
                    assert(old_q =~= Seq::<Seq<u8>>::empty());
                    assert(self.queued().drop_first() =~= Seq::<Seq<u8>>::empty());
                } else {
                    assert(old(self)@.len() > 0);
                }
                if old(self)@.len() == 0 {
                    assert(old(self).current().len() == 0);
                }
            }
            assert(self@ =~= old(self)@ + frame(p));
            self.refill();
            Ok(())
        }
    }
}


/// One step of sending: `next_send` hands out the front of the bytes still
/// to write, and `update_buffer(k)` leaves them without their first `k`.
/// What was written in that step, then what is left, is what was to be
/// written before; so over any run of such steps the bytes written are the
/// stream, in order, each once.
pub proof fn lemma_send_step(before: Seq<u8>, chunk: Seq<u8>, k: int, after: Seq<u8>)
    requires
        chunk.len() <= before.len(),
        before.take(chunk.len() as int) == chunk,
        0 <= k <= chunk.len(),
        after == before.skip(k),
    ensures
        chunk.take(k) + after == before,
{
    assert forall|i: int| 0 <= i < k implies chunk[i] == before[i] by {
        assert(before.take(chunk.len() as int)[i] == before[i]);
    }
    assert(chunk.take(k) + after =~= before);
}

/// Decoding a stream that arrives in two pieces gives the messages of the
/// first piece, then those of what the first piece left over followed by the
/// second piece; what is left at the end is the same either way. This is
/// what lets `TcpRecvState::receive` be fed the stream in any chunks.
pub proof fn lemma_parse_frames_chunks(s1: Seq<u8>, s2: Seq<u8>)
    ensures
        parse_frames(s1 + s2).0 == parse_frames(s1).0 + parse_frames(parse_frames(s1).1 + s2).0,
        parse_frames(s1 + s2).1 == parse_frames(parse_frames(s1).1 + s2).1,
    decreases s1.len(),
{
    let s = s1 + s2;
    if s1.len() < 4 {
        assert(parse_frames(s1).0 + parse_frames(s1 + s2).0 =~= parse_frames(s1 + s2).0);
    } else {
        assert(be32_value(s) == be32_value(s1));
        let n = be32_value(s1) as int;
        if n > MAX_TCP_MESSAGE_SIZE {
            assert(s.take(4) =~= s1.take(4));
            let t = s1.take(4) + s2;
            assert(be32_value(t) == be32_value(s1));
            assert(t.take(4) =~= s1.take(4));
            assert(parse_frames(s).0 =~= Seq::<Seq<u8>>::empty() + Seq::<Seq<u8>>::empty());
        } else if n == 0 {
            assert(s.skip(4) =~= s1.skip(4) + s2);
            lemma_parse_frames_chunks(s1.skip(4), s2);
        } else if s1.len() < 4 + n {
            assert(parse_frames(s1).0 + parse_frames(s1 + s2).0 =~= parse_frames(s1 + s2).0);
        } else {
            assert(s.skip(4 + n) =~= s1.skip(4 + n) + s2);
            assert(s.subrange(4, 4 + n) =~= s1.subrange(4, 4 + n));
            lemma_parse_frames_chunks(s1.skip(4 + n), s2);
            assert(parse_frames(s).0 =~= parse_frames(s1).0 + parse_frames(parse_frames(s1).1 + s2).0);
        }
    }
}

/// Decoding the frames of non-empty payloads, each small enough to be sent,
/// gives back exactly those payloads and leaves nothing over.
pub proof fn lemma_parse_frames_of_frames(payloads: Seq<Seq<u8>>)
    requires
        forall|i: int|
            0 <= i < payloads.len() ==> 0 < #[trigger] payloads[i].len() && payloads[i].len() + 4
                <= MAX_TCP_MESSAGE_SIZE,
    ensures
        parse_frames(frames(payloads)) == (payloads, Seq::<u8>::empty()),
    decreases payloads.len(),
{
    if payloads.len() == 0 {
        assert(frames(payloads) == Seq::<u8>::empty());
    } else {
        let p = payloads[0];
        let rest = payloads.drop_first();
        assert forall|i: int| 0 <= i < rest.len() implies 0 < #[trigger] rest[i].len() && rest[i].len() + 4
            <= MAX_TCP_MESSAGE_SIZE by {
            assert(rest[i] == payloads[i + 1]);
        }
        lemma_parse_frames_of_frames(rest);
        let s = frames(payloads);
        lemma_be32_value_of_bytes(p.len());
        assert(s =~= be32_bytes(p.len()) + p + frames(rest));
        assert(be32_value(s) == p.len());
        assert(s.subrange(4, 4 + p.len() as int) =~= p);
        assert(s.skip(4 + p.len() as int) =~= frames(rest));
        assert(seq![p] + rest =~= payloads);
    }
}

} // verus!
