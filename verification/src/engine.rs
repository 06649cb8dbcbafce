//! The block-sequencing engines that drive one direction of a transfer.
//!
//! Each engine is a state machine over plain values: callers perform the
//! sends, receives and timeouts, and hand every received message or
//! timeout to the engine, which decides what happens next — slide the
//! window, acknowledge, resend, finish, or fail. Block numbers start at 1
//! and wrap modulo 65536; loss is repaired go-back-N style, with the
//! whole outstanding window resent on a timeout, under a bounded retry
//! budget.

use crate::message::Message;
use crate::window::chunk_shape;
use crate::window::WindowRead;
use crate::window::WindowWrite;
use vstd::prelude::*;

verus! {

/// The block number `k` steps after `base`, wrapping modulo 65536.
pub open spec fn block_after(base: u16, k: int) -> u16
    recommends
        k >= 0,
{
    ((base + k) % 0x10000) as u16
}

/// How many steps forward `to` lies from `from`, wrapping modulo 65536.
pub open spec fn wrap_distance(from: u16, to: u16) -> int {
    if to >= from {
        to - from
    } else {
        to + 0x10000 - from
    }
}

/// What a timeout means for the transfer.
#[derive(Clone, Copy, Debug, PartialEq, Eq, Structural)]
pub enum RetryOutcome {
    /// Resend what the peer may have missed and wait again.
    Retry,
    /// The retry budget is spent: the transfer failed by timeout.
    Exhausted,
}

/// What the upload engine decided about one received message.
#[derive(Debug)]
pub enum SenderOutcome {
    /// The acknowledgement advanced the window: refill and send anew.
    Progress,
    /// A stale or duplicate acknowledgement, ignored.
    Stale,
    /// The terminal chunk is acknowledged: the upload succeeded.
    Finished,
    /// The peer aborted the transfer.
    PeerError {
        /// The protocol error code.
        code: u16,
        /// The peer's human-readable reason.
        message: Vec<u8>,
    },
    /// A packet the upload loop does not allow.
    Violation,
}

/// The upload engine: sends the chunks of a read window as data blocks
/// and slides the window as acknowledgements come in.
pub struct Sender {
    /// The window over the source bytes.
    pub window: WindowRead,
    /// The block number of the newest acknowledged block; the window's
    /// chunks carry the numbers after it.
    pub base: u16,
    /// Timeouts since the last acknowledged progress.
    pub retries: u16,
    /// How many timeouts in a row the transfer survives.
    pub retry_limit: u16,
    /// Whether the terminal chunk has been acknowledged.
    pub done: bool,
}

impl Sender {
    /// The engine's invariant.
    pub open spec fn wf(self) -> bool {
        &&& self.window.wf()
        &&& (self.done ==> self.window.at_eof() && self.window.chunks().len() == 0)
    }

    /// Creates an upload engine over a fresh read window.
    pub fn new(window: WindowRead, retry_limit: u16) -> (s: Sender)
        requires
            window.wf(),
        ensures
            s.wf(),
            s.window == window,
            s.base == 0,
            s.retries == 0,
            s.retry_limit == retry_limit,
            !s.done,
    {
        Sender { window, base: 0, retries: 0, retry_limit, done: false }
    }

    /// The data messages of the current window: one block per buffered
    /// chunk, numbered consecutively after `base`.
    pub fn window_data(&self) -> (msgs: Vec<Message>)
        requires
            self.wf(),
        ensures
            msgs@.len() == self.window.chunks().len(),
            forall|i: int|
                0 <= i < msgs@.len() ==> ((#[trigger] msgs@[i]) matches Message::Data {
                    block,
                    payload,
                } && block == block_after(self.base, i + 1) && payload@
                    == self.window.chunks()[i]),
    {
        let mut msgs: Vec<Message> = Vec::new();
        let n = self.window.len();
        let mut i: u16 = 0;
        while i < n
            invariant
                self.wf(),
                n == self.window.chunks().len(),
                0 <= i <= n,
                msgs@.len() == i,
                forall|j: int|
                    0 <= j < i ==> ((#[trigger] msgs@[j]) matches Message::Data { block, payload }
                        && block == block_after(self.base, j + 1) && payload@
                        == self.window.chunks()[j]),
            decreases n - i,
        {
            let payload = vstd::slice::slice_to_vec(
                self.window.get_elements()[i as usize].as_slice(),
            );
            let block = self.base.wrapping_add(i).wrapping_add(1);
            proof {
                assert(block == block_after(self.base, i + 1));
            }
            msgs.push(Message::Data { block, payload });
            i = i + 1;
        }
        msgs
    }

    /// Feeds one received message to the engine. An acknowledgement that
    /// covers one to all of the window's blocks drains the covered chunks
    /// and resets the retry budget; acknowledging the terminal chunk
    /// completes the upload; anything older is ignored as a duplicate; an
    /// error from the peer is fatal; any other packet is a protocol
    /// violation.
    pub fn on_message(&mut self, m: Message) -> (r: SenderOutcome)
        requires
            old(self).wf(),
            !old(self).done,
        ensures
            final(self).wf(),
            final(self).retry_limit == old(self).retry_limit,
            final(self).window.src() == old(self).window.src(),
            final(self).window.capacity() == old(self).window.capacity(),
            final(self).window.block_size() == old(self).window.block_size(),
            final(self).window.consumed() == old(self).window.consumed(),
            final(self).window.at_eof() == old(self).window.at_eof(),
            match m {
                Message::Ack { block } => {
                    let d = wrap_distance(old(self).base, block);
                    if 1 <= d <= old(self).window.chunks().len() {
                        &&& final(self).window.chunks() == old(self).window.chunks().skip(d)
                        &&& final(self).base == block
                        &&& final(self).retries == 0
                        &&& final(self).done == (old(self).window.at_eof() && d == old(
                            self,
                        ).window.chunks().len())
                        &&& r == (if final(self).done {
                            SenderOutcome::Finished
                        } else {
                            SenderOutcome::Progress
                        })
                    } else {
                        *final(self) == *old(self) && r == SenderOutcome::Stale
                    }
                },
                Message::Error { code, message } => *final(self) == *old(self) && (r matches
                SenderOutcome::PeerError { code: c, message: msg } && c == code && msg@
                    == message@),
                _ => *final(self) == *old(self) && r matches SenderOutcome::Violation,
            },
    {
        match m {
            Message::Ack { block } => {
                let d = block.wrapping_sub(self.base);
                let wlen = self.window.len();
                if 1 <= d && d <= wlen {
                    let _ = self.window.remove(d);
                    self.base = block;
                    self.retries = 0;
                    if self.window.hit_eof() && self.window.is_empty() {
                        self.done = true;
                        SenderOutcome::Finished
                    } else {
                        SenderOutcome::Progress
                    }
                } else {
                    SenderOutcome::Stale
                }
            },
            Message::Error { code, message } => SenderOutcome::PeerError { code, message },
            _ => SenderOutcome::Violation,
        }
    }

    /// A timeout while awaiting an acknowledgement: resend the whole
    /// current window unless the retry budget is spent.
    pub fn on_timeout(&mut self) -> (r: RetryOutcome)
        requires
            old(self).wf(),
            !old(self).done,
        ensures
            final(self).wf(),
            final(self).window == old(self).window,
            final(self).base == old(self).base,
            final(self).retry_limit == old(self).retry_limit,
            final(self).done == old(self).done,
            final(self).retries == if old(self).retries < old(self).retry_limit {
                old(self).retries + 1
            } else {
                old(self).retries as int
            },
            r == (if old(self).retries + 1 >= old(self).retry_limit {
                RetryOutcome::Exhausted
            } else {
                RetryOutcome::Retry
            }),
    {
        if self.retries < self.retry_limit {
            self.retries = self.retries + 1;
        }
        if self.retries >= self.retry_limit {
            RetryOutcome::Exhausted
        } else {
            RetryOutcome::Retry
        }
    }
}

/// What the download engine decided about one received message.
#[derive(Debug)]
pub enum ReceiverOutcome {
    /// The expected block was buffered; no acknowledgement is due yet.
    Accepted,
    /// The window was flushed: send an acknowledgement for `block`.
    AckWindow {
        /// The highest block received in order.
        block: u16,
    },
    /// The terminal short block was flushed: send an acknowledgement for
    /// `block`; the download succeeded.
    Finished {
        /// The terminal block's number.
        block: u16,
    },
    /// A duplicate or out-of-order block: re-send the acknowledgement for
    /// `block` without buffering anything.
    ResendAck {
        /// The newest acknowledged block.
        block: u16,
    },
    /// A block number beyond the current window: a protocol violation,
    /// fatal.
    Violation,
    /// The peer aborted the transfer.
    PeerError {
        /// The protocol error code.
        code: u16,
        /// The peer's human-readable reason.
        message: Vec<u8>,
    },
}

/// The download engine: accepts data blocks in order into a write
/// window, flushes at window capacity or on the terminal short block, and
/// decides every acknowledgement.
pub struct Receiver {
    /// The window awaiting its flush to the sink.
    pub window: WindowWrite,
    /// The negotiated block size; a shorter payload signals end of file.
    pub block_size: u16,
    /// The block number the engine expects next.
    pub expected: u16,
    /// The newest acknowledged block; 0 before the first flush.
    pub last_acked: u16,
    /// Timeouts since the last accepted block.
    pub retries: u16,
    /// How many timeouts in a row the transfer survives.
    pub retry_limit: u16,
    /// Whether the terminal chunk has been flushed.
    pub done: bool,
}

impl Receiver {
    /// The bytes received in order so far: flushed ones first, then the
    /// window's.
    pub open spec fn stream(self) -> Seq<u8> {
        self.window.sink_bytes() + self.window.chunks().flatten()
    }

    /// The engine's invariant: the window keeps one slot free because a
    /// full window is flushed at once, and the expected block number
    /// always sits right after the buffered ones.
    pub open spec fn wf(self) -> bool {
        &&& self.window.wf()
        &&& self.block_size >= 1
        &&& self.window.capacity() <= 0xffff
        &&& self.window.chunks().len() < self.window.capacity()
        &&& wrap_distance(self.last_acked, self.expected) == self.window.chunks().len() + 1
        &&& (self.done ==> self.window.chunks().len() == 0)
    }

    /// Creates a download engine with an empty window over an empty sink.
    pub fn new(windowsize: u16, block_size: u16, retry_limit: u16) -> (r: Receiver)
        requires
            windowsize >= 1,
            block_size >= 1,
        ensures
            r.wf(),
            r.stream() == Seq::<u8>::empty(),
            r.window.capacity() == windowsize as nat,
            r.block_size == block_size,
            r.expected == 1,
            r.last_acked == 0,
            r.retries == 0,
            r.retry_limit == retry_limit,
            !r.done,
    {
        let r = Receiver {
            window: WindowWrite::new(windowsize),
            block_size,
            expected: 1,
            last_acked: 0,
            retries: 0,
            retry_limit,
            done: false,
        };
        proof {
            assert(r.window.chunks().flatten() =~= Seq::<u8>::empty());
            assert(r.stream() =~= Seq::<u8>::empty());
        }
        r
    }

    /// Feeds one received message to the engine. The expected block is
    /// buffered, and flushed together with its window when it fills the
    /// window or is short (the end-of-file signal); a block behind the
    /// expected one, or ahead of it but still inside the window (a gap
    /// that go-back-N will resend), only re-triggers the newest
    /// acknowledgement without buffering; a block beyond the window is a
    /// protocol violation; an error from the peer is fatal.
    pub fn on_message(&mut self, m: Message) -> (r: ReceiverOutcome)
        requires
            old(self).wf(),
            !old(self).done,
        ensures
            final(self).wf(),
            final(self).block_size == old(self).block_size,
            final(self).retry_limit == old(self).retry_limit,
            final(self).window.capacity() == old(self).window.capacity(),
            match m {
                Message::Data { block, payload } => {
                    let fwd = wrap_distance(old(self).expected, block);
                    if fwd == 0 && payload@.len() <= old(self).block_size {
                        let short = payload@.len() < old(self).block_size;
                        let fills = old(self).window.chunks().len() + 1
                            == old(self).window.capacity();
                        &&& final(self).stream() == old(self).stream() + payload@
                        &&& final(self).expected == block_after(block, 1)
                        &&& final(self).retries == 0
                        &&& final(self).done == short
                        &&& if short || fills {
                            &&& final(self).window.chunks().len() == 0
                            &&& final(self).last_acked == block
                            &&& r == (if short {
                                ReceiverOutcome::Finished { block }
                            } else {
                                ReceiverOutcome::AckWindow { block }
                            })
                        } else {
                            &&& final(self).window.chunks() == old(self).window.chunks().push(
                                payload@,
                            )
                            &&& final(self).window.sink_bytes() == old(self).window.sink_bytes()
                            &&& final(self).last_acked == old(self).last_acked
                            &&& r == ReceiverOutcome::Accepted
                        }
                    } else if fwd != 0 && (fwd >= 0x8000 || fwd < old(self).window.capacity()) {
                        *final(self) == *old(self) && r == ReceiverOutcome::ResendAck {
                            block: old(self).last_acked,
                        }
                    } else {
                        *final(self) == *old(self) && r == ReceiverOutcome::Violation
                    }
                },
                Message::Error { code, message } => *final(self) == *old(self) && (r matches
                ReceiverOutcome::PeerError { code: c, message: msg } && c == code && msg@
                    == message@),
                _ => *final(self) == *old(self) && r matches ReceiverOutcome::Violation,
            },
    {
        match m {
            Message::Data { block, payload } => {
                let fwd = block.wrapping_sub(self.expected);
                if fwd == 0 && payload.len() <= self.block_size as usize {
                    let ghost pre = *self;
                    let ghost pay = payload@;
                    let short = payload.len() < self.block_size as usize;
                    let _ = self.window.add(payload);
                    proof {
                        Seq::lemma_flatten_push(pre.window.chunks(), pay);
                    }
                    self.expected = self.expected.wrapping_add(1);
                    self.retries = 0;
                    let fills = self.window.is_full();
                    if short || fills {
                        self.window.empty();
                        self.last_acked = block;
                        if short {
                            self.done = true;
                            ReceiverOutcome::Finished { block }
                        } else {
                            ReceiverOutcome::AckWindow { block }
                        }
                    } else {
                        ReceiverOutcome::Accepted
                    }
                } else if fwd != 0 && (fwd >= 0x8000 || fwd < self.window.get_capacity()) {
                    ReceiverOutcome::ResendAck { block: self.last_acked }
                } else {
                    ReceiverOutcome::Violation
                }
            },
            Message::Error { code, message } => ReceiverOutcome::PeerError { code, message },
            _ => ReceiverOutcome::Violation,
        }
    }

    /// A timeout while awaiting data: re-send the newest acknowledgement
    /// unless the retry budget is spent.
    pub fn on_timeout(&mut self) -> (r: RetryOutcome)
        requires
            old(self).wf(),
            !old(self).done,
        ensures
            final(self).wf(),
            final(self).window == old(self).window,
            final(self).expected == old(self).expected,
            final(self).last_acked == old(self).last_acked,
            final(self).retry_limit == old(self).retry_limit,
            final(self).done == old(self).done,
            final(self).block_size == old(self).block_size,
            final(self).retries == if old(self).retries < old(self).retry_limit {
                old(self).retries + 1
            } else {
                old(self).retries as int
            },
            r == (if old(self).retries + 1 >= old(self).retry_limit {
                RetryOutcome::Exhausted
            } else {
                RetryOutcome::Retry
            }),
    {
        if self.retries < self.retry_limit {
            self.retries = self.retries + 1;
        }
        if self.retries >= self.retry_limit {
            RetryOutcome::Exhausted
        } else {
            RetryOutcome::Retry
        }
    }
}

/// The round-trip and timeout-retry laws at the engine level: an upload
/// engine played against a download engine over an in-order channel that
/// loses the receiver's first `drops` responses. When the losses stay
/// below the retry budget the transfer still succeeds and reproduces the
/// source bytes exactly, for every windowsize, block size and source
/// length; from `retry_limit` losses on it fails by timeout exhaustion —
/// and, being a terminating function, it never silently hangs.
pub fn simulate_transfer(
    source: Vec<u8>,
    block_size: u16,
    window_size: u16,
    retry_limit: u16,
    drops: u16,
) -> (r: Option<Vec<u8>>)
    requires
        block_size >= 1,
        1 <= window_size <= 0x7fff,
        retry_limit >= 1,
    ensures
        drops < retry_limit ==> (r matches Some(v) && v@ == source@),
        drops >= retry_limit ==> r is None,
{
    let ghost src = source@;
    let mut sender = Sender::new(WindowRead::new(window_size, block_size, source), retry_limit);
    let mut receiver = Receiver::new(window_size, block_size, retry_limit);
    let mut pending: u16 = drops;
    proof {
        assert(sender.window.chunks().flatten() =~= Seq::<u8>::empty());
        assert(receiver.stream() =~= src.subrange(0, 0));
    }
    while !sender.done
        invariant
            sender.wf(),
            receiver.wf(),
            retry_limit >= 1,
            window_size <= 0x7fff,
            sender.retries == 0,
            sender.retry_limit == retry_limit,
            pending <= drops,
            drops >= retry_limit ==> pending == drops,
            sender.done ==> pending == 0,
            sender.window.src() == src,
            sender.window.block_size() == block_size as nat,
            receiver.block_size == block_size,
            sender.window.capacity() == window_size as nat,
            receiver.window.capacity() == window_size as nat,
            sender.window.chunks().len() == 0,
            sender.window.held() == 0,
            !sender.done ==> !sender.window.at_eof(),
            receiver.done == sender.done,
            receiver.expected == block_after(sender.base, 1),
            receiver.last_acked == sender.base,
            receiver.window.chunks().len() == 0,
            receiver.stream() == src.subrange(0, sender.window.consumed() as int),
            sender.done ==> sender.window.consumed() == src.len(),
        decreases src.len() - sender.window.consumed() + (if sender.window.at_eof() {
            0int
        } else {
            1int
        }),
    {
        let ghost consumed0 = sender.window.consumed();
        sender.window.fill();
        proof {
            sender.window.lemma_wf_facts();
            assert((window_size as int) * (block_size as int) >= 1) by (nonlinear_arith)
                requires
                    window_size >= 1,
                    block_size >= 1,
            ;
        }
        let mut msgs = sender.window_data();
        let k = msgs.len();
        let ghost all = msgs@;
        let ghost cs = sender.window.chunks();
        let ghost base = sender.base;
        let ghost sink0 = receiver.window.sink_bytes();
        proof {
            assert(cs.len() >= 1);
            assert(receiver.window.chunks().flatten() =~= Seq::<u8>::empty());
            assert(sink0 == src.subrange(0, consumed0 as int));
            assert(sender.window.consumed() - sender.window.held() == consumed0);
        }
        let mut i: usize = 0;
        while msgs.len() > 1
            invariant
                i + msgs@.len() == k,
                all.len() == k,
                1 <= k == cs.len() <= window_size,
                i < k,
                msgs@ == all.skip(i as int),
                forall|j: int|
                    0 <= j < k ==> ((#[trigger] all[j]) matches Message::Data { block, payload }
                        && block == block_after(base, j + 1) && payload@ == cs[j]),
                chunk_shape(cs, block_size as nat),
                receiver.wf(),
                !receiver.done,
                receiver.block_size == block_size,
                receiver.window.capacity() == window_size as nat,
                receiver.expected == block_after(base, i + 1),
                receiver.last_acked == base,
                receiver.window.chunks() == cs.take(i as int),
                receiver.window.sink_bytes() == sink0,
            decreases msgs@.len(),
        {
            let m = msgs.remove(0);
            proof {
                assert(all.skip(i as int)[0] == all[i as int]);
                assert(m == all[i as int]);
                assert(msgs@ == all.skip(i as int).remove(0));
                assert(msgs@ =~= all.skip(i + 1));
            }
            let _ = receiver.on_message(m);
            i = i + 1;
            proof {
                assert(receiver.window.chunks() =~= cs.take(i as int));
            }
        }
        proof {
            assert(i == k - 1);
            if !sender.window.at_eof() {
                // Without a terminal short chunk the fill went to full
                // capacity: the window holds exactly `window_size` full
                // chunks.
                assert(sender.window.held() == (window_size as int) * (block_size as int));
                cs.lemma_flatten_length_le_mul(block_size as int);
                cs.lemma_flatten_and_flatten_alt_are_equivalent();
                assert((window_size as int) * (block_size as int) <= cs.len() * (
                block_size as int));
                assert(window_size <= cs.len()) by (nonlinear_arith)
                    requires
                        (window_size as int) * (block_size as int) <= cs.len() * (
                        block_size as int),
                        block_size >= 1,
                ;
            }
        }
        let last_m = msgs.remove(0);
        proof {
            assert(all.skip(i as int)[0] == all[i as int]);
            assert(last_m == all[i as int]);
            assert(cs.take(i as int).push(cs[i as int]) =~= cs);
            Seq::lemma_flatten_push(cs.take(i as int), cs[i as int]);
        }
        let outcome = receiver.on_message(last_m);
        let ack_block: u16 = match &outcome {
            ReceiverOutcome::AckWindow { block } => *block,
            ReceiverOutcome::Finished { block } => *block,
            _ => {
                proof {
                    assert(false);
                }
                0
            },
        };
        proof {
            crate::window::lemma_concat_parts(
                cs.take(i as int).flatten(),
                cs[i as int],
                src,
                consumed0 as int,
            );
            assert(receiver.stream() =~= src.subrange(0, sender.window.consumed() as int));
            assert(wrap_distance(base, ack_block) == k);
            assert(receiver.expected == block_after(base, k + 1));
        }
        // The receiver's response may be lost on the way back: each loss
        // costs the sender a timeout and a full go-back-N resend, which
        // the receiver answers with the same re-sent acknowledgement.
        let ghost win_snap = sender.window;
        let ghost recv_snap = receiver;
        let mut d: u16 = 0;
        while d < pending
            invariant
                d <= pending,
                pending <= drops,
                retry_limit >= 1,
                d < retry_limit,
                sender.wf(),
                !sender.done,
                sender.retries == d,
                sender.retry_limit == retry_limit,
                sender.base == base,
                sender.window == win_snap,
                cs == win_snap.chunks(),
                1 <= k == cs.len() <= window_size,
                window_size <= 0x7fff,
                receiver == recv_snap,
                receiver.wf(),
                receiver.expected == block_after(base, k + 1),
                receiver.block_size == block_size,
                receiver.window.capacity() == window_size as nat,
            decreases pending - d,
        {
            match sender.on_timeout() {
                RetryOutcome::Exhausted => {
                    return None;
                },
                RetryOutcome::Retry => {},
            }
            d = d + 1;
            if !receiver.done {
                let mut replay = sender.window_data();
                let ghost all2 = replay@;
                let mut jj: usize = 0;
                while replay.len() > 0
                    invariant
                        jj + replay@.len() == k,
                        all2.len() == k,
                        jj <= k,
                        1 <= k == cs.len() <= window_size,
                        window_size <= 0x7fff,
                        replay@ == all2.skip(jj as int),
                        forall|j2: int|
                            0 <= j2 < k ==> ((#[trigger] all2[j2]) matches Message::Data {
                                block,
                                payload,
                            } && block == block_after(base, j2 + 1) && payload@ == cs[j2]),
                        receiver == recv_snap,
                        receiver.wf(),
                        !receiver.done,
                        receiver.expected == block_after(base, k + 1),
                        receiver.block_size == block_size,
                        receiver.window.capacity() == window_size as nat,
                    decreases replay@.len(),
                {
                    let mm = replay.remove(0);
                    proof {
                        assert(all2.skip(jj as int)[0] == all2[jj as int]);
                        assert(mm == all2[jj as int]);
                        assert(replay@ == all2.skip(jj as int).remove(0));
                        assert(replay@ =~= all2.skip(jj + 1));
                        assert(wrap_distance(receiver.expected, block_after(base, jj + 1))
                            == 0x10000 - (k - jj));
                    }
                    let _ = receiver.on_message(mm);
                    jj = jj + 1;
                }
            }
        }
        pending = 0;
        let _ = sender.on_message(Message::Ack { block: ack_block });
        proof {
            assert(sender.window.chunks() =~= Seq::<Seq<u8>>::empty());
            assert(sender.window.chunks().flatten() =~= Seq::<u8>::empty());
        }
    }
    proof {
        assert(receiver.window.chunks().flatten() =~= Seq::<u8>::empty());
        assert(receiver.window.sink_bytes() =~= src);
    }
    Some(vstd::slice::slice_to_vec(receiver.window.get_sink().as_slice()))
}

} // verus!
