//! Bounded window buffers for the RFC 7440 windowsize extension.
//!
//! `WindowRead` slices a byte source into at most `windowsize` chunks of
//! `block_size` bytes each and slides forward as chunks are acknowledged;
//! `WindowWrite` collects up to `windowsize` received chunks and flushes
//! them to a byte sink in insertion order.

use std::collections::VecDeque;
use vstd::prelude::*;

verus! {

/// Errors reported by the window buffers.
#[derive(Clone, Copy, Debug, PartialEq, Eq, Structural)]
pub enum WindowError {
    /// More chunks were asked to be removed than the window holds.
    OutOfRange,
    /// The window already holds `windowsize` chunks.
    Full,
}

/// Every chunk but possibly the last has exactly `bs` bytes, and the last
/// has at most `bs` bytes.
pub open spec fn chunk_shape(cs: Seq<Seq<u8>>, bs: nat) -> bool {
    forall|i: int|
        0 <= i < cs.len() ==> #[trigger] cs[i].len() <= bs && (i < cs.len() - 1 ==> cs[i].len()
            == bs)
}

/// The chunks a fill produces from `src` starting at `pos`, with room for
/// `room` more chunks of `bs` bytes each: full chunks until the window is
/// full, or one final short chunk the moment the source runs out.
pub open spec fn fill_chunks(src: Seq<u8>, pos: nat, bs: nat, room: nat) -> Seq<Seq<u8>>
    recommends
        pos <= src.len(),
        bs >= 1,
    decreases room,
{
    if room == 0 {
        Seq::empty()
    } else if src.len() - pos >= bs {
        seq![src.subrange(pos as int, (pos + bs) as int)] + fill_chunks(src, (pos + bs) as nat, bs, (room
            - 1) as nat)
    } else {
        seq![src.subrange(pos as int, src.len() as int)]
    }
}

/// When a concatenation of two byte runs equals a slice of `s`, each run
/// equals its own slice of `s`.
pub(crate) proof fn lemma_concat_parts(a: Seq<u8>, b: Seq<u8>, s: Seq<u8>, x: int)
    requires
        0 <= x,
        x + a.len() + b.len() <= s.len(),
        a + b == s.subrange(x, x + a.len() + b.len()),
    ensures
        a == s.subrange(x, x + a.len()),
        b == s.subrange(x + a.len(), x + a.len() + b.len()),
{
    assert forall|i: int| 0 <= i < a.len() implies a[i] == s.subrange(x, x + a.len())[i] by {
        assert((a + b)[i] == a[i]);
    }
    assert(a =~= s.subrange(x, x + a.len()));
    assert forall|i: int| 0 <= i < b.len() implies b[i] == s.subrange(
        x + a.len(),
        x + a.len() + b.len(),
    )[i] by {
        assert((a + b)[a.len() + i] == b[i]);
    }
    assert(b =~= s.subrange(x + a.len(), x + a.len() + b.len()));
}

/// A bounded pipeline of outgoing chunks cut from a byte source, used on
/// the upload path.
pub struct WindowRead {
    elements: VecDeque<Vec<u8>>,
    size: u16,
    chunk_size: u16,
    source: Vec<u8>,
    pos: usize,
    eof: bool,
}

impl WindowRead {
    /// The chunks currently buffered, oldest first.
    pub closed spec fn chunks(&self) -> Seq<Seq<u8>> {
        Seq::new(self.elements@.len(), |i: int| self.elements@[i]@)
    }

    /// The windowsize: the most chunks the buffer ever holds.
    pub closed spec fn capacity(&self) -> nat {
        self.size as nat
    }

    /// The negotiated block size: the length of every non-terminal chunk.
    pub closed spec fn block_size(&self) -> nat {
        self.chunk_size as nat
    }

    /// The bytes of the backing source.
    pub closed spec fn src(&self) -> Seq<u8> {
        self.source@
    }

    /// How many source bytes have been cut into chunks so far.
    pub closed spec fn consumed(&self) -> nat {
        self.pos as nat
    }

    /// Whether the terminal short chunk has been produced.
    pub closed spec fn at_eof(&self) -> bool {
        self.eof
    }

    /// The number of source bytes currently held in the buffer.
    pub open spec fn held(&self) -> nat {
        self.chunks().flatten().len()
    }

    /// The buffer's invariant: bounded by the windowsize, correctly shaped
    /// chunks, and contents equal to the most recently consumed source
    /// bytes.
    pub closed spec fn wf(&self) -> bool {
        &&& self.size >= 1
        &&& self.chunk_size >= 1
        &&& self.pos <= self.source@.len()
        &&& self.chunks().len() <= self.size
        &&& (self.eof ==> self.pos == self.source@.len())
        &&& chunk_shape(self.chunks(), self.chunk_size as nat)
        &&& (!self.eof ==> forall|i: int|
            0 <= i < self.chunks().len() ==> (#[trigger] self.chunks()[i]).len()
                == self.chunk_size)
        &&& (self.eof && self.chunks().len() > 0 ==> self.chunks().last().len()
            < self.chunk_size)
        &&& self.held() <= self.pos
        &&& self.chunks().flatten() == self.source@.subrange(
            self.pos - self.held(),
            self.pos as int,
        )
    }

    /// The invariant's consequences, for callers outside this module: the
    /// windowsize bound, the shape of the chunks, and the buffered bytes'
    /// place in the source.
    pub proof fn lemma_wf_facts(&self)
        requires
            self.wf(),
        ensures
            self.capacity() >= 1,
            self.block_size() >= 1,
            self.chunks().len() <= self.capacity(),
            chunk_shape(self.chunks(), self.block_size()),
            !self.at_eof() ==> forall|i: int|
                0 <= i < self.chunks().len() ==> (#[trigger] self.chunks()[i]).len()
                    == self.block_size(),
            self.at_eof() && self.chunks().len() > 0 ==> self.chunks().last().len()
                < self.block_size(),
            self.held() <= self.consumed() <= self.src().len(),
            self.chunks().flatten() == self.src().subrange(
                self.consumed() - self.held(),
                self.consumed() as int,
            ),
            self.at_eof() ==> self.consumed() == self.src().len(),
    {
    }

    /// Creates an empty window over `source`, holding up to `size` chunks
    /// of `chunk_size` bytes.
    pub fn new(size: u16, chunk_size: u16, source: Vec<u8>) -> (w: WindowRead)
        requires
            size >= 1,
            chunk_size >= 1,
        ensures
            w.wf(),
            w.chunks() == Seq::<Seq<u8>>::empty(),
            w.capacity() == size as nat,
            w.block_size() == chunk_size as nat,
            w.src() == source@,
            w.consumed() == 0,
            !w.at_eof(),
    {
        let w = WindowRead {
            elements: VecDeque::new(),
            size,
            chunk_size,
            source,
            pos: 0,
            eof: false,
        };
        proof {
            assert(w.chunks() =~= Seq::<Seq<u8>>::empty());
            assert(w.chunks().flatten() =~= w.source@.subrange(0, 0));
        }
        w
    }

    /// Tops the buffer up to `windowsize` chunks from the source, stopping
    /// early the moment a short (end-of-source) chunk is produced. Returns
    /// `true` exactly when the buffer stands at full capacity with the
    /// source not yet exhausted.
    pub fn fill(&mut self) -> (full: bool)
        requires
            old(self).wf(),
        ensures
            final(self).wf(),
            final(self).capacity() == old(self).capacity(),
            final(self).block_size() == old(self).block_size(),
            final(self).src() == old(self).src(),
            final(self).consumed() - final(self).held() == old(self).consumed()
                - old(self).held(),
            old(self).at_eof() ==> *final(self) == *old(self) && !full,
            !old(self).at_eof() ==> {
                let room = old(self).capacity() - old(self).chunks().len();
                let goal = old(self).consumed() + room * old(self).block_size();
                &&& final(self).chunks() == old(self).chunks() + fill_chunks(
                    old(self).src(),
                    old(self).consumed(),
                    old(self).block_size(),
                    room as nat,
                )
                &&& final(self).consumed() == if old(self).src().len() >= goal {
                    goal
                } else {
                    old(self).src().len() as int
                }
                &&& (final(self).at_eof() <==> old(self).src().len() < goal)
                &&& full == (final(self).chunks().len() == final(self).capacity()
                    && !final(self).at_eof())
            },
    {
        if self.eof {
            return false;
        }
        let ghost orig = *self;
        let ghost bs = self.chunk_size as nat;
        let ghost room0 = (self.size - self.elements.len()) as nat;
        while self.elements.len() < self.size as usize
            invariant
                orig == *old(self),
                self.wf(),
                !self.eof,
                self.size == orig.size,
                self.chunk_size == orig.chunk_size,
                self.source@ == orig.source@,
                orig.wf(),
                !orig.eof,
                bs == orig.chunk_size as nat,
                room0 == orig.capacity() - orig.chunks().len(),
                self.pos - self.held() == orig.pos - orig.held(),
                orig.pos + room0 * bs == self.pos + (self.size - self.chunks().len()) * bs,
                orig.chunks() + fill_chunks(orig.source@, orig.pos as nat, bs, room0)
                    == self.chunks() + fill_chunks(
                    self.source@,
                    self.pos as nat,
                    bs,
                    (self.size - self.chunks().len()) as nat,
                ),
            decreases self.size - self.elements.len(),
        {
            let ghost pre = *self;
            let ghost room_pre = (self.size - self.chunks().len()) as nat;
            let remaining = self.source.len() - self.pos;
            if remaining >= self.chunk_size as usize {
                let end = self.pos + self.chunk_size as usize;
                let chunk = vstd::slice::slice_to_vec(
                    vstd::slice::slice_subrange(self.source.as_slice(), self.pos, end),
                );
                self.elements.push_back(chunk);
                self.pos = end;
                proof {
                    assert(self.chunks() =~= pre.chunks().push(chunk@));
                    Seq::lemma_flatten_push(pre.chunks(), chunk@);
                    assert(self.chunks().flatten() == pre.chunks().flatten() + chunk@);
                    let x = pre.pos - pre.held();
                    assert(self.source@.subrange(x, self.pos as int) =~= self.source@.subrange(
                        x,
                        pre.pos as int,
                    ) + self.source@.subrange(pre.pos as int, self.pos as int));
                    assert(self.held() == pre.held() + chunk@.len());
                    assert(self.chunks().flatten() == self.source@.subrange(
                        self.pos - self.held(),
                        self.pos as int,
                    ));
                    assert(room_pre * bs == (room_pre - 1) * bs + bs) by (nonlinear_arith);
                    assert(fill_chunks(pre.source@, pre.pos as nat, bs, room_pre) =~= seq![chunk@]
                        + fill_chunks(self.source@, self.pos as nat, bs, (room_pre - 1) as nat));
                    assert(pre.chunks() + fill_chunks(pre.source@, pre.pos as nat, bs, room_pre)
                        =~= self.chunks() + fill_chunks(
                        self.source@,
                        self.pos as nat,
                        bs,
                        (self.size - self.chunks().len()) as nat,
                    ));
                }
            } else {
                let len = self.source.len();
                let chunk = vstd::slice::slice_to_vec(
                    vstd::slice::slice_subrange(self.source.as_slice(), self.pos, len),
                );
                self.elements.push_back(chunk);
                self.pos = len;
                self.eof = true;
                proof {
                    assert(self.chunks() =~= pre.chunks().push(chunk@));
                    Seq::lemma_flatten_push(pre.chunks(), chunk@);
                    assert(self.chunks().flatten() == pre.chunks().flatten() + chunk@);
                    let x = pre.pos - pre.held();
                    assert(self.source@.subrange(x, self.pos as int) =~= self.source@.subrange(
                        x,
                        pre.pos as int,
                    ) + self.source@.subrange(pre.pos as int, self.pos as int));
                    assert(self.held() == pre.held() + chunk@.len());
                    assert(self.chunks().flatten() == self.source@.subrange(
                        self.pos - self.held(),
                        self.pos as int,
                    ));
                    assert(fill_chunks(pre.source@, pre.pos as nat, bs, room_pre) =~= seq![chunk@]);
                    assert(self.chunks() =~= orig.chunks() + fill_chunks(
                        orig.source@,
                        orig.pos as nat,
                        bs,
                        room0,
                    ));
                    assert(room_pre * bs >= 1 * bs) by (nonlinear_arith)
                        requires
                            room_pre >= 1,
                            bs >= 0,
                    ;
                    assert(orig.source@.len() - orig.pos < room0 * bs);
                }
                return false;
            }
        }
        proof {
            assert(fill_chunks(self.source@, self.pos as nat, bs, 0) =~= Seq::<Seq<u8>>::empty());
            assert(self.chunks() =~= orig.chunks() + fill_chunks(
                orig.source@,
                orig.pos as nat,
                bs,
                room0,
            ));
            assert(self.chunks().len() == self.size);
            assert((self.size - self.chunks().len()) * bs == 0) by (nonlinear_arith)
                requires
                    self.chunks().len() == self.size,
            ;
            assert(self.pos == orig.pos + room0 * bs);
        }
        true
    }

    /// Warms whatever backs the source ahead of the next fill; purely a
    /// performance hint with no observable effect.
    pub fn prefill(&mut self)
        ensures
            *final(self) == *old(self),
    {
    }

    /// Removes the first `amount` chunks, which the peer has acknowledged,
    /// so the window slides forward.
    pub fn remove(&mut self, amount: u16) -> (r: Result<(), WindowError>)
        requires
            old(self).wf(),
        ensures
            final(self).wf(),
            final(self).capacity() == old(self).capacity(),
            final(self).block_size() == old(self).block_size(),
            final(self).src() == old(self).src(),
            final(self).consumed() == old(self).consumed(),
            final(self).at_eof() == old(self).at_eof(),
            amount > old(self).chunks().len() ==> r == Err::<(), WindowError>(
                WindowError::OutOfRange,
            ) && *final(self) == *old(self),
            amount <= old(self).chunks().len() ==> r == Ok::<(), WindowError>(())
                && final(self).chunks() == old(self).chunks().skip(amount as int),
    {
        if amount > self.len() {
            return Err(WindowError::OutOfRange);
        }
        let ghost orig = *self;
        let mut removed: u16 = 0;
        while removed < amount
            invariant
                orig.wf(),
                removed <= amount,
                amount <= orig.chunks().len(),
                self.size == orig.size,
                self.chunk_size == orig.chunk_size,
                self.source@ == orig.source@,
                self.pos == orig.pos,
                self.eof == orig.eof,
                self.chunks() == orig.chunks().skip(removed as int),
                self.wf(),
            decreases amount - removed,
        {
            let ghost pre = *self;
            self.elements.pop_front();
            removed = removed + 1;
            proof {
                assert(self.chunks() =~= pre.chunks().skip(1));
                assert(self.chunks() =~= orig.chunks().skip(removed as int));
                assert(pre.chunks().drop_first() =~= self.chunks());
                assert(pre.chunks().flatten() == pre.chunks()[0] + self.chunks().flatten());
                lemma_concat_parts(
                    pre.chunks()[0],
                    self.chunks().flatten(),
                    self.source@,
                    pre.pos - pre.held(),
                );
                assert(self.chunks().flatten() == self.source@.subrange(
                    self.pos - self.held(),
                    self.pos as int,
                ));
            }
        }
        Ok(())
    }

    /// A view of the buffered chunks, oldest first.
    pub fn get_elements(&self) -> (r: &VecDeque<Vec<u8>>)
        ensures
            r@.len() == self.chunks().len(),
            forall|i: int| 0 <= i < r@.len() ==> (#[trigger] r@[i])@ == self.chunks()[i],
    {
        &self.elements
    }

    /// The number of chunks currently buffered.
    pub fn len(&self) -> (r: u16)
        requires
            self.wf(),
        ensures
            r == self.chunks().len(),
    {
        self.elements.len() as u16
    }

    /// Whether the buffer holds no chunks.
    pub fn is_empty(&self) -> (r: bool)
        requires
            self.wf(),
        ensures
            r == (self.chunks().len() == 0),
    {
        self.elements.len() == 0
    }

    /// Whether the terminal short chunk has already been produced.
    pub fn hit_eof(&self) -> (r: bool)
        ensures
            r == self.at_eof(),
    {
        self.eof
    }
}

/// A bounded pipeline of incoming chunks awaiting one atomic flush to a
/// byte sink, used on the download path.
pub struct WindowWrite {
    elements: VecDeque<Vec<u8>>,
    size: u16,
    sink: Vec<u8>,
}

impl WindowWrite {
    /// The chunks currently buffered, in insertion order.
    pub closed spec fn chunks(&self) -> Seq<Seq<u8>> {
        Seq::new(self.elements@.len(), |i: int| self.elements@[i]@)
    }

    /// The windowsize: the most chunks the buffer ever holds.
    pub closed spec fn capacity(&self) -> nat {
        self.size as nat
    }

    /// The bytes flushed to the sink so far.
    pub closed spec fn sink_bytes(&self) -> Seq<u8> {
        self.sink@
    }

    /// The buffer's invariant: never more than `windowsize` chunks held.
    pub closed spec fn wf(&self) -> bool {
        &&& self.size >= 1
        &&& self.chunks().len() <= self.size
    }

    /// Creates an empty window holding up to `size` chunks over an empty
    /// sink.
    pub fn new(size: u16) -> (w: WindowWrite)
        requires
            size >= 1,
        ensures
            w.wf(),
            w.chunks() == Seq::<Seq<u8>>::empty(),
            w.capacity() == size as nat,
            w.sink_bytes() == Seq::<u8>::empty(),
    {
        let w = WindowWrite { elements: VecDeque::new(), size, sink: Vec::new() };
        proof {
            assert(w.chunks() =~= Seq::<Seq<u8>>::empty());
        }
        w
    }

    /// Appends one received chunk, unless the window already stands at
    /// capacity: then the caller must flush first.
    pub fn add(&mut self, data: Vec<u8>) -> (r: Result<(), WindowError>)
        requires
            old(self).wf(),
        ensures
            final(self).wf(),
            final(self).capacity() == old(self).capacity(),
            final(self).sink_bytes() == old(self).sink_bytes(),
            old(self).chunks().len() == old(self).capacity() ==> r == Err::<(), WindowError>(
                WindowError::Full,
            ) && *final(self) == *old(self),
            old(self).chunks().len() < old(self).capacity() ==> r == Ok::<(), WindowError>(())
                && final(self).chunks() == old(self).chunks().push(data@),
    {
        if self.len() == self.size {
            return Err(WindowError::Full);
        }
        let ghost pre = *self;
        self.elements.push_back(data);
        proof {
            assert(self.chunks() =~= pre.chunks().push(data@));
        }
        Ok(())
    }

    /// Flushes: writes every held chunk to the sink in insertion order,
    /// then clears the window.
    pub fn empty(&mut self)
        requires
            old(self).wf(),
        ensures
            final(self).wf(),
            final(self).capacity() == old(self).capacity(),
            final(self).sink_bytes() == old(self).sink_bytes() + old(self).chunks().flatten(),
            final(self).chunks() == Seq::<Seq<u8>>::empty(),
    {
        let ghost orig = *self;
        let mut flushed: usize = 0;
        let n = self.elements.len();
        while flushed < n
            invariant
                orig.wf(),
                flushed <= n,
                n == orig.chunks().len(),
                self.size == orig.size,
                self.elements@ == orig.elements@,
                self.chunks() == orig.chunks(),
                self.sink@ == orig.sink@ + orig.chunks().take(flushed as int).flatten(),
            decreases n - flushed,
        {
            let ghost pre_sink = self.sink@;
            let chunk = &self.elements[flushed];
            self.sink.extend_from_slice(chunk.as_slice());
            flushed = flushed + 1;
            proof {
                assert(orig.chunks().take(flushed as int) =~= orig.chunks().take(
                    flushed - 1,
                ).push(orig.chunks()[flushed - 1]));
                Seq::lemma_flatten_push(
                    orig.chunks().take(flushed - 1),
                    orig.chunks()[flushed - 1],
                );
                assert(self.sink@ =~= orig.sink@ + orig.chunks().take(flushed as int).flatten());
            }
        }
        self.elements.clear();
        proof {
            assert(orig.chunks().take(n as int) =~= orig.chunks());
            assert(self.chunks() =~= Seq::<Seq<u8>>::empty());
        }
    }

    /// The number of chunks currently buffered.
    pub fn len(&self) -> (r: u16)
        requires
            self.wf(),
        ensures
            r == self.chunks().len(),
    {
        self.elements.len() as u16
    }

    /// Whether the window holds no chunks.
    pub fn is_empty(&self) -> (r: bool)
        requires
            self.wf(),
        ensures
            r == (self.chunks().len() == 0),
    {
        self.elements.len() == 0
    }

    /// Whether the window stands at `windowsize` chunks.
    pub fn is_full(&self) -> (r: bool)
        requires
            self.wf(),
        ensures
            r == (self.chunks().len() == self.capacity()),
    {
        self.elements.len() == self.size as usize
    }

    /// A view of the buffered chunks, in insertion order.
    pub fn get_elements(&self) -> (r: &VecDeque<Vec<u8>>)
        ensures
            r@.len() == self.chunks().len(),
            forall|i: int| 0 <= i < r@.len() ==> (#[trigger] r@[i])@ == self.chunks()[i],
    {
        &self.elements
    }

    /// The windowsize this buffer was created with.
    pub fn get_capacity(&self) -> (r: u16)
        ensures
            r == self.capacity(),
    {
        self.size
    }

    /// The current size of the sink, for diagnostics and tests.
    pub fn file_len(&self) -> (r: u64)
        ensures
            r == self.sink_bytes().len(),
    {
        self.sink.len() as u64
    }

    /// A view of the bytes flushed to the sink so far.
    pub fn get_sink(&self) -> (r: &Vec<u8>)
        ensures
            r@ == self.sink_bytes(),
    {
        &self.sink
    }
}

/// The content round-trip law: for every windowsize, block size and
/// source length, cutting a source into chunks on the upload side and
/// flushing the same chunks in order on the download side reproduces the
/// source bytes exactly.
pub fn transfer_round_trip(source: Vec<u8>, block_size: u16, window_size: u16) -> (r: Vec<u8>)
    requires
        block_size >= 1,
        window_size >= 1,
    ensures
        r@ == source@,
{
    let ghost src = source@;
    let mut rd = WindowRead::new(window_size, block_size, source);
    let mut wr = WindowWrite::new(window_size);
    while !rd.hit_eof()
        invariant
            rd.wf(),
            wr.wf(),
            rd.src() == src,
            rd.block_size() == block_size as nat,
            rd.capacity() == window_size as nat,
            wr.capacity() == window_size as nat,
            rd.chunks().len() == 0,
            wr.sink_bytes() + wr.chunks().flatten() == src.subrange(0, rd.consumed() as int),
        decreases src.len() - rd.consumed() + (if rd.at_eof() {
            0int
        } else {
            1int
        }),
    {
        let ghost pre_fill = rd;
        rd.fill();
        let ghost filled = rd;
        proof {
            assert(pre_fill.chunks().flatten() =~= Seq::<u8>::empty());
            assert(wr.sink_bytes() + wr.chunks().flatten() + rd.chunks().flatten()
                =~= src.subrange(0, rd.consumed() as int));
            if !rd.at_eof() {
                assert((window_size as int) * (block_size as int) >= 1) by (nonlinear_arith)
                    requires
                        window_size >= 1,
                        block_size >= 1,
                ;
            }
        }
        while rd.len() > 0
            invariant
                rd.wf(),
                wr.wf(),
                rd.src() == src,
                rd.block_size() == block_size as nat,
                rd.capacity() == window_size as nat,
                wr.capacity() == window_size as nat,
                rd.consumed() == filled.consumed(),
                rd.at_eof() == filled.at_eof(),
                wr.sink_bytes() + wr.chunks().flatten() + rd.chunks().flatten() == src.subrange(
                    0,
                    rd.consumed() as int,
                ),
            decreases rd.chunks().len(),
        {
            let chunk = vstd::slice::slice_to_vec(rd.get_elements()[0].as_slice());
            if wr.is_full() {
                wr.empty();
            }
            let ghost pre_wr = wr;
            let ghost pre_rd = rd;
            let _ = wr.add(chunk);
            let _ = rd.remove(1);
            proof {
                assert(wr.chunks() == pre_wr.chunks().push(pre_rd.chunks()[0]));
                Seq::lemma_flatten_push(pre_wr.chunks(), pre_rd.chunks()[0]);
                assert(pre_rd.chunks().drop_first() =~= rd.chunks());
                assert(pre_rd.chunks().flatten() == pre_rd.chunks()[0] + rd.chunks().flatten());
                assert(wr.sink_bytes() + wr.chunks().flatten() + rd.chunks().flatten()
                    =~= src.subrange(0, rd.consumed() as int));
            }
        }
        proof {
            assert(rd.chunks().flatten() =~= Seq::<u8>::empty());
            assert(wr.sink_bytes() + wr.chunks().flatten() =~= src.subrange(
                0,
                rd.consumed() as int,
            ));
        }
    }
    wr.empty();
    proof {
        assert(src.subrange(0, src.len() as int) =~= src);
    }
    vstd::slice::slice_to_vec(wr.get_sink().as_slice())
}

} // verus!
