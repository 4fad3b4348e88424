//! Batching of an H.264 Annex-B byte stream into packets of whole NAL units.
//!
//! Bytes are collected until a start code `00 00 00 01` has been seen a
//! fixed number of times; everything before the last start code then goes
//! out as one packet and the start code opens the next batch.  A batch that
//! grows past a size limit at the end of a chunk goes out as it is.
use vstd::prelude::*;
use crate::payload::bytes_view;
use vstd::seq_lib::lemma_flatten_concat;

verus! {

/// How many start codes close a packet.
pub const NAL_UNITS_PER_PACKET: usize = 3;

/// A batch longer than this at the end of a chunk is sent as it is.
pub const MAX_PENDING: usize = 524288;

/// The most bytes one read of the stream hands over.
pub const READ_CHUNK_MAX: usize = 65536;

/// What a batcher holds: the bytes not sent yet and how many start codes
/// were seen in them.
pub struct NalState {
    pub pending: Seq<u8>,
    pub count: nat,
}

/// The Annex-B start code.
pub open spec fn start_code() -> Seq<u8> {
    seq![0u8, 0u8, 0u8, 1u8]
}

/// `s` ends in a start code.
pub open spec fn ends_with_start_code(s: Seq<u8>) -> bool {
    s.len() >= 4 && s.subrange(s.len() - 4, s.len() as int) == start_code()
}

/// One byte through the batcher: the next state, and the packet it sends, if any.
pub open spec fn step(st: NalState, b: u8) -> (NalState, Option<Seq<u8>>) {
    let p = st.pending.push(b);
    if ends_with_start_code(p) {
        if st.count + 1 >= NAL_UNITS_PER_PACKET {
            let body = p.subrange(0, p.len() - 4);
            (
                NalState { pending: start_code(), count: 0 },
                if body.len() > 0 { Some(body) } else { None },
            )
        } else {
            (NalState { pending: p, count: st.count + 1 }, None)
        }
    } else {
        (NalState { pending: p, count: st.count }, None)
    }
}

/// A run of bytes through the batcher: the final state and the packets sent, in order.
pub open spec fn feed(st: NalState, bytes: Seq<u8>) -> (NalState, Seq<Seq<u8>>)
    decreases bytes.len(),
{
    if bytes.len() == 0 {
        (st, Seq::empty())
    } else {
        let (s1, out1) = feed(st, bytes.drop_last());
        let (s2, o) = step(s1, bytes.last());
        (s2, match o {
            Some(pk) => out1.push(pk),
            None => out1,
        })
    }
}

/// A chunk read from the stream: its bytes one by one, then the size check.
pub open spec fn feed_chunk(st: NalState, chunk: Seq<u8>) -> (NalState, Seq<Seq<u8>>) {
    let (s, out) = feed(st, chunk);
    if s.pending.len() > MAX_PENDING {
        (NalState { pending: Seq::empty(), count: 0 }, out.push(s.pending))
    } else {
        (s, out)
    }
}

/// Collects stream bytes into packets of `NAL_UNITS_PER_PACKET` NAL units.
pub struct NalBatcher {
    pending: Vec<u8>,
    nal_count: usize,
}

impl View for NalBatcher {
    type V = NalState;

    closed spec fn view(&self) -> NalState {
        NalState { pending: self.pending@, count: self.nal_count as nat }
    }
}

impl NalBatcher {
    /// The batcher's invariant: fewer start codes are counted than close a packet.
    pub closed spec fn wf(&self) -> bool {
        self.nal_count < NAL_UNITS_PER_PACKET
    }

    /// An empty batcher.
    pub fn new() -> (b: Self)
        ensures
            b.wf(),
            b@.pending == Seq::<u8>::empty(),
            b@.count == 0,
    {
        NalBatcher { pending: Vec::new(), nal_count: 0 }
    }

    /// Takes one byte; returns the packet that it closes, if any.
    pub fn push_byte(&mut self, byte: u8) -> (sent: Option<Vec<u8>>)
        requires
            old(self).wf(),
        ensures
            final(self).wf(),
            (final(self)@, bytes_view(sent)) == step(old(self)@, byte),
    {
        self.pending.push(byte);
        let len = self.pending.len();
        if len >= 4 && self.pending[len - 4] == 0 && self.pending[len - 3] == 0
            && self.pending[len - 2] == 0 && self.pending[len - 1] == 1 {
            assert(self.pending@.subrange(len - 4, len as int) =~= start_code());
            if self.nal_count + 1 >= NAL_UNITS_PER_PACKET {
                let mut to_send: Vec<u8> = Vec::new();
                std::mem::swap(&mut to_send, &mut self.pending);
                to_send.truncate(len - 4);
                assert(to_send@ =~= old(self)@.pending.push(byte).subrange(0, len - 4));
                self.pending = vec![0u8, 0u8, 0u8, 1u8];
                self.nal_count = 0;
                assert(self.pending@ =~= start_code());
                if to_send.len() > 0 {
                    Some(to_send)
                } else {
                    None
                }
            } else {
                self.nal_count = self.nal_count + 1;
                None
            }
        } else {
            proof {
                if len >= 4 {
                    assert(self.pending@.subrange(len - 4, len as int)[0] == self.pending@[len - 4]);
                    assert(self.pending@.subrange(len - 4, len as int)[1] == self.pending@[len - 3]);
                    assert(self.pending@.subrange(len - 4, len as int)[2] == self.pending@[len - 2]);
                    assert(self.pending@.subrange(len - 4, len as int)[3] == self.pending@[len - 1]);
                }
            }
            None
        }
    }

    /// Takes a chunk read from the stream; returns the packets to send, in order.
    pub fn push_chunk(&mut self, chunk: &[u8]) -> (sent: Vec<Vec<u8>>)
        requires
            old(self).wf(),
        ensures
            final(self).wf(),
            final(self)@.pending.len() <= MAX_PENDING,
            (final(self)@, sent@.map_values(|v: Vec<u8>| v@)) == feed_chunk(old(self)@, chunk@),
    {
        let ghost start = self@;
        let mut sent: Vec<Vec<u8>> = Vec::new();
        let mut i: usize = 0;
        while i < chunk.len()
            invariant
                i <= chunk@.len(),
                self.wf(),
                (self@, sent@.map_values(|v: Vec<u8>| v@)) == feed(start, chunk@.take(i as int)),
            decreases chunk@.len() - i,
        {
            let ghost before = sent@.map_values(|v: Vec<u8>| v@);
            assert(chunk@.take(i + 1).drop_last() =~= chunk@.take(i as int));
            let o = self.push_byte(chunk[i]);
            match o {
                Some(pk) => {
                    sent.push(pk);
                    assert(sent@.map_values(|v: Vec<u8>| v@) =~= before.push(pk@));
                },
                None => {
                    assert(sent@.map_values(|v: Vec<u8>| v@) =~= before);
                },
            }
            i = i + 1;
        }
        assert(chunk@.take(chunk@.len() as int) =~= chunk@);
        if self.pending.len() > MAX_PENDING {
            let ghost before = sent@.map_values(|v: Vec<u8>| v@);
            let mut all: Vec<u8> = Vec::new();
            std::mem::swap(&mut all, &mut self.pending);
            self.nal_count = 0;
            let ghost flushed = all@;
            sent.push(all);
            assert(sent@.map_values(|v: Vec<u8>| v@) =~= before.push(flushed));
        }
        sent
    }
}

/// The packets that a run of bytes yields, in order, then what the batcher
/// still holds, are exactly what it held before followed by the bytes: the
/// batcher loses, duplicates and reorders nothing.
pub proof fn lemma_feed_conserves(st: NalState, bytes: Seq<u8>)
    ensures
        feed(st, bytes).1.flatten() + feed(st, bytes).0.pending == st.pending + bytes,
    decreases bytes.len(),
{
    broadcast use Seq::lemma_flatten_push;
    if bytes.len() == 0 {
        assert(feed(st, bytes).1 =~= Seq::<Seq<u8>>::empty());
        assert(st.pending + bytes =~= st.pending);
    } else {
        let (s1, out1) = feed(st, bytes.drop_last());
        lemma_feed_conserves(st, bytes.drop_last());
        let b = bytes.last();
        let p = s1.pending.push(b);
        assert(st.pending + bytes =~= (st.pending + bytes.drop_last()).push(b));
        assert(out1.flatten() + p =~= (out1.flatten() + s1.pending).push(b));
        if ends_with_start_code(p) && s1.count + 1 >= NAL_UNITS_PER_PACKET {
            let body = p.subrange(0, p.len() - 4);
            assert(p =~= body + start_code());
            if body.len() > 0 {
                assert(out1.push(body).flatten() + start_code() =~= out1.flatten() + p);
            } else {
                assert(out1.flatten() + start_code() =~= out1.flatten() + p);
            }
        }
    }
}

/// The same holds of a whole chunk, the size check included.
pub proof fn lemma_chunk_conserves(st: NalState, chunk: Seq<u8>)
    ensures
        feed_chunk(st, chunk).1.flatten() + feed_chunk(st, chunk).0.pending == st.pending + chunk,
{
    broadcast use Seq::lemma_flatten_push;
    lemma_feed_conserves(st, chunk);
    let (s, out) = feed(st, chunk);
    if s.pending.len() > MAX_PENDING {
        assert(out.push(s.pending).flatten() + Seq::<u8>::empty() =~= out.flatten() + s.pending);
    }
}

/// No packet that the batcher sends is empty.
pub proof fn lemma_packets_nonempty(st: NalState, chunk: Seq<u8>)
    ensures
        forall|i: int|
            0 <= i < feed_chunk(st, chunk).1.len() ==> #[trigger] feed_chunk(st, chunk).1[i].len() > 0,
{
    lemma_feed_packets_nonempty(st, chunk);
}

proof fn lemma_feed_packets_nonempty(st: NalState, bytes: Seq<u8>)
    ensures
        forall|i: int| 0 <= i < feed(st, bytes).1.len() ==> #[trigger] feed(st, bytes).1[i].len() > 0,
    decreases bytes.len(),
{
    if bytes.len() > 0 {
        lemma_feed_packets_nonempty(st, bytes.drop_last());
        let (s1, out1) = feed(st, bytes.drop_last());
        let out = feed(st, bytes).1;
        assert forall|i: int| 0 <= i < out.len() implies #[trigger] out[i].len() > 0 by {
            if i < out1.len() {
                assert(out[i] == out1[i]);
            }
        }
    }
}

/// A batcher whose count is below the packet size keeps it so, whatever it is fed.
pub proof fn lemma_count_stays_below(st: NalState, bytes: Seq<u8>)
    requires
        st.count < NAL_UNITS_PER_PACKET,
    ensures
        feed(st, bytes).0.count < NAL_UNITS_PER_PACKET,
        feed_chunk(st, bytes).0.count < NAL_UNITS_PER_PACKET,
    decreases bytes.len(),
{
    if bytes.len() > 0 {
        lemma_count_stays_below(st, bytes.drop_last());
    }
}

// ---------------------------------------------------------------------------
// Whole runs.

/// A batcher that has held nothing yet.
pub open spec fn empty_state() -> NalState {
    NalState { pending: Seq::empty(), count: 0 }
}

/// Reads of the stream, each through `feed_chunk` in turn: the final state
/// and every packet sent, in order.
pub open spec fn feed_reads(st: NalState, reads: Seq<Seq<u8>>) -> (NalState, Seq<Seq<u8>>)
    decreases reads.len(),
{
    if reads.len() == 0 {
        (st, Seq::empty())
    } else {
        let (s1, o1) = feed_reads(st, reads.drop_last());
        let (s2, o2) = feed_chunk(s1, reads.last());
        (s2, o1 + o2)
    }
}

/// Over a whole run of reads, the packets sent, in order, then what is still
/// waiting, are exactly what was waiting before followed by every byte read:
/// nothing is lost, duplicated, reordered or invented, and only the final
/// unsent tail (at most `MAX_PENDING` bytes, by `lemma_run_packet_sizes`) is
/// left behind.
pub proof fn lemma_run_conserves(st: NalState, reads: Seq<Seq<u8>>)
    ensures
        feed_reads(st, reads).1.flatten() + feed_reads(st, reads).0.pending == st.pending
            + reads.flatten(),
    decreases reads.len(),
{
    if reads.len() == 0 {
        assert(feed_reads(st, reads).1 =~= Seq::<Seq<u8>>::empty());
        assert(reads.flatten() =~= Seq::<u8>::empty());
        assert(st.pending + reads.flatten() =~= st.pending);
        assert(Seq::<u8>::empty() + st.pending =~= st.pending);
    } else {
        let front = reads.drop_last();
        let last = reads.last();
        lemma_run_conserves(st, front);
        let (s1, o1) = feed_reads(st, front);
        let (s2, o2) = feed_chunk(s1, last);
        lemma_chunk_conserves(s1, last);
        lemma_flatten_concat(o1, o2);
        assert(front.push(last) =~= reads);
        front.lemma_flatten_push(last);
        assert(o2.flatten() + s2.pending == s1.pending + last);
        assert(o1.flatten() + o2.flatten() + s2.pending =~= o1.flatten() + (o2.flatten() + s2.pending));
        assert(o1.flatten() + (s1.pending + last) =~= (o1.flatten() + s1.pending) + last);
        assert(st.pending + reads.flatten() =~= (st.pending + front.flatten()) + last);
    }
}

/// Feeding two runs of bytes one after the other is feeding them joined.
pub proof fn lemma_feed_append(st: NalState, a: Seq<u8>, b: Seq<u8>)
    ensures
        feed(st, a + b).0 == feed(feed(st, a).0, b).0,
        feed(st, a + b).1 == feed(st, a).1 + feed(feed(st, a).0, b).1,
    decreases b.len(),
{
    let (s1, o1) = feed(st, a);
    if b.len() == 0 {
        assert(a + b =~= a);
        assert(o1 + Seq::<Seq<u8>>::empty() =~= o1);
    } else {
        assert((a + b).drop_last() =~= a + b.drop_last());
        assert((a + b).last() == b.last());
        lemma_feed_append(st, a, b.drop_last());
        let (s2, o2) = feed(s1, b.drop_last());
        let (s3, o) = step(s2, b.last());
        match o {
            Some(pk) => {
                assert((o1 + o2).push(pk) =~= o1 + o2.push(pk));
            },
            None => {},
        }
    }
}

/// While no read leaves more than `MAX_PENDING` bytes waiting, a run of
/// reads sends what feeding the whole stream at once sends: how the stream
/// is cut into reads changes nothing.
pub proof fn lemma_reads_without_flush(st: NalState, reads: Seq<Seq<u8>>)
    requires
        forall|k: int|
            1 <= k <= reads.len() ==> (#[trigger] feed(st, reads.take(k).flatten())).0.pending.len()
                <= MAX_PENDING,
    ensures
        feed_reads(st, reads) == feed(st, reads.flatten()),
    decreases reads.len(),
{
    if reads.len() == 0 {
        assert(feed(st, reads.flatten()).1 =~= Seq::<Seq<u8>>::empty());
    } else {
        let front = reads.drop_last();
        assert forall|k: int| 1 <= k <= front.len() implies (#[trigger] feed(
            st,
            front.take(k).flatten(),
        )).0.pending.len() <= MAX_PENDING by {
            assert(front.take(k) =~= reads.take(k));
            assert(feed(st, reads.take(k).flatten()).0.pending.len() <= MAX_PENDING);
        }
        lemma_reads_without_flush(st, front);
        assert(front.push(reads.last()) =~= reads);
        front.lemma_flatten_push(reads.last());
        lemma_feed_append(st, front.flatten(), reads.last());
        assert(reads.take(reads.len() as int) =~= reads);
        assert(feed(st, reads.take(reads.len() as int).flatten()).0.pending.len() <= MAX_PENDING);
    }
}

proof fn lemma_feed_sizes(st: NalState, bytes: Seq<u8>)
    ensures
        feed(st, bytes).0.pending.len() <= st.pending.len() + bytes.len(),
        forall|i: int|
            0 <= i < feed(st, bytes).1.len() ==> #[trigger] feed(st, bytes).1[i].len()
                <= st.pending.len() + bytes.len(),
    decreases bytes.len(),
{
    if bytes.len() > 0 {
        lemma_feed_sizes(st, bytes.drop_last());
        let (s1, out1) = feed(st, bytes.drop_last());
        let out = feed(st, bytes).1;
        assert forall|i: int| 0 <= i < out.len() implies #[trigger] out[i].len() <= st.pending.len()
            + bytes.len() by {
            if i < out1.len() {
                assert(out[i] == out1[i]);
            }
        }
    }
}

/// A run whose reads each hold at most `READ_CHUNK_MAX` bytes, from a batcher
/// holding at most `MAX_PENDING` bytes, never leaves more than `MAX_PENDING`
/// bytes waiting after a read, and sends only packets of 1 to
/// `MAX_PENDING + READ_CHUNK_MAX` bytes.
pub proof fn lemma_run_packet_sizes(st: NalState, reads: Seq<Seq<u8>>)
    requires
        st.pending.len() <= MAX_PENDING,
        forall|k: int| 0 <= k < reads.len() ==> (#[trigger] reads[k]).len() <= READ_CHUNK_MAX,
    ensures
        feed_reads(st, reads).0.pending.len() <= MAX_PENDING,
        forall|i: int|
            0 <= i < feed_reads(st, reads).1.len() ==> {
                &&& 1 <= (#[trigger] feed_reads(st, reads).1[i]).len()
                &&& feed_reads(st, reads).1[i].len() <= MAX_PENDING + READ_CHUNK_MAX
            },
    decreases reads.len(),
{
    if reads.len() > 0 {
        let front = reads.drop_last();
        lemma_run_packet_sizes(st, front);
        let (s1, o1) = feed_reads(st, front);
        let last = reads.last();
        assert(last == reads[reads.len() - 1]);
        lemma_feed_sizes(s1, last);
        lemma_packets_nonempty(s1, last);
        let (s2, o2) = feed_chunk(s1, last);
        let (sf, of) = feed(s1, last);
        assert forall|j: int| 0 <= j < o2.len() implies o2[j].len() <= MAX_PENDING + READ_CHUNK_MAX by {
            if j < of.len() {
                assert(o2[j] == of[j]);
            }
        }
        let out = o1 + o2;
        assert forall|i: int| 0 <= i < out.len() implies {
            &&& 1 <= (#[trigger] out[i]).len()
            &&& out[i].len() <= MAX_PENDING + READ_CHUNK_MAX
        } by {
            if i >= o1.len() {
                assert(out[i] == o2[i - o1.len()]);
            }
        }
    }
}

// ---------------------------------------------------------------------------
// Where packets end.

/// How many start codes `s` holds: the places where one ends.
pub open spec fn start_codes(s: Seq<u8>) -> nat
    decreases s.len(),
{
    if s.len() == 0 {
        0
    } else {
        start_codes(s.drop_last()) + if ends_with_start_code(s) {
            1nat
        } else {
            0nat
        }
    }
}

/// `s` opens with a start code.
pub open spec fn begins_with_start_code(s: Seq<u8>) -> bool {
    s.len() >= 4 && s.take(4) == start_code()
}

/// Where packet `i` of `pk` ends in the stream that the packets were cut from.
pub open spec fn packet_end(pk: Seq<Seq<u8>>, i: int) -> int {
    pk.take(i + 1).flatten().len() as int
}

/// What a batcher that has sent `sent` resets holds: before the first one its
/// count is the number of start codes it holds; after one it opens with the
/// start code that closed the last packet, which its count leaves out.
spec fn batch_inv(st: NalState, sent: nat) -> bool {
    &&& st.count < NAL_UNITS_PER_PACKET
    &&& if sent == 0 {
        start_codes(st.pending) == st.count
    } else {
        begins_with_start_code(st.pending) && start_codes(st.pending) == st.count + 1
    }
}

/// What a packet holds, by its place in the run.
spec fn packet_shape(pk: Seq<u8>, index: nat) -> bool {
    &&& pk.len() > 0
    &&& index == 0 ==> start_codes(pk) == 2
    &&& index > 0 ==> begins_with_start_code(pk) && start_codes(pk) == 3
}

proof fn lemma_start_codes_push(s: Seq<u8>, b: u8)
    ensures
        start_codes(s.push(b)) == start_codes(s) + if ends_with_start_code(s.push(b)) {
            1nat
        } else {
            0nat
        },
{
    assert(s.push(b).drop_last() =~= s);
}

proof fn lemma_start_codes_zero_tail(s: Seq<u8>)
    ensures
        start_codes(s + seq![0u8, 0u8, 0u8]) == start_codes(s),
{
    let t1 = s.push(0u8);
    let t2 = t1.push(0u8);
    let t3 = t2.push(0u8);
    assert(s + seq![0u8, 0u8, 0u8] =~= t3);
    lemma_start_codes_push(s, 0u8);
    lemma_start_codes_push(t1, 0u8);
    lemma_start_codes_push(t2, 0u8);
    assert(!ends_with_start_code(t1)) by {
        if t1.len() >= 4 {
            assert(t1.subrange(t1.len() - 4, t1.len() as int)[3] == 0u8);
        }
    }
    assert(!ends_with_start_code(t2)) by {
        if t2.len() >= 4 {
            assert(t2.subrange(t2.len() - 4, t2.len() as int)[3] == 0u8);
        }
    }
    assert(!ends_with_start_code(t3)) by {
        if t3.len() >= 4 {
            assert(t3.subrange(t3.len() - 4, t3.len() as int)[3] == 0u8);
        }
    }
}

proof fn lemma_start_codes_short(s: Seq<u8>)
    ensures
        start_codes(s) > 0 ==> s.len() >= 4,
    decreases s.len(),
{
    if s.len() > 0 {
        lemma_start_codes_short(s.drop_last());
    }
}

proof fn lemma_start_code_counts_one()
    ensures
        start_codes(start_code()) == 1,
{
    let s = start_code();
    let s3 = seq![0u8, 0u8, 0u8];
    let s2 = seq![0u8, 0u8];
    let s1 = seq![0u8];
    assert(s1.drop_last() =~= Seq::<u8>::empty());
    assert(start_codes(Seq::<u8>::empty()) == 0);
    assert(!ends_with_start_code(s1));
    assert(start_codes(s1) == 0);
    assert(s2.drop_last() =~= s1);
    assert(start_codes(s2) == 0);
    assert(s3.drop_last() =~= s2);
    assert(start_codes(s3) == 0);
    assert(s.drop_last() =~= s3);
    assert(s.subrange(0, 4) =~= start_code());
    assert(start_codes(s) == 1);
}

proof fn lemma_step_shape(st: NalState, b: u8, sent: nat)
    requires
        batch_inv(st, sent),
    ensures
        ({
            let (st2, o) = step(st, b);
            match o {
                Some(pk) => {
                    &&& batch_inv(st2, sent + 1)
                    &&& packet_shape(pk, sent)
                    &&& st.pending.push(b) == pk + start_code()
                },
                None => batch_inv(st2, sent) && st2.pending == st.pending.push(b),
            }
        }),
{
    let p = st.pending.push(b);
    lemma_start_codes_push(st.pending, b);
    if sent > 0 {
        assert(p.take(4) =~= st.pending.take(4));
    }
    if ends_with_start_code(p) && st.count + 1 >= NAL_UNITS_PER_PACKET {
        let body = p.subrange(0, p.len() - 4);
        assert(p =~= body + start_code());
        assert(p.drop_last() =~= body + seq![0u8, 0u8, 0u8]);
        lemma_start_codes_zero_tail(body);
        assert(start_codes(p) == start_codes(p.drop_last()) + 1);
        lemma_start_codes_short(body);
        lemma_start_code_counts_one();
        assert(start_code().take(4) =~= start_code());
        if sent > 0 {
            assert(body.take(4) =~= p.take(4));
        }
    }
}

proof fn lemma_feed_shape(st: NalState, bytes: Seq<u8>, sent: nat)
    requires
        batch_inv(st, sent),
    ensures
        batch_inv(feed(st, bytes).0, sent + feed(st, bytes).1.len()),
        forall|i: int|
            0 <= i < feed(st, bytes).1.len() ==> packet_shape(
                #[trigger] feed(st, bytes).1[i],
                (sent + i) as nat,
            ),
    decreases bytes.len(),
{
    if bytes.len() > 0 {
        lemma_feed_shape(st, bytes.drop_last(), sent);
        let (s1, out1) = feed(st, bytes.drop_last());
        lemma_step_shape(s1, bytes.last(), (sent + out1.len()) as nat);
        let out = feed(st, bytes).1;
        assert forall|i: int| 0 <= i < out.len() implies packet_shape(
            #[trigger] out[i],
            (sent + i) as nat,
        ) by {
            if i < out1.len() {
                assert(out[i] == out1[i]);
            }
        }
    }
}

/// From an empty batcher, as long as no size flush intervenes: the first
/// packet holds two start codes and every later one opens with a start code
/// and holds three; each packet ends right before a start code of the
/// stream; and what is left waiting holds too few start codes to close
/// another packet (at most two, or three counting the one it opens with).
pub proof fn lemma_packet_structure(s: Seq<u8>)
    ensures
        ({
            let (st, pk) = feed(empty_state(), s);
            &&& s == pk.flatten() + st.pending
            &&& pk.len() > 0 ==> start_codes(pk[0]) == 2
            &&& forall|i: int|
                1 <= i < pk.len() ==> begins_with_start_code(#[trigger] pk[i]) && start_codes(pk[i])
                    == 3
            &&& forall|i: int|
                0 <= i < pk.len() ==> s.subrange(#[trigger] packet_end(pk, i), packet_end(pk, i) + 4)
                    == start_code()
            &&& pk.len() == 0 ==> st.pending == s && start_codes(s) <= 2
            &&& pk.len() > 0 ==> begins_with_start_code(st.pending) && start_codes(st.pending) <= 3
        }),
{
    let e = empty_state();
    assert(start_codes(Seq::<u8>::empty()) == 0);
    lemma_feed_shape(e, s, 0);
    lemma_feed_conserves(e, s);
    let (st, pk) = feed(e, s);
    assert(e.pending + s =~= s);
    assert forall|i: int| 1 <= i < pk.len() implies begins_with_start_code(#[trigger] pk[i])
        && start_codes(pk[i]) == 3 by {
        assert(packet_shape(pk[i], i as nat));
    }
    if pk.len() > 0 {
        assert(packet_shape(pk[0], 0));
    } else {
        assert(pk.flatten() =~= Seq::<u8>::empty());
        assert(Seq::<u8>::empty() + st.pending =~= st.pending);
    }
    assert forall|i: int| 0 <= i < pk.len() implies s.subrange(#[trigger] packet_end(pk, i), packet_end(pk, i) + 4)
        == start_code() by {
        lemma_packet_followed_by_start_code(pk, st.pending, i);
    }
}

/// In `pk.flatten() + rest`, where every packet after the first opens with a
/// start code and so does `rest` (when there are packets), a start code
/// follows packet `i`.
proof fn lemma_packet_followed_by_start_code(pk: Seq<Seq<u8>>, rest: Seq<u8>, i: int)
    requires
        0 <= i < pk.len(),
        forall|j: int| 1 <= j < pk.len() ==> begins_with_start_code(#[trigger] pk[j]),
        begins_with_start_code(rest),
    ensures
        (pk.flatten() + rest).subrange(packet_end(pk, i), packet_end(pk, i) + 4) == start_code(),
{
    let front = pk.take(i + 1);
    let back = pk.skip(i + 1);
    assert(pk =~= front + back);
    lemma_flatten_concat(front, back);
    let after = back.flatten() + rest;
    assert(pk.flatten() + rest =~= front.flatten() + after);
    let o = front.flatten().len() as int;
    if back.len() > 0 {
        assert(back[0] == pk[i + 1]);
        assert(begins_with_start_code(back[0]));
        assert(back.flatten() == back[0] + back.drop_first().flatten());
        assert(after.subrange(0, 4) =~= back[0].take(4));
    } else {
        assert(back.flatten() =~= Seq::<u8>::empty());
        assert(after =~= rest);
        assert(after.subrange(0, 4) =~= rest.take(4));
    }
    assert((front.flatten() + after).subrange(o, o + 4) =~= after.subrange(0, 4));
}

} // verus!
