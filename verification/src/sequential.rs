//! The sequenced stream splitter.
//!
//! One connection's byte stream is logically sliced into an ordered run
//! of single-owner read and write slots, one pair per request. A slot may
//! be *prepared* at any time, but its bytes only touch the shared stream
//! in slot order: a read slot consumes input only while every earlier
//! read slot has been released, and a write slot's bytes reach the wire
//! only after every earlier write slot has been finished. This is the
//! mechanism that serializes pipelined requests and responses.
use vstd::prelude::*;

verus! {

/// One recorded read: which slot read, and which span of the input.
pub struct ReadEvent {
    pub index: nat,
    pub start: int,
    pub end: int,
}

/// Hands out read slots over one connection's input, in order.
///
/// The builder owns the input; a [`SequentialReader`] is a ticket for one
/// slot. Reading needs the turn: a slot can only consume input when every
/// slot before it has been released.
pub struct SequentialReaderBuilder {
    /// The connection's input bytes.
    pub input: Vec<u8>,
    /// How much of the input has been consumed.
    pub pos: usize,
    /// How many slots have been handed out.
    pub handed: usize,
    /// How many slots have been released; the slot with this index holds
    /// the turn.
    pub released: usize,
    /// Every read that has happened, in order.
    pub log: Ghost<Seq<ReadEvent>>,
}

/// A ticket for one read slot: the `index`th stretch of the connection's
/// input.
pub struct SequentialReader {
    pub index: usize,
}

impl SequentialReaderBuilder {
    /// The builder's bookkeeping is consistent: consumption stays inside
    /// the input, releases never outrun handed slots, and the recorded
    /// reads are ordered both by slot and by position.
    pub open spec fn well_formed(&self) -> bool {
        &&& self.pos <= self.input@.len()
        &&& self.released <= self.handed
        &&& forall|i: int|
            0 <= i < self.log@.len() ==> (#[trigger] self.log@[i]).index < self.handed
                && self.log@[i].index <= self.released && 0 <= self.log@[i].start
                <= self.log@[i].end <= self.pos
        &&& forall|i: int|
            0 <= i < self.log@.len() - 1 ==> (#[trigger] self.log@[i]).index <= self.log@[i
                + 1].index && self.log@[i].end <= self.log@[i + 1].start
    }

    /// The bytes not yet consumed.
    pub open spec fn remaining(&self) -> Seq<u8> {
        self.input@.skip(self.pos as int)
    }

    /// A builder over one connection's input, with no slot handed out.
    pub fn new(input: Vec<u8>) -> (r: SequentialReaderBuilder)
        ensures
            r.well_formed(),
            r.remaining() == input@,
            r.handed == 0,
            r.released == 0,
            r.log@ == Seq::<ReadEvent>::empty(),
    {
        let r = SequentialReaderBuilder {
            input,
            pos: 0,
            handed: 0,
            released: 0,
            log: Ghost(Seq::empty()),
        };
        assert(r.remaining() =~= r.input@);
        r
    }

    /// Hands out the next read slot. The slot may exist long before it
    /// gets the turn.
    pub fn next(&mut self) -> (r: SequentialReader)
        requires
            old(self).well_formed(),
            old(self).handed < usize::MAX,
        ensures
            final(self).well_formed(),
            r.index == old(self).handed,
            final(self).handed == old(self).handed + 1,
            final(self).released == old(self).released,
            final(self).pos == old(self).pos,
            final(self).input == old(self).input,
            final(self).log == old(self).log,
    {
        let index = self.handed;
        self.handed = self.handed + 1;
        SequentialReader { index }
    }

    /// Reads up to `n` bytes through a slot. Only the slot holding the
    /// turn can read: every earlier slot must have been released, so a
    /// later request's parse can never consume an earlier request's
    /// bytes.
    pub fn read(&mut self, slot: &SequentialReader, n: usize) -> (r: Vec<u8>)
        requires
            old(self).well_formed(),
            slot.index == old(self).released,
            slot.index < old(self).handed,
        ensures
            final(self).well_formed(),
            r@ == old(self).remaining().take(
                crate::readers::min_len(n as nat, old(self).remaining().len()),
            ),
            final(self).remaining() == old(self).remaining().skip(
                crate::readers::min_len(n as nat, old(self).remaining().len()),
            ),
            final(self).handed == old(self).handed,
            final(self).released == old(self).released,
            final(self).input == old(self).input,
            final(self).log@ == old(self).log@.push(
                ReadEvent {
                    index: slot.index as nat,
                    start: old(self).pos as int,
                    end: final(self).pos as int,
                },
            ),
    {
        let avail = self.input.len() - self.pos;
        let take = if n < avail {
            n
        } else {
            avail
        };
        let out = crate::bytes::sub_vec(&self.input, self.pos, self.pos + take);
        let ghost start = self.pos as int;
        self.pos = self.pos + take;
        proof {
            let ev = ReadEvent { index: slot.index as nat, start, end: self.pos as int };
            self.log@ = self.log@.push(ev);
            assert(out@ =~= old(self).remaining().take(
                crate::readers::min_len(n as nat, old(self).remaining().len()),
            ));
            assert(self.remaining() =~= old(self).remaining().skip(
                crate::readers::min_len(n as nat, old(self).remaining().len()),
            ));
            assert forall|i: int| 0 <= i < self.log@.len() - 1 implies (#[trigger] self.log@[
                i]).index <= self.log@[i + 1].index && self.log@[i].end <= self.log@[i + 1].start
            by {
                if i < self.log@.len() - 2 {
                    assert(self.log@[i] == old(self).log@[i]);
                    assert(self.log@[i + 1] == old(self).log@[i + 1]);
                } else {
                    assert(self.log@[i] == old(self).log@[i]);
                    assert(self.log@[i + 1] == ev);
                    if old(self).log@.len() > 0 {
                        let last = old(self).log@[old(self).log@.len() - 1];
                        assert(last.index < old(self).handed);
                        assert(last.end <= old(self).pos);
                    }
                }
            }
        }
        out
    }

    /// Releases a slot, passing the turn to the next one. Only the slot
    /// holding the turn can be released.
    pub fn release(&mut self, slot: SequentialReader)
        requires
            old(self).well_formed(),
            slot.index == old(self).released,
            slot.index < old(self).handed,
        ensures
            final(self).well_formed(),
            final(self).released == old(self).released + 1,
            final(self).handed == old(self).handed,
            final(self).pos == old(self).pos,
            final(self).input == old(self).input,
            final(self).log == old(self).log,
    {
        self.released = self.released + 1;
    }
}

/// Any two recorded reads keep both orders: the read made first belongs
/// to a slot no later in the sequence, and it consumed bytes that lie no
/// later in the input. In particular the bytes read through slot `k + 1`
/// all lie after every byte read through slot `k`.
pub proof fn lemma_reads_are_ordered(b: &SequentialReaderBuilder, i: int, j: int)
    requires
        b.well_formed(),
        0 <= i <= j < b.log@.len(),
    ensures
        b.log@[i].index <= b.log@[j].index,
        i < j ==> b.log@[i].end <= b.log@[j].start,
    decreases j - i,
{
    if i < j {
        lemma_reads_are_ordered(b, i, j - 1);
        assert(b.log@[j - 1].index <= b.log@[j].index);
        assert(b.log@[j - 1].end <= b.log@[j].start);
        assert(b.log@[j - 1].start <= b.log@[j - 1].end);
    }
}

/// Hands out write slots over one connection's output, and assembles the
/// wire in slot order.
///
/// A [`SequentialWriter`] buffers its response privately, so responses
/// may be prepared out of order; finishing a slot hands its buffer back
/// here, and buffers reach the wire strictly in slot order, each waiting
/// for every earlier slot to be finished. The ghost map `finished`
/// records, for every slot ever finished, the buffer it was finished
/// with, and the wire is built of exactly those buffers.
pub struct SequentialWriterBuilder {
    /// The bytes already on the wire.
    pub wire: Vec<u8>,
    /// How many slots have been handed out.
    pub handed: usize,
    /// How many slots' bytes are on the wire.
    pub committed: usize,
    /// Buffers of slots finished out of order, waiting for their turn.
    pub pending: Vec<(usize, Vec<u8>)>,
    /// The bytes of every committed slot, in slot order.
    pub segments: Ghost<Seq<Seq<u8>>>,
    /// The buffer every finished slot was finished with.
    pub finished: Ghost<Map<nat, Seq<u8>>>,
}

/// A write slot: a private buffer for the `index`th response on the
/// connection.
pub struct SequentialWriter {
    pub index: usize,
    pub buffer: Vec<u8>,
}

/// The concatenation of the first `k` segments.
pub open spec fn concat_prefix(segments: Seq<Seq<u8>>, k: int) -> Seq<u8>
    decreases k,
{
    if k <= 0 {
        Seq::empty()
    } else {
        concat_prefix(segments, k - 1) + segments[k - 1]
    }
}

/// An earlier prefix of segments always renders as a prefix of a later
/// one: the bytes of slot `k` stand on the wire strictly after the bytes
/// of every slot before it.
pub proof fn lemma_concat_prefix_ordered(segments: Seq<Seq<u8>>, j: int, k: int)
    requires
        0 <= j <= k,
    ensures
        concat_prefix(segments, j).len() <= concat_prefix(segments, k).len(),
        concat_prefix(segments, k).take(concat_prefix(segments, j).len() as int) == concat_prefix(
            segments,
            j,
        ),
    decreases k - j,
{
    if j < k {
        lemma_concat_prefix_ordered(segments, j, k - 1);
        assert(concat_prefix(segments, k).take(concat_prefix(segments, j).len() as int)
            =~= concat_prefix(segments, k - 1).take(concat_prefix(segments, j).len() as int));
    } else {
        assert(concat_prefix(segments, k).take(concat_prefix(segments, j).len() as int)
            =~= concat_prefix(segments, j));
    }
}

impl SequentialWriterBuilder {
    /// The committed segment at `i` is the buffer slot `i` was finished
    /// with.
    pub open spec fn seg_ok(&self, i: int) -> bool {
        self.finished@.contains_key(i as nat) && self.segments@[i] == self.finished@[i as nat]
    }

    /// The waiting entry at `j` carries the buffer its slot was finished
    /// with, under a handed-out index.
    pub open spec fn pend_ok(&self, j: int) -> bool {
        &&& self.pending@[j].0 < self.handed
        &&& self.finished@.contains_key(self.pending@[j].0 as nat)
        &&& self.finished@[self.pending@[j].0 as nat] == self.pending@[j].1@
    }

    /// The core of the bookkeeping: the wire is exactly the committed
    /// segments in slot order; every committed segment is the buffer its
    /// slot was finished with; every waiting buffer is the one its slot
    /// was finished with; only handed-out slots were ever finished.
    pub open spec fn wf_core(&self) -> bool {
        &&& self.committed <= self.handed
        &&& self.segments@.len() == self.committed
        &&& self.wire@ == concat_prefix(self.segments@, self.committed as int)
        &&& forall|i: int| 0 <= i < self.committed ==> #[trigger] self.seg_ok(i)
        &&& forall|j: int| 0 <= j < self.pending@.len() ==> #[trigger] self.pend_ok(j)
        &&& forall|k: nat| self.finished@.contains_key(k) ==> k < self.handed
    }

    /// The full bookkeeping: the core, every finished slot is either on
    /// the wire or waiting, and nothing waiting already holds the turn.
    pub open spec fn well_formed(&self) -> bool {
        &&& self.wf_core()
        &&& forall|k: nat|
            self.finished@.contains_key(k) ==> k < self.committed || exists|i: int|
                0 <= i < self.pending@.len() && (#[trigger] self.pending@[i]).0 == k
        &&& forall|i: int| 0 <= i < self.pending@.len() ==> (#[trigger] self.pending@[i]).0
            != self.committed
    }

    /// A builder over one connection's output, with no slot handed out.
    pub fn new(writer: Vec<u8>) -> (r: SequentialWriterBuilder)
        requires
            writer@.len() == 0,
        ensures
            r.well_formed(),
            r.wire@ == Seq::<u8>::empty(),
            r.handed == 0,
            r.committed == 0,
            r.finished@ == Map::<nat, Seq<u8>>::empty(),
    {
        let r = SequentialWriterBuilder {
            wire: writer,
            handed: 0,
            committed: 0,
            pending: Vec::new(),
            segments: Ghost(Seq::empty()),
            finished: Ghost(Map::empty()),
        };
        assert(r.wire@ =~= concat_prefix(r.segments@, 0));
        r
    }

    /// Hands out the next write slot, with an empty private buffer.
    pub fn next(&mut self) -> (r: SequentialWriter)
        requires
            old(self).well_formed(),
            old(self).handed < usize::MAX,
        ensures
            final(self).well_formed(),
            r.index == old(self).handed,
            r.buffer@ == Seq::<u8>::empty(),
            !final(self).finished@.contains_key(r.index as nat),
            final(self).handed == old(self).handed + 1,
            final(self).committed == old(self).committed,
            final(self).wire == old(self).wire,
            final(self).segments == old(self).segments,
            final(self).finished == old(self).finished,
    {
        let index = self.handed;
        self.handed = self.handed + 1;
        proof {
            if self.finished@.contains_key(index as nat) {
                assert((index as nat) < old(self).handed);
            }
            assert forall|i: int| 0 <= i < self.committed implies #[trigger] self.seg_ok(i) by {
                assert(old(self).seg_ok(i));
            }
            assert forall|j: int| 0 <= j < self.pending@.len() implies #[trigger] self.pend_ok(
                j,
            ) by {
                assert(old(self).pend_ok(j));
            }
            assert forall|k: nat| self.finished@.contains_key(k) implies k < self.committed
                || exists|i: int|
                0 <= i < self.pending@.len() && (#[trigger] self.pending@[i]).0 == k by {
                assert(old(self).finished@.contains_key(k));
                if !(k < self.committed) {
                    let i0 = choose|i0: int|
                        0 <= i0 < old(self).pending@.len() && (#[trigger] old(self).pending@[
                        i0]).0 == k;
                    assert(self.pending@[i0].0 == k);
                }
            }
        }
        SequentialWriter { index, buffer: Vec::new() }
    }

    /// Takes a finished slot, recording its buffer under its index. The
    /// buffer reaches the wire at once when the slot holds the turn,
    /// together with any waiting successors the turn now reaches;
    /// otherwise it waits, and the wire does not change. Either way the
    /// wire only ever grows, and what was on it stays where it was.
    pub fn finish(&mut self, slot: SequentialWriter)
        requires
            old(self).well_formed(),
            old(self).committed <= slot.index < old(self).handed,
            !old(self).finished@.contains_key(slot.index as nat),
        ensures
            final(self).well_formed(),
            final(self).handed == old(self).handed,
            final(self).committed >= old(self).committed,
            final(self).finished@ == old(self).finished@.insert(slot.index as nat, slot.buffer@),
            final(self).segments@.len() >= old(self).segments@.len(),
            final(self).segments@.take(old(self).segments@.len() as int) == old(self).segments@,
            final(self).wire@.len() >= old(self).wire@.len(),
            final(self).wire@.take(old(self).wire@.len() as int) == old(self).wire@,
            slot.index == old(self).committed ==> final(self).committed > old(self).committed
                && final(self).segments@[old(self).committed as int] == slot.buffer@,
            slot.index == old(self).committed && old(self).handed == slot.index + 1
                ==> final(self).committed == old(self).handed && final(self).wire@ == old(
                self,
            ).wire@ + slot.buffer@,
            slot.index != old(self).committed ==> final(self).wire == old(self).wire
                && final(self).segments == old(self).segments,
    {
        proof {
            assert(old(self).segments@.take(old(self).segments@.len() as int)
                =~= old(self).segments@);
            assert(old(self).wire@.take(old(self).wire@.len() as int) =~= old(self).wire@);
        }
        if slot.index != self.committed {
            proof {
                self.finished@ = self.finished@.insert(slot.index as nat, slot.buffer@);
            }
            let ghost pending0 = self.pending@;
            self.pending.push((slot.index, slot.buffer));
            proof {
                assert forall|j: int| 0 <= j < pending0.len() implies (
                #[trigger] pending0[j]).0 != slot.index by {
                    assert(old(self).pend_ok(j));
                }
                assert forall|j: int| 0 <= j < self.pending@.len() implies (
                #[trigger] self.pend_ok(j) && self.pending@[j].0 != self.committed) by {
                    if j < pending0.len() {
                        assert(old(self).pend_ok(j));
                        assert(self.pending@[j] == pending0[j]);
                    } else {
                        assert(self.pending@[j] == (slot.index, slot.buffer));
                    }
                }
                assert forall|i: int| 0 <= i < self.committed implies #[trigger] self.seg_ok(
                    i,
                ) by {
                    assert(old(self).seg_ok(i));
                    assert((i as nat) != slot.index as nat);
                }
                assert forall|k: nat| self.finished@.contains_key(k) implies k < self.committed
                    || exists|i: int|
                    0 <= i < self.pending@.len() && (#[trigger] self.pending@[i]).0 == k by {
                    if k == slot.index as nat {
                        assert(self.pending@[self.pending@.len() - 1].0 == k);
                    } else {
                        assert(old(self).finished@.contains_key(k));
                        if !(k < self.committed) {
                            let i0 = choose|i0: int|
                                0 <= i0 < pending0.len() && (#[trigger] pending0[i0]).0 == k;
                            assert(self.pending@[i0].0 == k);
                        }
                    }
                }
                assert forall|k: nat| self.finished@.contains_key(k) implies k
                    < self.handed by {
                    if k != slot.index as nat {
                        assert(old(self).finished@.contains_key(k));
                    }
                }
            }
            return ;
        }
        let SequentialWriter { index, buffer } = slot;
        proof {
            self.finished@ = self.finished@.insert(index as nat, buffer@);
            assert forall|j: int| 0 <= j < self.pending@.len() implies #[trigger] self.pend_ok(
                j,
            ) by {
                assert(old(self).pend_ok(j));
                assert(self.pending@[j].0 != index);
            }
            assert forall|i: int| 0 <= i < self.committed implies #[trigger] self.seg_ok(i) by {
                assert(old(self).seg_ok(i));
                assert(i as nat != index as nat);
            }
            assert forall|k: nat| self.finished@.contains_key(k) implies k < self.handed by {
                if k != index as nat {
                    assert(old(self).finished@.contains_key(k));
                }
            }
        }
        self.commit_buffer(buffer);
        proof {
            assert forall|k: nat| self.finished@.contains_key(k) implies k < self.committed
                || exists|i: int|
                0 <= i < self.pending@.len() && (#[trigger] self.pending@[i]).0 == k by {
                if k != index as nat {
                    assert(old(self).finished@.contains_key(k));
                }
            }
        }
        let ghost base = self.segments@;
        let ghost wire_base = self.wire@;
        self.drain_pending();
        proof {
            assert(self.segments@.take(old(self).segments@.len() as int) =~= base.take(
                old(self).segments@.len() as int,
            ));
            assert(base.take(old(self).segments@.len() as int) =~= old(self).segments@);
            assert(self.wire@.take(old(self).wire@.len() as int) =~= self.wire@.take(
                wire_base.len() as int,
            ).take(old(self).wire@.len() as int));
            if old(self).handed == index + 1 {
                // The committed slot was the newest one: nothing further
                // can have been waiting, so exactly its buffer went out.
                assert(self.committed <= self.handed);
                assert(self.committed == old(self).handed);
                assert forall|t: int| 0 <= t < index implies old(self).segments@[t]
                    == self.segments@[t] by {
                    assert(self.segments@.take(index as int)[t] == self.segments@[t]);
                }
                lemma_concat_prefix_same(old(self).segments@, self.segments@, index as int);
                assert(self.segments@[index as int] == buffer@);
                assert(self.wire@ == concat_prefix(self.segments@, index + 1));
                assert(self.wire@ =~= old(self).wire@ + buffer@);
            }
        }
    }

    /// Commits every waiting buffer whose turn has come, in slot order.
    fn drain_pending(&mut self)
        requires
            old(self).wf_core(),
            forall|k: nat|
                old(self).finished@.contains_key(k) ==> k < old(self).committed || exists|i: int|
                    0 <= i < old(self).pending@.len() && (#[trigger] old(self).pending@[i]).0
                        == k,
        ensures
            final(self).well_formed(),
            final(self).handed == old(self).handed,
            final(self).committed >= old(self).committed,
            final(self).finished == old(self).finished,
            final(self).segments@.len() >= old(self).segments@.len(),
            final(self).segments@.take(old(self).segments@.len() as int) == old(self).segments@,
            final(self).wire@.len() >= old(self).wire@.len(),
            final(self).wire@.take(old(self).wire@.len() as int) == old(self).wire@,
        decreases old(self).pending@.len(),
    {
        proof {
            assert(old(self).segments@.take(old(self).segments@.len() as int)
                =~= old(self).segments@);
            assert(old(self).wire@.take(old(self).wire@.len() as int) =~= old(self).wire@);
        }
        let mut i: usize = 0;
        let mut found: Option<usize> = None;
        while i < self.pending.len()
            invariant
                i <= self.pending@.len(),
                *self == *old(self),
                match found {
                    Some(f) => f < self.pending@.len() && self.pending@[f as int].0
                        == self.committed,
                    None => forall|j: int|
                        0 <= j < i ==> (#[trigger] self.pending@[j]).0 != self.committed,
                },
            decreases self.pending@.len() - i,
        {
            if self.pending[i].0 == self.committed {
                found = Some(i);
                i = self.pending.len();
            } else {
                i = i + 1;
            }
        }
        match found {
            Some(f) => {
                let ghost seg0 = self.segments@;
                let ghost wire0 = self.wire@;
                let ghost pending0 = self.pending@;
                let (_, buf) = self.pending.remove(f);
                proof {
                    assert forall|j: int| 0 <= j < self.pending@.len() implies (
                    #[trigger] self.pend_ok(j)) by {
                        if j < f {
                            assert(old(self).pend_ok(j));
                            assert(self.pending@[j] == pending0[j]);
                        } else {
                            assert(old(self).pend_ok(j + 1));
                            assert(self.pending@[j] == pending0[j + 1]);
                        }
                    }
                    assert(old(self).pend_ok(f as int));
                    assert forall|i: int| 0 <= i < self.committed implies #[trigger] self.seg_ok(
                        i,
                    ) by {
                        assert(old(self).seg_ok(i));
                    }
                    assert forall|k: nat| self.finished@.contains_key(k) implies k
                        < self.handed by {
                        assert(old(self).finished@.contains_key(k));
                    }
                }
                self.commit_buffer(buf);
                proof {
                    assert(self.segments@.take(seg0.len() as int) =~= seg0);
                    assert forall|k: nat| self.finished@.contains_key(k) implies k
                        < self.committed || exists|i2: int|
                        0 <= i2 < self.pending@.len() && (#[trigger] self.pending@[i2]).0
                            == k by {
                        if !(k < self.committed) {
                            assert(old(self).finished@.contains_key(k));
                            assert(!(k < old(self).committed));
                            let i0 = choose|i0: int|
                                0 <= i0 < pending0.len() && (#[trigger] pending0[i0]).0 == k;
                            assert(i0 != f);
                            if i0 < f {
                                assert(self.pending@[i0] == pending0[i0]);
                                assert(self.pending@[i0].0 == k);
                            } else {
                                assert(self.pending@[i0 - 1] == pending0[i0]);
                                assert(self.pending@[i0 - 1].0 == k);
                            }
                        }
                    }
                }
                let ghost mid = self.segments@;
                let ghost wire_mid = self.wire@;
                self.drain_pending();
                proof {
                    assert(self.segments@.take(seg0.len() as int) =~= mid.take(seg0.len() as int));
                    assert(mid.take(seg0.len() as int) =~= seg0);
                    assert(self.wire@.take(wire0.len() as int) =~= self.wire@.take(
                        wire_mid.len() as int,
                    ).take(wire0.len() as int));
                }
            },
            None => {},
        }
    }

    /// Appends one buffer to the wire as the next committed segment; the
    /// buffer must be the one its slot was finished with.
    fn commit_buffer(&mut self, buffer: Vec<u8>)
        requires
            old(self).wf_core(),
            old(self).committed < old(self).handed,
            old(self).finished@.contains_key(old(self).committed as nat),
            old(self).finished@[old(self).committed as nat] == buffer@,
        ensures
            final(self).wf_core(),
            final(self).handed == old(self).handed,
            final(self).committed == old(self).committed + 1,
            final(self).pending == old(self).pending,
            final(self).finished == old(self).finished,
            final(self).segments@ == old(self).segments@.push(buffer@),
            final(self).wire@ == old(self).wire@ + buffer@,
            final(self).wire@.take(old(self).wire@.len() as int) == old(self).wire@,
    {
        self.wire.extend_from_slice(buffer.as_slice());
        self.committed = self.committed + 1;
        proof {
            self.segments@ = self.segments@.push(buffer@);
            assert(self.segments@.take(self.committed as int) =~= self.segments@);
            assert(self.wire@.take(old(self).wire@.len() as int) =~= old(self).wire@);
            assert(self.wire@ =~= concat_prefix(self.segments@, self.committed as int)) by {
                assert(self.segments@[self.committed - 1] == buffer@);
                assert(concat_prefix(self.segments@, self.committed as int) == concat_prefix(
                    self.segments@,
                    self.committed - 1,
                ) + buffer@);
                lemma_concat_prefix_same(old(self).segments@, self.segments@, self.committed - 1);
            }
            assert forall|i: int| 0 <= i < self.committed implies #[trigger] self.seg_ok(
                i,
            ) by {
                if i < old(self).committed {
                    assert(old(self).seg_ok(i));
                    assert(self.segments@[i] == old(self).segments@[i]);
                } else {
                    assert(self.segments@[i] == buffer@);
                }
            }
            assert forall|j: int| 0 <= j < self.pending@.len() implies #[trigger] self.pend_ok(
                j,
            ) by {
                assert(old(self).pend_ok(j));
                assert(old(self).pending@[j] == self.pending@[j]);
            }
            assert forall|k: nat| self.finished@.contains_key(k) implies k < self.handed by {
                assert(old(self).finished@.contains_key(k));
            }
            assert(self.wf_core());
        }
    }
}

/// A prefix concatenation only looks at the segments below its bound.
pub proof fn lemma_concat_prefix_same(a: Seq<Seq<u8>>, b: Seq<Seq<u8>>, k: int)
    requires
        0 <= k <= a.len(),
        a.len() <= b.len(),
        forall|i: int| 0 <= i < k ==> a[i] == b[i],
    ensures
        concat_prefix(a, k) == concat_prefix(b, k),
    decreases k,
{
    if k > 0 {
        lemma_concat_prefix_same(a, b, k - 1);
    }
}

/// The responses stand on the wire in request order: for any two
/// committed slots `j <= k`, everything written through slot `j` lies on
/// the wire before anything written through slot `k`, whatever order
/// the two were answered in.
pub proof fn lemma_wire_in_request_order(b: &SequentialWriterBuilder, j: int, k: int)
    requires
        b.well_formed(),
        0 <= j <= k <= b.committed,
    ensures
        concat_prefix(b.segments@, j).len() <= concat_prefix(b.segments@, k).len(),
        concat_prefix(b.segments@, k).len() <= b.wire@.len(),
        b.wire@.take(concat_prefix(b.segments@, j).len() as int) == concat_prefix(b.segments@, j),
        b.wire@.take(concat_prefix(b.segments@, k).len() as int) == concat_prefix(b.segments@, k),
{
    lemma_concat_prefix_ordered(b.segments@, j, k);
    lemma_concat_prefix_ordered(b.segments@, k, b.committed as int);
    lemma_concat_prefix_ordered(b.segments@, j, b.committed as int);
}

/// Once every slot up to `k` has been finished, the wire holds their
/// buffers, each slot's bytes as one segment in slot order — whatever
/// order the slots were finished in. An answer to a later request that
/// was finished first simply waited; it is on the wire, after every
/// earlier answer.
pub proof fn lemma_finished_responses_reach_wire(b: &SequentialWriterBuilder, k: nat)
    requires
        b.well_formed(),
        forall|i: nat| i <= k ==> #[trigger] b.finished@.contains_key(i),
    ensures
        b.committed > k,
        forall|i: nat| i <= k ==> #[trigger] b.segments@[i as int] == b.finished@[i],
{
    if b.committed <= k {
        let c = b.committed as nat;
        assert(b.finished@.contains_key(c));
        let i = choose|i: int| 0 <= i < b.pending@.len() && (#[trigger] b.pending@[i]).0 == c;
        assert(false);
    }
    assert forall|i: nat| i <= k implies #[trigger] b.segments@[i as int] == b.finished@[i] by {
        assert(b.seg_ok(i as int));
    }
}

impl SequentialWriter {
    /// Appends bytes to this slot's private buffer. Nothing reaches the
    /// wire until the slot is finished and its turn comes.
    pub fn write(&mut self, buf: &Vec<u8>)
        ensures
            final(self).buffer@ == old(self).buffer@ + buf@,
            final(self).index == old(self).index,
    {
        self.buffer.extend_from_slice(buf.as_slice());
    }
}

} // verus!
