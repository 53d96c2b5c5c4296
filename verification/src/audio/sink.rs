//! The ring between the PipeWire loop, which writes audio, and the device
//! callback, which reads it.
//!
//! A sample is kept as the bits of its float; the bits 0 are silence. A frame
//! holds one sample for each channel.

use vstd::arithmetic::div_mod::{
    lemma_fundamental_div_mod, lemma_fundamental_div_mod_converse, lemma_mod_bound,
};
use vstd::prelude::*;

verus! {

/// The smallest ring, in frames.
pub const MIN_RING_FRAMES: u64 = 256;

/// The ring of one stream, and what drives it.
pub struct Sink {
    rate: u32,
    channels: usize,
    ring_frames: u64,
    ring: Vec<u32>,
    read_frame: u64,
    write_frame: u64,
    underrun_frames: u64,
    dropped_frames: u64,
    drive_enabled: bool,
    process_pending: bool,
    pipewire_buffer_frames: u32,
    connected: bool,
}

/// A sink as its users see it: a queue of frames, the oldest first.
pub struct SinkView {
    pub rate: u32,
    pub channels: nat,
    pub capacity: nat,
    pub queue: Seq<Seq<u32>>,
    /// How many frames were ever written.
    pub written: nat,
    pub underruns: u64,
    pub dropped: nat,
    pub driving: bool,
    pub pending: bool,
    pub buffer_frames: u32,
    pub connected: bool,
}

/// How many frames the ring holds.
pub open spec fn ring_size(rate: u32, buffer_ms: u32) -> nat {
    let frames = (rate as nat * buffer_ms as nat) / 1000;
    if frames < 256 {
        256
    } else {
        frames
    }
}

/// The frame at position `k` of interleaved samples.
pub open spec fn frame_at(src: Seq<u32>, ch: nat, k: int) -> Seq<u32> {
    Seq::new(ch, |c: int| src[k * ch + c])
}

/// The whole frames of interleaved samples; what is left over is no frame.
pub open spec fn frames(src: Seq<u32>, ch: nat) -> Seq<Seq<u32>> {
    Seq::new(src.len() / ch, |k: int| frame_at(src, ch, k))
}

/// The last `cap` of `s`, or all of it.
pub open spec fn latest(s: Seq<Seq<u32>>, cap: nat) -> Seq<Seq<u32>> {
    if s.len() <= cap {
        s
    } else {
        s.skip(s.len() - cap)
    }
}

/// By how much `n` exceeds `cap`.
pub open spec fn excess(n: nat, cap: nat) -> nat {
    if n <= cap {
        0
    } else {
        (n - cap) as nat
    }
}

/// The smaller of two numbers.
pub open spec fn least(a: nat, b: nat) -> nat {
    if a <= b {
        a
    } else {
        b
    }
}

/// `dst` filled with the frames of the queue, and with silence behind them.
/// Samples behind the last whole frame stay.
pub open spec fn filled(queue: Seq<Seq<u32>>, ch: nat, dst: Seq<u32>) -> Seq<u32> {
    Seq::new(
        dst.len(),
        |i: int|
            if i / (ch as int) >= dst.len() / ch {
                dst[i]
            } else if i / (ch as int) < queue.len() {
                queue[i / (ch as int)][i % (ch as int)]
            } else {
                0
            },
    )
}

/// A frame of silence.
pub open spec fn silence(ch: nat) -> Seq<u32> {
    Seq::new(ch, |c: int| 0)
}

/// `u` counted up by `n`, wrapping round.
pub open spec fn counted(u: u64, n: nat) -> u64 {
    ((u + n) % 0x1_0000_0000_0000_0000) as u64
}

impl SinkView {
    /// The sink after interleaved samples were written: the ring keeps the
    /// latest frames and drops the oldest.
    pub open spec fn write(self, src: Seq<u32>) -> SinkView {
        let all = self.queue + frames(src, self.channels);
        SinkView {
            queue: latest(all, self.capacity),
            written: self.written + src.len() / self.channels,
            dropped: self.dropped + excess(all.len(), self.capacity),
            ..self
        }
    }

    /// The sink after `n` frames were read. Frames that were not there count as
    /// underruns.
    pub open spec fn read(self, n: nat) -> SinkView {
        SinkView {
            queue: self.queue.skip(least(n, self.queue.len()) as int),
            underruns: counted(self.underruns, excess(n, self.queue.len())),
            ..self
        }
    }

    /// The sink without what it holds.
    pub open spec fn clear(self) -> SinkView {
        SinkView { queue: seq![], ..self }
    }

    /// How many frames the graph hands over at a time.
    pub open spec fn quantum(self) -> u32 {
        if self.buffer_frames == 0 {
            self.rate / 50
        } else {
            self.buffer_frames
        }
    }

    /// Whether the ring runs low.
    pub open spec fn is_low(self) -> bool {
        self.queue.len() <= (if self.quantum() / 2 < 256 {
            256
        } else {
            self.quantum() / 2
        })
    }

    /// Whether the graph has to be asked for more.
    pub open spec fn must_trigger(self) -> bool {
        self.driving && self.connected && self.is_low() && !self.pending
    }
}

impl Sink {
    /// The slot of the ring that holds frame number `n`.
    spec fn slot(self, n: int) -> Seq<u32> {
        Seq::new(
            self.channels as nat,
            |c: int| self.ring@[(n % self.ring_frames as int) * self.channels + c],
        )
    }

    /// The sink as its users see it.
    pub closed spec fn view(self) -> SinkView {
        SinkView {
            rate: self.rate,
            channels: self.channels as nat,
            capacity: self.ring_frames as nat,
            queue: Seq::new(
                (self.write_frame - self.read_frame) as nat,
                |i: int| self.slot(self.read_frame + i),
            ),
            written: self.write_frame as nat,
            underruns: self.underrun_frames,
            dropped: self.dropped_frames as nat,
            driving: self.drive_enabled,
            pending: self.process_pending,
            buffer_frames: self.pipewire_buffer_frames,
            connected: self.connected,
        }
    }

    /// The ring is as large as it says, and holds what was written last.
    pub closed spec fn wf(self) -> bool {
        &&& self.ring_frames >= 256
        &&& self.ring.len() == self.ring_frames * self.channels
        &&& self.read_frame <= self.write_frame
        &&& self.write_frame - self.read_frame <= self.ring_frames
        &&& self.dropped_frames <= self.read_frame
    }

    /// What every sink keeps, seen from outside.
    pub proof fn lemma_wf(&self)
        requires
            self.wf(),
        ensures
            self@.queue.len() <= self@.capacity,
            self@.capacity >= 256,
            self@.queue.len() + self@.dropped <= self@.written,
            self@.written <= u64::MAX,
            self@.capacity * self@.channels <= usize::MAX,
            forall|i: int|
                0 <= i < self@.queue.len() ==> (#[trigger] self@.queue[i]).len() == self@.channels,
    {
    }

    /// Whether a ring for so much audio fits into memory.
    pub fn fits(rate: u32, channels: u32, buffer_ms: u32) -> (r: bool)
        ensures
            r == (ring_size(rate, buffer_ms) * channels <= usize::MAX),
    {
        assert(0 <= rate * buffer_ms <= 0xffff_ffff * 0xffff_ffff) by (nonlinear_arith)
            requires
                rate <= 0xffff_ffff,
                buffer_ms <= 0xffff_ffff,
        ;
        let frames: u64 = rate as u64 * buffer_ms as u64 / 1000;
        let ring_frames: u64 = if frames < MIN_RING_FRAMES {
            MIN_RING_FRAMES
        } else {
            frames
        };
        assert(0 <= ring_frames * channels <= 0xffff_ffff_ffff_ffff * 0xffff_ffff)
            by (nonlinear_arith)
            requires
                ring_frames <= 0xffff_ffff_ffff_ffff,
                channels <= 0xffff_ffff,
        ;
        ring_frames as u128 * channels as u128 <= usize::MAX as u128
    }

    /// An empty ring for `buffer_ms` milliseconds of audio.
    pub fn new(rate: u32, channels: u32, buffer_ms: u32) -> (r: Sink)
        requires
            ring_size(rate, buffer_ms) * channels <= usize::MAX,
        ensures
            r.wf(),
            r@ == (SinkView {
                rate,
                channels: channels as nat,
                capacity: ring_size(rate, buffer_ms),
                queue: seq![],
                written: 0,
                underruns: 0,
                dropped: 0,
                driving: false,
                pending: false,
                buffer_frames: rate / 50,
                connected: false,
            }),
    {
        assert(0 <= rate * buffer_ms <= 0xffff_ffff * 0xffff_ffff) by (nonlinear_arith)
            requires
                rate <= 0xffff_ffff,
                buffer_ms <= 0xffff_ffff,
        ;
        let frames: u64 = rate as u64 * buffer_ms as u64 / 1000;
        let ring_frames: u64 = if frames < MIN_RING_FRAMES {
            MIN_RING_FRAMES
        } else {
            frames
        };
        let ch: usize = channels as usize;
        let mut ring: Vec<u32> = Vec::new();
        proof {
            if channels == 0 {
                assert(ring_frames * channels == 0) by (nonlinear_arith)
                    requires
                        channels == 0,
                ;
            } else {
                assert(ring_frames <= ring_frames * channels) by (nonlinear_arith)
                    requires
                        channels >= 1,
                        ring_frames >= 0,
                ;
            }
        }
        if ch > 0 {
            let n: usize = ring_frames as usize * ch;
            while ring.len() < n
                invariant
                    ring.len() <= n,
                decreases n - ring.len(),
            {
                ring.push(0);
            }
        }
        let r = Sink {
            rate,
            channels: ch,
            ring_frames,
            ring,
            read_frame: 0,
            write_frame: 0,
            underrun_frames: 0,
            dropped_frames: 0,
            drive_enabled: false,
            process_pending: false,
            pipewire_buffer_frames: rate / 50,
            connected: false,
        };
        assert(r@.queue =~= seq![]);
        r
    }

    /// How many frames the ring holds at most.
    pub fn ring_frames(&self) -> (r: u64)
        ensures
            r == self@.capacity,
    {
        self.ring_frames
    }

    /// The rate of the stream.
    pub fn rate(&self) -> (r: u32)
        ensures
            r == self@.rate,
    {
        self.rate
    }

    /// The channels of the stream.
    pub fn channels(&self) -> (r: usize)
        ensures
            r == self@.channels,
    {
        self.channels
    }

    /// How many frames were asked for and not there.
    pub fn underrun_frames(&self) -> (r: u64)
        ensures
            r == self@.underruns,
    {
        self.underrun_frames
    }

    /// How many frames were dropped.
    pub fn dropped_frames(&self) -> (r: u64)
        ensures
            r == self@.dropped,
    {
        self.dropped_frames
    }

    /// How many bytes a frame has.
    pub fn frame_bytes(&self) -> (r: u32)
        requires
            self.wf(),
        ensures
            r == (4 * self@.channels) % 0x1_0000_0000,
    {
        assert(256 * self.channels <= self.ring_frames * self.channels) by (nonlinear_arith)
            requires
                256 <= self.ring_frames,
                0 <= self.channels,
        ;
        let n: u64 = (4 * self.channels) as u64;
        (n % 0x1_0000_0000) as u32
    }

    /// How many frames the ring holds now.
    pub fn buffered_frames(&self) -> (r: u64)
        requires
            self.wf(),
        ensures
            r == self@.queue.len(),
    {
        self.write_frame - self.read_frame
    }

    /// Discards what the ring holds.
    pub fn clear(&mut self)
        requires
            old(self).wf(),
        ensures
            final(self).wf(),
            final(self)@ == old(self)@.clear(),
    {
        self.read_frame = self.write_frame;
        assert(self@.queue =~= seq![]);
    }

    /// Copies one frame into the slot behind the last one.
    fn put(&mut self, src: &[u32], at: usize)
        requires
            old(self).wf(),
            old(self).channels > 0,
            at + old(self).channels <= src.len(),
            old(self).write_frame - old(self).read_frame < old(self).ring_frames,
            old(self).write_frame < u64::MAX,
        ensures
            final(self).wf(),
            final(self)@ == (SinkView {
                queue: old(self)@.queue.push(
                    Seq::new(old(self).channels as nat, |c: int| src@[at + c]),
                ),
                written: old(self)@.written + 1,
                ..old(self)@
            }),
            final(self).channels == old(self).channels,
            final(self).ring_frames == old(self).ring_frames,
            final(self).read_frame == old(self).read_frame,
            final(self).write_frame == old(self).write_frame + 1,
    {
        let ghost before = *self;
        let ch: usize = self.channels;
        let w: u64 = self.write_frame % self.ring_frames;
        proof {
            lemma_slot_fits(w as int, ch as int, self.ring_frames as int);
            lemma_slot_is_large(w as int, ch as int);
        }
        let base: usize = w as usize * ch;
        let mut c: usize = 0;
        while c < ch
            invariant
                c <= ch,
                ch == self.channels,
                at + ch <= src.len(),
                base == w * ch,
                base + ch <= self.ring.len(),
                self.ring@.len() == before.ring@.len(),
                *self == (Sink { ring: self.ring, ..before }),
                forall|i: int|
                    base <= i < base + c ==> (#[trigger] self.ring@[i]) == src@[at + i - base],
                forall|i: int|
                    0 <= i < self.ring@.len() && !(base <= i < base + ch) ==> self.ring@[i]
                        == before.ring@[i],
            decreases ch - c,
        {
            self.ring.set(base + c, src[at + c]);
            c = c + 1;
        }
        self.write_frame = self.write_frame + 1;
        proof {
            let frame = Seq::new(ch as nat, |c: int| src@[at + c]);
            let n = (before.write_frame - before.read_frame) as int;
            assert forall|i: int| 0 <= i < n + 1 implies self@.queue[i] == before@.queue.push(
                frame,
            )[i] by {
                let num = before.read_frame + i;
                let s = num % self.ring_frames as int;
                lemma_mod_bound(num, self.ring_frames as int);
                lemma_slot_fits(s, ch as int, self.ring_frames as int);
                if i < n {
                    lemma_slots_differ(num, before.write_frame as int, self.ring_frames as int);
                    lemma_slots_apart(s, w as int, ch as int);
                    assert(self.slot(num) =~= before.slot(num));
                } else {
                    assert(self.slot(num) =~= frame);
                }
            }
            assert(self@.queue =~= before@.queue.push(frame));
        }
    }

    /// Appends interleaved frames, dropping the oldest where the ring is full.
    pub fn write(&mut self, src: &[u32])
        requires
            old(self).wf(),
            old(self)@.channels > 0,
            old(self)@.written + src@.len() / old(self)@.channels <= u64::MAX,
        ensures
            final(self).wf(),
            final(self)@ == old(self)@.write(src@),
    {
        let ghost before = self@;
        let ch: usize = self.channels;
        let n: usize = src.len() / ch;
        let ghost all = before.queue + frames(src@, ch as nat);
        let mut k: usize = 0;
        assert(all.take(before.queue.len() as int) =~= before.queue);
        proof {
            self.lemma_wf();
        }
        while k < n
            invariant
                k <= n,
                ch > 0,
                ch == self.channels,
                n == src.len() / ch,
                before.channels == ch,
                before.written + n <= u64::MAX,
                before.queue.len() <= before.capacity,
                all == before.queue + frames(src@, ch as nat),
                self.wf(),
                self@ == (SinkView {
                    queue: latest(all.take(before.queue.len() + k), before.capacity),
                    written: (before.written + k) as nat,
                    dropped: before.dropped + excess(before.queue.len() + k as nat, before.capacity),
                    ..before
                }),
            decreases n - k,
        {
            let ghost q = all.take(before.queue.len() + k);
            if self.write_frame - self.read_frame >= self.ring_frames {
                let ghost full = *self;
                self.read_frame = self.read_frame + 1;
                self.dropped_frames = self.dropped_frames + 1;
                assert(self@.queue =~= full@.queue.drop_first());
            }
            let ghost room = self@.queue;
            proof {
                lemma_frame_fits(k as int, ch as int, src@.len() as int);
            }
            self.put(src, k * ch);
            proof {
                let f = frame_at(src@, ch as nat, k as int);
                assert(Seq::new(ch as nat, |c: int| src@[(k * ch) as int + c]) =~= f);
                assert(frames(src@, ch as nat)[k as int] == f);
                assert(all.take(before.queue.len() + k + 1) =~= q.push(f));
                assert(self@.queue == room.push(f));
                assert(self@.queue =~= latest(q.push(f), before.capacity));
            }
            k = k + 1;
        }
        assert(all.take(before.queue.len() + n) =~= all);
    }

    /// Fills `dst` with interleaved frames, padding with silence on underrun.
    pub fn read(&mut self, dst: &mut Vec<u32>)
        requires
            old(self).wf(),
            old(self)@.channels > 0,
        ensures
            final(self).wf(),
            final(self)@ == old(self)@.read(old(dst)@.len() / old(self)@.channels),
            final(dst)@ == filled(old(self)@.queue, old(self)@.channels, old(dst)@),
    {
        let ghost before = self@;
        let ghost asked = dst@;
        let ch: usize = self.channels;
        let n: usize = dst.len() / ch;
        let ghost want = filled(before.queue, ch as nat, asked);
        let mut k: usize = 0;
        proof {
            lemma_frame_ends(n as int, ch as int, asked.len() as int);
            self.lemma_wf();
            vstd::arithmetic::div_mod::lemma_small_mod(
                before.underruns as nat,
                0x1_0000_0000_0000_0000,
            );
        }
        assert(self@.queue =~= before.queue.skip(0));
        while k < n
            invariant
                k <= n,
                ch > 0,
                ch == self.channels,
                n == asked.len() / ch as nat,
                dst@.len() == asked.len(),
                before.channels == ch,
                want == filled(before.queue, ch as nat, asked),
                forall|i: int|
                    0 <= i < before.queue.len() ==> (#[trigger] before.queue[i]).len() == ch,
                self.wf(),
                self@ == before.read(k as nat),
                forall|i: int| 0 <= i < k * ch ==> dst@[i] == want[i],
                forall|i: int| k * ch <= i < asked.len() ==> dst@[i] == asked[i],
            decreases n - k,
        {
            assert(dst.len() == asked.len());
            proof {
                lemma_frame_fits(k as int, ch as int, asked.len() as int);
            }
            let base: usize = k * ch;
            let have: bool = self.read_frame < self.write_frame;
            let ghost frame = if k < before.queue.len() {
                before.queue[k as int]
            } else {
                silence(ch as nat)
            };
            let r: u64 = self.read_frame % self.ring_frames;
            proof {
                lemma_slot_fits(r as int, ch as int, self.ring_frames as int);
                lemma_slot_is_large(r as int, ch as int);
                assert(self@.queue.len() == before.read(k as nat).queue.len());
                if have {
                    assert(self@.queue[0] == self.slot(self.read_frame as int));
                    assert(before.queue.skip(k as int)[0] == frame);
                } else {
                    assert(self@.queue.len() == 0);
                    assert(before.queue.len() <= k);
                    assert(frame == silence(ch as nat));
                }
            }
            let from: usize = r as usize * ch;
            let mut c: usize = 0;
            let ghost start = dst@;
            while c < ch
                invariant
                    c <= ch,
                    ch == self.channels,
                    base + ch <= dst.len(),
                    dst@.len() == start.len(),
                    from == r * ch,
                    from + ch <= self.ring.len(),
                    r == self.read_frame as int % self.ring_frames as int,
                    have ==> frame == self.slot(self.read_frame as int),
                    !have ==> frame == silence(ch as nat),
                    forall|i: int| base <= i < base + c ==> (#[trigger] dst@[i]) == frame[i - base],
                    forall|i: int|
                        0 <= i < dst@.len() && !(base <= i < base + c) ==> dst@[i] == start[i],
                decreases ch - c,
            {
                let v: u32 = if have {
                    self.ring[from + c]
                } else {
                    0
                };
                dst.set(base + c, v);
                c = c + 1;
            }
            let ghost was = *self;
            if have {
                self.read_frame = self.read_frame + 1;
                assert(self@.queue =~= was@.queue.drop_first());
            } else {
                self.underrun_frames = self.underrun_frames.wrapping_add(1);
                assert(self@.queue =~= was@.queue);
            }
            proof {
                lemma_counted(before.underruns, excess(k as nat, before.queue.len()));
                assert(self@.queue =~= before.read((k + 1) as nat).queue);
                assert forall|i: int| 0 <= i < (k + 1) * ch implies dst@[i] == want[i] by {
                    if i >= k * ch {
                        lemma_in_frame(i, k as int, ch as int);
                        assert(dst@[i] == frame[i - base]);
                        assert(k < n);
                    }
                }
                assert((k + 1) * ch == k * ch + ch) by (nonlinear_arith);
            }
            k = k + 1;
        }
        proof {
            assert forall|i: int| 0 <= i < asked.len() implies dst@[i] == want[i] by {
                if i >= n * ch {
                    lemma_behind_frames(i, n as int, ch as int);
                }
            }
            assert(dst@ =~= want);
        }
    }

    /// Asks for another quantum once the ring runs low. True where the graph
    /// has to be triggered.
    pub fn maybe_trigger_process(&mut self) -> (r: bool)
        requires
            old(self).wf(),
        ensures
            final(self).wf(),
            r == old(self)@.must_trigger(),
            final(self)@ == (SinkView { pending: old(self)@.pending || r, ..old(self)@ }),
    {
        if !self.drive_enabled || !self.connected {
            return false;
        }
        let mut pw_frames: u32 = self.pipewire_buffer_frames;
        if pw_frames == 0 {
            pw_frames = self.rate / 50;
        }
        let low: u32 = if pw_frames / 2 < 256 {
            256
        } else {
            pw_frames / 2
        };
        if self.write_frame - self.read_frame > low as u64 {
            return false;
        }
        if self.process_pending {
            return false;
        }
        self.process_pending = true;
        assert(self@.queue =~= old(self)@.queue);
        true
    }

    /// Takes up a change of the stream's state. True where the graph has to be
    /// triggered.
    pub fn state_changed(&mut self, streaming: bool) -> (r: bool)
        requires
            old(self).wf(),
        ensures
            final(self).wf(),
            ({
                let fresh = SinkView { driving: true, pending: false, ..old(self)@.clear() };
                if streaming {
                    r == fresh.must_trigger() && final(self)@ == (SinkView { pending: r, ..fresh })
                } else {
                    !r && final(self)@ == (SinkView {
                        driving: false,
                        pending: false,
                        ..old(self)@
                    })
                }
            }),
    {
        if streaming {
            self.clear();
            let ghost cleared = self@;
            self.process_pending = false;
            self.drive_enabled = true;
            assert(self@.queue =~= cleared.queue);
            self.maybe_trigger_process()
        } else {
            self.drive_enabled = false;
            self.process_pending = false;
            assert(self@.queue =~= old(self)@.queue);
            false
        }
    }

    /// Takes up that the stream is connected.
    pub fn connect(&mut self)
        requires
            old(self).wf(),
        ensures
            final(self).wf(),
            final(self)@ == (SinkView { connected: true, ..old(self)@ }),
    {
        self.connected = true;
        assert(self@.queue =~= old(self)@.queue);
    }

    /// Takes up that the loop has ended.
    pub fn disconnect(&mut self)
        requires
            old(self).wf(),
        ensures
            final(self).wf(),
            final(self)@ == (SinkView {
                driving: false,
                pending: false,
                connected: false,
                ..old(self)@
            }),
    {
        self.drive_enabled = false;
        self.process_pending = false;
        self.connected = false;
        assert(self@.queue =~= old(self)@.queue);
    }

    /// Whether a negotiated format differs from that of the stream.
    pub fn format_differs(&self, rate: u32, channels: u32) -> (r: bool)
        ensures
            r == (rate != self@.rate || channels != self@.channels),
    {
        rate != self.rate || channels as u64 != self.channels as u64
    }
}

// ---------------------------------------------------------------------------
// Buffers of the graph
// ---------------------------------------------------------------------------

/// The part of a buffer that a chunk covers, clamped to the buffer: where it
/// begins, and how many whole frames it has.
pub open spec fn window_of(offset: nat, size: nat, len: nat, frame_bytes: nat) -> (nat, nat) {
    let from = least(offset, len);
    (from, least(size, (len - from) as nat) / frame_bytes)
}

/// The sample whose bytes stand at `i`, the lowest first.
pub open spec fn sample_at(bytes: Seq<u8>, i: int) -> u32 {
    (bytes[i] + 0x100 * bytes[i + 1] + 0x1_0000 * bytes[i + 2] + 0x100_0000 * bytes[i + 3]) as u32
}

/// The `n` samples whose bytes begin at `from`.
pub open spec fn samples(bytes: Seq<u8>, from: int, n: nat) -> Seq<u32> {
    Seq::new(n, |i: int| sample_at(bytes, from + 4 * i))
}

/// Reads `n` samples from the bytes that begin at `from`.
fn read_samples(bytes: &[u8], from: usize, n: usize) -> (r: Vec<u32>)
    requires
        from + 4 * n <= bytes.len(),
    ensures
        r@ == samples(bytes@, from as int, n as nat),
{
    let mut out: Vec<u32> = Vec::new();
    let mut i: usize = 0;
    while i < n
        invariant
            i <= n,
            from + 4 * n <= bytes.len(),
            out@ == samples(bytes@, from as int, i as nat),
        decreases n - i,
    {
        let p: usize = from + 4 * i;
        let s: u32 = bytes[p] as u32 + 0x100 * bytes[p + 1] as u32 + 0x1_0000 * bytes[p + 2] as u32
            + 0x100_0000 * bytes[p + 3] as u32;
        out.push(s);
        i = i + 1;
        assert(out@ =~= samples(bytes@, from as int, i as nat));
    }
    out
}

/// The sink after the graph handed a buffer over, of which a chunk holds audio.
pub open spec fn processed(s: SinkView, offset: nat, size: nat, bytes: Seq<u8>) -> SinkView {
    let (from, n) = window_of(offset, size, bytes.len(), 4 * s.channels);
    let taken = if n > 0 {
        SinkView { buffer_frames: (n % 0x1_0000_0000) as u32, ..s.write(
            samples(bytes, from as int, n * s.channels),
        ) }
    } else {
        s
    };
    SinkView { pending: false, ..taken }
}

impl Sink {
    /// Takes up the chunk of a buffer that the graph handed over.
    pub fn process(&mut self, offset: usize, size: usize, bytes: &[u8])
        requires
            old(self).wf(),
            0 < 4 * old(self)@.channels <= u32::MAX,
            old(self)@.written + bytes@.len() <= u64::MAX,
        ensures
            final(self).wf(),
            final(self)@ == processed(old(self)@, offset as nat, size as nat, bytes@),
    {
        let ghost before = self@;
        let frame_bytes: usize = self.frame_bytes() as usize;
        let len: usize = bytes.len();
        let from: usize = if offset <= len {
            offset
        } else {
            len
        };
        let room: usize = len - from;
        let size: usize = if size <= room {
            size
        } else {
            room
        };
        let n: usize = size / frame_bytes;
        if n > 0 {
            let ch: usize = self.channels;
            proof {
                lemma_frame_ends(n as int, frame_bytes as int, size as int);
                assert(n * frame_bytes == 4 * (n * ch)) by (nonlinear_arith)
                    requires
                        frame_bytes == 4 * ch,
                ;
                assert(n <= n * ch) by (nonlinear_arith)
                    requires
                        ch >= 1,
                        n >= 0,
                ;
                lemma_fundamental_div_mod_converse(n * ch, ch as int, n as int, 0);
            }
            let src = read_samples(bytes, from, n * ch);
            self.write(src.as_slice());
            let ghost wrote = self@;
            self.pipewire_buffer_frames = (n as u64 % 0x1_0000_0000) as u32;
            assert(self@.queue =~= wrote.queue);
        }
        let ghost taken = self@;
        self.process_pending = false;
        assert(self@.queue =~= taken.queue);
    }
}

/// What a stream asks of its buffers, in bytes.
pub struct BufferLimits {
    pub default: i32,
    pub min: i32,
    pub max: i32,
    pub stride: i32,
}

/// Whether the buffers of a stream can be sized.
pub fn limits_fit(rate: u32, frame_bytes: u32) -> (r: bool)
    ensures
        r == (frame_bytes * 8192 <= i32::MAX && (if rate / 100 < 256 {
            256
        } else {
            rate / 100
        }) * frame_bytes <= u32::MAX),
{
    let frames: u32 = if rate / 100 < 256 {
        256
    } else {
        rate / 100
    };
    assert(0 <= frames * frame_bytes <= 0xffff_ffff * 0xffff_ffff) by (nonlinear_arith)
        requires
            frames <= 0xffff_ffff,
            frame_bytes <= 0xffff_ffff,
    ;
    frame_bytes as u64 * 8192 <= i32::MAX as u64 && frames as u64 * frame_bytes as u64
        <= u32::MAX as u64
}

/// Sizes the buffers of a stream: a hundredth of a second by default.
pub fn buffer_limits(rate: u32, frame_bytes: u32) -> (r: BufferLimits)
    requires
        frame_bytes * 8192 <= i32::MAX,
        (if rate / 100 < 256 {
            256
        } else {
            rate / 100
        }) * frame_bytes <= u32::MAX,
    ensures
        r.default == ((if rate / 100 < 256 {
            256
        } else {
            rate / 100
        }) * frame_bytes) as i32,
        r.min == 256 * frame_bytes,
        r.max == 8192 * frame_bytes,
        r.stride == frame_bytes,
{
    let frames: u32 = if rate / 100 < 256 {
        256
    } else {
        rate / 100
    };
    let bytes: u32 = frames * frame_bytes;
    let stride: i32 = frame_bytes as i32;
    BufferLimits { default: bytes as i32, min: stride * 256, max: stride * 8192, stride }
}

/// How many samples the device callback asks for.
pub fn callback_samples(num_frames: i32, channels: usize) -> (r: usize)
    requires
        num_frames > 0 ==> num_frames * channels <= usize::MAX,
    ensures
        r == (if num_frames > 0 {
            num_frames * channels
        } else {
            0
        }),
{
    if num_frames > 0 {
        num_frames as usize * channels
    } else {
        0
    }
}

// ---------------------------------------------------------------------------
// Arithmetic of slots and frames
// ---------------------------------------------------------------------------

proof fn lemma_slot_fits(w: int, ch: int, cap: int)
    requires
        0 <= w < cap,
        0 <= ch,
    ensures
        0 <= w * ch,
        w * ch + ch <= cap * ch,
{
    assert(0 <= w * ch && w * ch + ch <= cap * ch) by (nonlinear_arith)
        requires
            0 <= w < cap,
            0 <= ch,
    ;
}

proof fn lemma_slot_is_large(w: int, ch: int)
    requires
        0 <= w,
        0 < ch,
    ensures
        w <= w * ch,
{
    assert(w <= w * ch) by (nonlinear_arith)
        requires
            0 <= w,
            0 < ch,
    ;
}

proof fn lemma_slots_differ(a: int, b: int, cap: int)
    requires
        0 <= a < b,
        b - a < cap,
    ensures
        a % cap != b % cap,
{
    lemma_fundamental_div_mod(a, cap);
    lemma_fundamental_div_mod(b, cap);
    if a % cap == b % cap {
        let q = b / cap - a / cap;
        assert(b - a == cap * q) by (nonlinear_arith)
            requires
                a == cap * (a / cap) + a % cap,
                b == cap * (b / cap) + b % cap,
                a % cap == b % cap,
                q == b / cap - a / cap,
        ;
        assert(false) by (nonlinear_arith)
            requires
                b - a == cap * q,
                0 < b - a < cap,
        ;
    }
}

proof fn lemma_slots_apart(s: int, w: int, ch: int)
    requires
        s != w,
        0 <= ch,
    ensures
        s * ch + ch <= w * ch || w * ch + ch <= s * ch,
{
    assert(s * ch + ch <= w * ch || w * ch + ch <= s * ch) by (nonlinear_arith)
        requires
            s != w,
            0 <= ch,
    ;
}

proof fn lemma_frame_fits(k: int, ch: int, len: int)
    requires
        0 <= k < len / ch,
        0 < ch,
        0 <= len,
    ensures
        0 <= k * ch,
        k * ch + ch <= len,
{
    lemma_fundamental_div_mod(len, ch);
    assert(0 <= k * ch && k * ch + ch <= len) by (nonlinear_arith)
        requires
            0 <= k < len / ch,
            0 < ch,
            len == ch * (len / ch) + len % ch,
            0 <= len % ch,
    ;
}

proof fn lemma_frame_ends(n: int, ch: int, len: int)
    requires
        n == len / ch,
        0 < ch,
        0 <= len,
    ensures
        0 <= n * ch <= len,
{
    lemma_fundamental_div_mod(len, ch);
    assert(0 <= n * ch <= len) by (nonlinear_arith)
        requires
            n == len / ch,
            0 <= n,
            0 < ch,
            len == ch * (len / ch) + len % ch,
            0 <= len % ch,
    ;
}

proof fn lemma_in_frame(i: int, k: int, ch: int)
    requires
        0 < ch,
        k * ch <= i < (k + 1) * ch,
    ensures
        i / ch == k,
        i % ch == i - k * ch,
        0 <= i - k * ch < ch,
{
    assert(i < k * ch + ch) by (nonlinear_arith)
        requires
            i < (k + 1) * ch,
    ;
    lemma_fundamental_div_mod_converse(i, ch, k, i - k * ch);
}

proof fn lemma_behind_frames(i: int, n: int, ch: int)
    requires
        0 < ch,
        n * ch <= i,
    ensures
        n <= i / ch,
{
    lemma_fundamental_div_mod(i, ch);
    assert(n <= i / ch) by (nonlinear_arith)
        requires
            0 < ch,
            n * ch <= i,
            i == ch * (i / ch) + i % ch,
            i % ch < ch,
    ;
}

proof fn lemma_counted(u: u64, n: nat)
    ensures
        counted(u, n + 1) == (if counted(u, n) == u64::MAX {
            0
        } else {
            counted(u, n) + 1
        }),
{
}

// ---------------------------------------------------------------------------
// What holds of every sink
// ---------------------------------------------------------------------------

/// Writes come back in order: what an empty ring that has room for it was given,
/// whole frame by whole frame, is what the next read of that length yields, and
/// the ring is empty again, with nothing dropped and nothing missing.
pub proof fn law_writes_come_back_in_order(s: SinkView, src: Seq<u32>, dst: Seq<u32>)
    requires
        s.channels > 0,
        s.queue.len() == 0,
        src.len() % s.channels == 0,
        src.len() / s.channels <= s.capacity,
        dst.len() == src.len(),
    ensures
        filled(s.write(src).queue, s.channels, dst) == src,
        s.write(src).dropped == s.dropped,
        s.write(src).read(dst.len() / s.channels).queue == Seq::<Seq<u32>>::empty(),
        s.write(src).read(dst.len() / s.channels).underruns == s.underruns,
{
    let ch = s.channels as int;
    let q = s.write(src).queue;
    assert(s.queue + frames(src, s.channels) =~= frames(src, s.channels));
    assert forall|i: int| 0 <= i < src.len() implies filled(q, s.channels, dst)[i] == src[i] by {
        lemma_fundamental_div_mod(i, ch);
        lemma_fundamental_div_mod(src.len() as int, ch);
        lemma_mod_bound(i, ch);
        assert(0 <= i / ch < src.len() as int / ch && (i / ch) * ch + i % ch == i)
            by (nonlinear_arith)
            requires
                0 < ch,
                0 <= i < src.len(),
                i == ch * (i / ch) + i % ch,
                0 <= i % ch < ch,
                src.len() == ch * (src.len() as int / ch) + src.len() as int % ch,
                src.len() as int % ch == 0,
        ;
        assert(q[i / ch] == frame_at(src, s.channels, i / ch));
    }
    assert(filled(q, s.channels, dst) =~= src);
    assert(s.write(src).read(dst.len() / s.channels).queue =~= Seq::<Seq<u32>>::empty());
}

/// Reading takes frames in the order in which they were written: two reads
/// yield what one read of both lengths does.
pub proof fn law_reads_join(s: SinkView, m: nat, n: nat)
    ensures
        s.read(m).read(n).queue == s.read(m + n).queue,
        s.read(m).read(n).underruns == s.read(m + n).underruns,
{
    assert(s.read(m).read(n).queue =~= s.read(m + n).queue);
}

/// An underrun is padded with silence: behind the frames that are there, every
/// whole frame of the target is zero.
pub proof fn law_underrun_pads_with_silence(queue: Seq<Seq<u32>>, ch: nat, dst: Seq<u32>, i: int)
    requires
        ch > 0,
        0 <= i < dst.len(),
        queue.len() <= i / (ch as int),
        i / (ch as int) <= dst.len() / ch - 1,
    ensures
        filled(queue, ch, dst)[i] == 0,
{
}

/// An overflow drops the oldest frames: the ring holds the latest ones, as many
/// as it has room for, in order, and every frame is held or counted as dropped.
/// A write underruns nothing, and samples behind its last whole frame change
/// nothing.
pub proof fn law_overflow_drops_the_oldest(s: SinkView, src: Seq<u32>)
    requires
        s.channels > 0,
        s.queue.len() <= s.capacity,
    ensures
        ({
            let all = s.queue + frames(src, s.channels);
            let after = s.write(src);
            &&& after.queue.len() <= s.capacity
            &&& after.queue == all.skip(all.len() - after.queue.len())
            &&& after.queue.len() + after.dropped == all.len() + s.dropped
            &&& after.queue.len() == least(all.len(), s.capacity)
            &&& after.dropped == s.dropped + excess(all.len(), s.capacity)
            &&& after.underruns == s.underruns
            &&& after == s.write(src.take(src.len() - src.len() as int % s.channels as int))
        }),
{
    let ch = s.channels as int;
    let all = s.queue + frames(src, s.channels);
    assert(all.skip(0) =~= all);
    let n = src.len() as int / ch;
    lemma_fundamental_div_mod(src.len() as int, ch);
    lemma_mod_bound(src.len() as int, ch);
    let whole = src.take(src.len() - src.len() as int % ch);
    assert(whole.len() == n * ch) by (nonlinear_arith)
        requires
            whole.len() == src.len() - src.len() as int % ch,
            src.len() == ch * n + src.len() as int % ch,
    ;
    lemma_fundamental_div_mod_converse(whole.len() as int, ch, n, 0);
    assert forall|k: int| 0 <= k < n implies #[trigger] frames(whole, s.channels)[k] == frames(
        src,
        s.channels,
    )[k] by {
        lemma_frame_fits(k, ch, whole.len() as int);
        assert(frames(whole, s.channels)[k] =~= frames(src, s.channels)[k]);
    }
    assert(frames(whole, s.channels) =~= frames(src, s.channels));
}

/// Writing in pieces is writing at once: two writes of whole frames leave the
/// ring as one write of both does.
pub proof fn law_writes_join(s: SinkView, a: Seq<u32>, b: Seq<u32>)
    requires
        s.channels > 0,
        s.queue.len() <= s.capacity,
        a.len() % s.channels == 0,
    ensures
        s.write(a).write(b) == s.write(a + b),
{
    let ch = s.channels as int;
    let fa = frames(a, s.channels);
    let fb = frames(b, s.channels);
    let fab = frames(a + b, s.channels);
    lemma_fundamental_div_mod(a.len() as int, ch);
    lemma_fundamental_div_mod(b.len() as int, ch);
    let m = a.len() as int / ch;
    let n = b.len() as int / ch;
    assert(a.len() + b.len() == (m + n) * ch + b.len() as int % ch) by (nonlinear_arith)
        requires
            a.len() == ch * m + a.len() as int % ch,
            a.len() as int % ch == 0,
            b.len() == ch * n + b.len() as int % ch,
    ;
    lemma_fundamental_div_mod_converse(
        (a.len() + b.len()) as int,
        ch,
        m + n,
        b.len() as int % ch,
    );
    assert(fab.len() == fa.len() + fb.len());
    assert forall|k: int| 0 <= k < fab.len() implies fab[k] == (fa + fb)[k] by {
        if k < m {
            lemma_frame_fits(k, ch, a.len() as int);
            assert(fab[k] =~= fa[k]);
        } else {
            lemma_frame_fits(k - m, ch, b.len() as int);
            assert(k * ch == a.len() + (k - m) * ch) by (nonlinear_arith)
                requires
                    a.len() == ch * m,
            ;
            assert(fab[k] =~= fb[k - m]);
        }
    }
    assert(fab =~= fa + fb);
    let x = latest(s.queue + fa, s.capacity) + fb;
    let y = s.queue + fab;
    assert(latest(x, s.capacity) =~= latest(y, s.capacity));
    assert(s.write(a).write(b).dropped == s.write(a + b).dropped);
    assert(s.write(a).write(b).written == s.write(a + b).written);
}


/// The four bytes from `i` on are those of the sample `v`, the lowest first.
pub open spec fn bytes_make(bytes: Seq<u8>, i: int, v: u32) -> bool {
    v as int == bytes[i] as int + 256 * bytes[i + 1] as int + 65536 * bytes[i + 2] as int
        + 16777216 * bytes[i + 3] as int
}

/// A buffer adds the audio that its chunk covers, and nothing else. The chunk is
/// the `size` bytes from `offset` on, as far as the buffer reaches. Each whole
/// frame of it is queued behind what was there, sample by sample, the oldest
/// frames make room where there is none, and each of them is counted. A chunk
/// without a whole frame changes nothing but that no buffer is awaited any more.
pub proof fn law_a_buffer_adds_what_its_chunk_covers(
    s: SinkView,
    offset: nat,
    size: nat,
    bytes: Seq<u8>,
)
    requires
        s.channels > 0,
        s.queue.len() <= s.capacity,
    ensures
        ({
            let ch = s.channels as int;
            let from = if offset <= bytes.len() {
                offset as int
            } else {
                bytes.len() as int
            };
            let end = if offset + size <= bytes.len() {
                (offset + size) as int
            } else {
                bytes.len() as int
            };
            let n = (end - from) / (4 * ch);
            let all = s.queue.len() + n;
            let lost = if all <= s.capacity {
                0
            } else {
                all - s.capacity
            };
            let after = processed(s, offset, size, bytes);
            &&& 0 <= n && n * (4 * ch) <= end - from < (n + 1) * (4 * ch)
            &&& after.queue.len() == all - lost
            &&& after.dropped == s.dropped + lost
            &&& after.written == s.written + n
            &&& forall|i: int|
                0 <= i && lost + i < s.queue.len() ==> #[trigger] after.queue[i] == s.queue[lost
                    + i]
            &&& forall|i: int|
                0 <= i < after.queue.len() && s.queue.len() <= lost + i
                    ==> (#[trigger] after.queue[i]).len() == ch
            &&& forall|i: int, c: int|
                0 <= i < after.queue.len() && s.queue.len() <= lost + i && 0 <= c < ch
                    ==> bytes_make(
                    bytes,
                    from + 4 * ((lost + i - s.queue.len()) * ch + c),
                    #[trigger] after.queue[i][c],
                )
            &&& n == 0 ==> after.queue == s.queue && after.buffer_frames == s.buffer_frames
            &&& 0 < n <= u32::MAX ==> after.buffer_frames == n
            &&& !after.pending
            &&& after.underruns == s.underruns
            &&& after.rate == s.rate && after.channels == s.channels && after.capacity == s.capacity
            &&& after.driving == s.driving && after.connected == s.connected
        }),
{
    let ch = s.channels as int;
    let (from, n) = window_of(offset, size, bytes.len(), 4 * s.channels);
    let room = least(size, (bytes.len() - from) as nat) as int;
    lemma_fundamental_div_mod(room, 4 * ch);
    lemma_mod_bound(room, 4 * ch);
    assert(n * (4 * ch) <= room < (n + 1) * (4 * ch)) by (nonlinear_arith)
        requires
            room == (4 * ch) * (n as int) + room % (4 * ch),
            0 <= room % (4 * ch) < 4 * ch,
    ;
    let src = samples(bytes, from as int, n * s.channels);
    lemma_fundamental_div_mod_converse(n * ch, ch, n as int, 0);
    let fs = frames(src, s.channels);
    let all = s.queue + fs;
    let after = processed(s, offset, size, bytes);
    if n > 0 {
        assert(fs.len() == n);
        assert(after.queue == latest(all, s.capacity));
        let lost = all.len() - after.queue.len();
        assert forall|i: int, c: int|
            0 <= i < after.queue.len() && s.queue.len() <= lost + i && 0 <= c < ch implies bytes_make(
            bytes,
            from + 4 * ((lost + i - s.queue.len()) * ch + c),
            #[trigger] after.queue[i][c],
        ) by {
            let k = lost + i - s.queue.len();
            assert(after.queue[i] == fs[k]);
            assert(0 <= k * ch + c < n * ch) by (nonlinear_arith)
                requires
                    0 <= k < n,
                    0 <= c < ch,
            ;
            assert(fs[k][c] == src[k * ch + c]);
        }
    }
}

/// What a buffer holds outside its chunk does not matter: two buffers with the
/// same bytes in the chunk leave the same sink.
pub proof fn law_only_the_chunk_is_played(
    s: SinkView,
    offset: nat,
    size: nat,
    a: Seq<u8>,
    b: Seq<u8>,
)
    requires
        s.channels > 0,
        offset + size <= a.len(),
        offset + size <= b.len(),
        a.subrange(offset as int, (offset + size) as int) == b.subrange(
            offset as int,
            (offset + size) as int,
        ),
    ensures
        processed(s, offset, size, a) == processed(s, offset, size, b),
        processed(s, offset, size, a) == processed(
            s,
            0,
            size,
            a.subrange(offset as int, (offset + size) as int),
        ),
{
    lemma_chunk_alone(s, offset, size, a);
    lemma_chunk_alone(s, offset, size, b);
}

/// A chunk is played as if the buffer held nothing else.
proof fn lemma_chunk_alone(s: SinkView, offset: nat, size: nat, a: Seq<u8>)
    requires
        s.channels > 0,
        offset + size <= a.len(),
    ensures
        processed(s, offset, size, a) == processed(
            s,
            0,
            size,
            a.subrange(offset as int, (offset + size) as int),
        ),
{
    let ch = s.channels as int;
    let t = a.subrange(offset as int, (offset + size) as int);
    let (from, n) = window_of(offset, size, a.len(), 4 * s.channels);
    lemma_fundamental_div_mod(size as int, 4 * ch);
    lemma_mod_bound(size as int, 4 * ch);
    assert(4 * (n * ch) <= size) by (nonlinear_arith)
        requires
            size == (4 * ch) * (n as int) + size as int % (4 * ch),
            0 <= size as int % (4 * ch),
    ;
    assert(samples(a, from as int, n * s.channels) =~= samples(t, 0, n * s.channels));
}

/// The ring has room for the audio that is asked for, rounded down to whole
/// frames, and for the smallest ring at least.
pub proof fn law_the_ring_has_room(rate: u32, buffer_ms: u32)
    ensures
        ring_size(rate, buffer_ms) >= 256,
        ring_size(rate, buffer_ms) > 256 ==> ring_size(rate, buffer_ms) * 1000 <= rate * buffer_ms
            < (ring_size(rate, buffer_ms) + 1) * 1000,
        rate * buffer_ms >= 256000 ==> ring_size(rate, buffer_ms) * 1000 <= rate * buffer_ms < (
        ring_size(rate, buffer_ms) + 1) * 1000,
{
}

/// A read takes the oldest frames, in order, sample by sample, and leaves the
/// others; where there are too few, what is missing is silence and is counted.
/// Samples behind the last whole frame of the target stay.
pub proof fn law_a_read_takes_the_oldest(s: SinkView, dst: Seq<u32>, k: int, c: int)
    requires
        s.channels > 0,
        0 <= k,
        0 <= c < s.channels,
        k * s.channels + c < dst.len(),
    ensures
        ({
            let ch = s.channels as int;
            let n = dst.len() / s.channels;
            let i = k * ch + c;
            let out = filled(s.queue, s.channels, dst);
            let after = s.read(n);
            &&& out.len() == dst.len()
            &&& k < n && k < s.queue.len() ==> out[i] == s.queue[k][c]
            &&& k < n && k >= s.queue.len() ==> out[i] == 0
            &&& k >= n ==> out[i] == dst[i]
            &&& n <= s.queue.len() ==> after.queue == s.queue.skip(n as int) && after.underruns
                == s.underruns
            &&& n > s.queue.len() ==> after.queue.len() == 0
            &&& n > s.queue.len() && s.underruns + (n - s.queue.len()) <= u64::MAX
                ==> after.underruns == s.underruns + (n - s.queue.len())
            &&& after.dropped == s.dropped && after.written == s.written
        }),
{
    let ch = s.channels as int;
    let i = k * ch + c;
    assert(0 <= i) by (nonlinear_arith)
        requires
            0 <= k,
            0 <= c,
            0 < ch,
            i == k * ch + c,
    ;
    lemma_fundamental_div_mod_converse(i, ch, k, c);
}

/// The graph is asked for more where the stream runs, is connected, waits for no
/// buffer, and holds no more than 256 frames or half of what the graph hands over
/// at a time; and never twice for one buffer.
pub proof fn law_the_graph_is_asked_when_the_ring_runs_low(s: SinkView)
    ensures
        s.must_trigger() ==> s.driving && s.connected && !s.pending,
        s.driving && s.connected && !s.pending && s.queue.len() <= 256 ==> s.must_trigger(),
        s.driving && s.connected && !s.pending && s.buffer_frames > 0 && 2 * s.queue.len()
            <= s.buffer_frames ==> s.must_trigger(),
        s.driving && s.connected && !s.pending && s.buffer_frames == 0 && 100 * s.queue.len()
            <= s.rate ==> s.must_trigger(),
        s.buffer_frames > 0 && s.queue.len() > 256 && 2 * s.queue.len() > s.buffer_frames
            ==> !s.must_trigger(),
        s.buffer_frames == 0 && s.queue.len() > 256 && 100 * s.queue.len() > s.rate
            ==> !s.must_trigger(),
        !(SinkView { pending: true, ..s }).must_trigger(),
{
}

/// Discarding what the ring holds counts nothing and changes nothing else.
pub proof fn law_clearing_counts_nothing(s: SinkView)
    ensures
        s.clear().queue.len() == 0,
        s.clear().dropped == s.dropped && s.clear().underruns == s.underruns && s.clear().written
            == s.written,
        s.clear() == (SinkView { queue: s.clear().queue, ..s }),
{
}

} // verus!
