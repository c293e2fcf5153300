use vstd::prelude::*;

use crate::sample_buffer::SampleBuffer;
use crate::voice::{voice_exhausted, PlayingSample};

verus! {

/// Largest pool a single mixing pass accepts: with 32-bit amplitudes this
/// keeps the summed frame inside an `i64`.
pub const MAX_MIX_VOICES: usize = 0x8000_0000;

/// The amplitude one frame contributes to each channel: the sum, over the
/// pool in spawn order, of each voice's current sample. An exhausted voice
/// contributes nothing (it is about to be retired).
pub open spec fn frame_mix(positions: Seq<nat>, buffer: Seq<i32>) -> int
    decreases positions.len(),
{
    if positions.len() == 0 {
        0
    } else {
        frame_mix(positions.drop_last(), buffer) + if positions.last() < buffer.len() {
            buffer[positions.last() as int] as int
        } else {
            0int
        }
    }
}

/// Every live cursor advanced by one sample; an exhausted cursor stays put.
pub open spec fn advanced(positions: Seq<nat>, buffer_len: nat) -> Seq<nat> {
    positions.map_values(
        |p: nat|
            if p < buffer_len {
                (p + 1) as nat
            } else {
                p
            },
    )
}

/// Only the voices that still have samples left to play, in their original
/// order.
pub open spec fn live_voices(positions: Seq<nat>, buffer_len: nat) -> Seq<nat>
    decreases positions.len(),
{
    if positions.len() == 0 {
        Seq::empty()
    } else if positions.last() < buffer_len {
        live_voices(positions.drop_last(), buffer_len).push(positions.last())
    } else {
        live_voices(positions.drop_last(), buffer_len)
    }
}

/// The cursors of a sequence of voices, in the same order.
pub open spec fn positions_of(voices: Seq<PlayingSample>) -> Seq<nat> {
    voices.map_values(|v: PlayingSample| v@)
}

/// The unordered-by-meaning, ordered-by-spawn collection of voices currently
/// playing. Mutated only from block processing: insertion on note-on, bulk
/// removal once exhausted.
pub struct VoicePool {
    voices: Vec<PlayingSample>,
}

impl View for VoicePool {
    type V = Seq<nat>;

    closed spec fn view(&self) -> Seq<nat> {
        positions_of(self.voices@)
    }
}

impl VoicePool {
    /// An empty pool: no voice is playing until the first note-on.
    pub fn new() -> (r: Self)
        ensures
            r@ == Seq::<nat>::empty(),
    {
        let r = VoicePool { voices: Vec::new() };
        proof {
            assert(r@ =~= Seq::<nat>::empty());
        }
        r
    }

    pub fn len(&self) -> (r: usize)
        ensures
            r == self@.len(),
    {
        self.voices.len()
    }

    pub fn is_empty(&self) -> (r: bool)
        ensures
            r == (self@.len() == 0),
    {
        self.voices.len() == 0
    }

    /// The cursor of the voice at slot `k`, for inspection.
    pub fn position_at(&self, k: usize) -> (r: usize)
        requires
            k < self@.len(),
        ensures
            r as nat == self@[k as int],
    {
        self.voices[k].position()
    }

    /// Inserts a fresh voice at position zero (a note-on took effect).
    pub fn spawn(&mut self)
        ensures
            final(self)@ == old(self)@.push(0nat),
    {
        self.voices.push(PlayingSample::new());
        proof {
            assert(self@ =~= old(self)@.push(0nat));
        }
    }

    /// One frame of mixing: returns the sum of every live voice's current
    /// sample and advances each live cursor by one. Exhausted voices are
    /// never read (no out-of-bounds access) and are left for
    /// [`VoicePool::retire_exhausted`].
    pub fn mix_frame(&mut self, buffer: &SampleBuffer) -> (mix: i64)
        requires
            old(self)@.len() <= MAX_MIX_VOICES,
        ensures
            mix == frame_mix(old(self)@, buffer@),
            final(self)@ == advanced(old(self)@, buffer@.len()),
    {
        let ghost pool0: Seq<nat> = self@;
        let ghost buf: Seq<i32> = buffer@;
        let mut advanced_voices: Vec<PlayingSample> = Vec::new();
        let mut mix: i64 = 0;
        let mut v: usize = 0;
        while v < self.voices.len()
            invariant
                v <= self.voices.len(),
                self@ == pool0,
                pool0.len() == self.voices@.len(),
                pool0.len() <= MAX_MIX_VOICES,
                buffer@ == buf,
                advanced_voices@.len() == v,
                forall|i: int|
                    0 <= i < v ==> (#[trigger] advanced_voices@[i])@ == (if pool0[i] < buf.len() {
                        pool0[i] + 1
                    } else {
                        pool0[i]
                    }),
                mix == frame_mix(pool0.take(v as int), buf),
                -(v as int) * 0x8000_0000 <= mix <= (v as int) * 0x8000_0000,
            decreases self.voices.len() - v,
        {
            let mut voice = self.voices[v];
            proof {
                assert(voice@ == pool0[v as int]);
                assert(pool0.take(v as int + 1).drop_last() =~= pool0.take(v as int));
                assert(pool0.take(v as int + 1).last() == pool0[v as int]);
            }
            if !voice.should_be_removed(buffer) {
                let sample = voice.get_next_sample(buffer);
                mix = mix + (sample as i64);
            }
            advanced_voices.push(voice);
            v = v + 1;
        }
        proof {
            assert(pool0.take(pool0.len() as int) =~= pool0);
            assert(positions_of(advanced_voices@) =~= advanced(pool0, buf.len()));
        }
        self.voices = advanced_voices;
        mix
    }

    /// Bulk removal of every exhausted voice; the block processor calls this
    /// after each frame so no stale voice survives into the next frame.
    pub fn retire_exhausted(&mut self, buffer: &SampleBuffer)
        ensures
            final(self)@ == live_voices(old(self)@, buffer@.len()),
    {
        let ghost pool0: Seq<nat> = self@;
        let ghost buf_len: nat = buffer@.len();
        let mut kept: Vec<PlayingSample> = Vec::new();
        let mut v: usize = 0;
        while v < self.voices.len()
            invariant
                v <= self.voices.len(),
                self@ == pool0,
                pool0.len() == self.voices@.len(),
                buffer@.len() == buf_len,
                positions_of(kept@) == live_voices(pool0.take(v as int), buf_len),
            decreases self.voices.len() - v,
        {
            let voice = self.voices[v];
            proof {
                assert(voice@ == pool0[v as int]);
                assert(pool0.take(v as int + 1).drop_last() =~= pool0.take(v as int));
                assert(pool0.take(v as int + 1).last() == pool0[v as int]);
            }
            if !voice.should_be_removed(buffer) {
                kept.push(voice);
                proof {
                    assert(positions_of(kept@) =~= live_voices(pool0.take(v as int + 1), buf_len));
                }
            }
            v = v + 1;
        }
        proof {
            assert(pool0.take(pool0.len() as int) =~= pool0);
        }
        self.voices = kept;
    }
}

/// Law (mixing additivity): mixing two groups of voices side by side sums
/// their individual mixes exactly; nothing is averaged or overwritten.
pub proof fn lemma_frame_mix_additive(a: Seq<nat>, b: Seq<nat>, buffer: Seq<i32>)
    ensures
        frame_mix(a + b, buffer) == frame_mix(a, buffer) + frame_mix(b, buffer),
    decreases b.len(),
{
    if b.len() == 0 {
        assert(a + b =~= a);
    } else {
        lemma_frame_mix_additive(a, b.drop_last(), buffer);
        assert((a + b).drop_last() =~= a + b.drop_last());
        assert((a + b).last() == b.last());
    }
}

/// `k` voices all standing at the same cursor.
pub open spec fn uniform_positions(k: nat, position: nat) -> Seq<nat> {
    Seq::new(k, |i: int| position)
}

/// Law (simultaneous voices): `k` voices standing at the same in-range
/// cursor mix to exactly `k` times that sample.
pub proof fn lemma_frame_mix_uniform(k: nat, position: nat, buffer: Seq<i32>)
    requires
        position < buffer.len(),
    ensures
        frame_mix(uniform_positions(k, position), buffer) == k * buffer[position as int],
    decreases k,
{
    let s = uniform_positions(k, position);
    let amp = buffer[position as int] as int;
    if k > 0 {
        lemma_frame_mix_uniform((k - 1) as nat, position, buffer);
        assert(s.drop_last() =~= uniform_positions((k - 1) as nat, position));
        assert(s.last() == position);
        assert(k * amp == (k - 1) * amp + amp) by (nonlinear_arith);
    } else {
        assert(k * amp == 0) by (nonlinear_arith)
            requires
                k == 0,
        ;
    }
}

/// A frame's mix is bounded by the pool size times the amplitude range.
pub proof fn lemma_frame_mix_bound(positions: Seq<nat>, buffer: Seq<i32>)
    ensures
        -(positions.len() as int) * 0x8000_0000 <= frame_mix(positions, buffer) <= (
        positions.len() as int) * 0x8000_0000,
    decreases positions.len(),
{
    if positions.len() > 0 {
        lemma_frame_mix_bound(positions.drop_last(), buffer);
    }
}

/// Retiring keeps only live voices: every survivor still has samples left.
pub proof fn lemma_live_voices_live(positions: Seq<nat>, buffer_len: nat)
    ensures
        forall|k: int|
            0 <= k < live_voices(positions, buffer_len).len() ==> !voice_exhausted(
                live_voices(positions, buffer_len)[k],
                buffer_len,
            ),
    decreases positions.len(),
{
    if positions.len() > 0 {
        lemma_live_voices_live(positions.drop_last(), buffer_len);
        let l = live_voices(positions, buffer_len);
        let ld = live_voices(positions.drop_last(), buffer_len);
        assert forall|k: int| 0 <= k < l.len() implies !voice_exhausted(l[k], buffer_len) by {
            if positions.last() < buffer_len {
                if k < ld.len() {
                    assert(l[k] == ld[k]);
                } else {
                    assert(l[k] == positions.last());
                }
            }
        }
    }
}

/// Retiring never grows the pool.
pub proof fn lemma_live_voices_len(positions: Seq<nat>, buffer_len: nat)
    ensures
        live_voices(positions, buffer_len).len() <= positions.len(),
    decreases positions.len(),
{
    if positions.len() > 0 {
        lemma_live_voices_len(positions.drop_last(), buffer_len);
    }
}

} // verus!
