use vstd::prelude::*;

use crate::sample_buffer::SampleBuffer;

verus! {

/// True once a cursor has run off the end of the buffer: such a voice emits
/// no further samples.
pub open spec fn voice_exhausted(position: nat, buffer_len: nat) -> bool {
    position >= buffer_len
}

/// One in-flight playback of the shared [`SampleBuffer`]: a cursor that
/// starts at the first sample and advances by exactly one per emitted value.
///
/// The buffer itself is passed to each call rather than stored here, so every
/// voice reads the same immutable waveform.
#[derive(Clone, Copy)]
pub struct PlayingSample {
    current_sample_index: usize,
}

impl View for PlayingSample {
    type V = nat;

    closed spec fn view(&self) -> nat {
        self.current_sample_index as nat
    }
}

impl PlayingSample {
    /// Spawns a voice at position zero.
    pub fn new() -> (r: Self)
        ensures
            r@ == 0,
    {
        PlayingSample { current_sample_index: 0 }
    }

    pub fn position(&self) -> (r: usize)
        ensures
            r == self@,
    {
        self.current_sample_index
    }

    /// Emits the amplitude under the cursor and advances the cursor by one.
    ///
    /// Must not be called on an exhausted voice; the pool checks exhaustion
    /// before every call, so no out-of-bounds read can happen.
    pub fn get_next_sample(&mut self, buffer: &SampleBuffer) -> (r: i32)
        requires
            !voice_exhausted(old(self)@, buffer@.len()),
        ensures
            r == buffer@[old(self)@ as int],
            final(self)@ == old(self)@ + 1,
    {
        let sample = buffer.get(self.current_sample_index);
        proof {
            crate::sample_buffer::lemma_buffer_len_fits(buffer);
        }
        self.current_sample_index = self.current_sample_index + 1;
        sample
    }

    /// True iff the voice is exhausted and should leave the pool.
    pub fn should_be_removed(&self, buffer: &SampleBuffer) -> (r: bool)
        ensures
            r == voice_exhausted(self@, buffer@.len()),
    {
        self.current_sample_index >= buffer.len()
    }
}

/// Law (voice lifecycle): a voice spawned at position zero over a non-empty
/// buffer is not exhausted; after `calls` single-sample advances its position
/// is `calls` (by [`PlayingSample::get_next_sample`]'s contract), and it is
/// exhausted exactly when the whole buffer has been emitted.
pub proof fn lemma_voice_lifecycle(buffer_len: nat, calls: nat)
    ensures
        buffer_len > 0 ==> !voice_exhausted(0, buffer_len),
        calls < buffer_len ==> !voice_exhausted(calls, buffer_len),
        voice_exhausted(buffer_len, buffer_len),
{
}

} // verus!
