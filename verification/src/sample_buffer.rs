use vstd::prelude::*;

verus! {

/// The one decoded waveform, shared read-only by every voice.
///
/// Amplitudes are fixed-point integers (the caller picks the scale); the
/// buffer is built once, before any voice can observe it, and never mutated
/// afterwards.
pub struct SampleBuffer {
    samples: Vec<i32>,
}

impl View for SampleBuffer {
    type V = Seq<i32>;

    closed spec fn view(&self) -> Seq<i32> {
        self.samples@
    }
}

impl SampleBuffer {
    /// Wraps an already-decoded sequence of amplitudes.
    pub fn new(samples: Vec<i32>) -> (r: Self)
        ensures
            r@ == samples@,
    {
        SampleBuffer { samples }
    }

    pub fn len(&self) -> (r: usize)
        ensures
            r == self@.len(),
    {
        self.samples.len()
    }

    pub fn is_empty(&self) -> (r: bool)
        ensures
            r == (self@.len() == 0),
    {
        self.samples.len() == 0
    }

    /// The amplitude at index `i`; callers must stay inside the buffer.
    pub fn get(&self, i: usize) -> (r: i32)
        requires
            i < self@.len(),
        ensures
            r == self@[i as int],
    {
        self.samples[i]
    }
}

/// The recovery rule for a single corrupt source frame: a frame that failed
/// to decode becomes silence (amplitude zero) instead of aborting the whole
/// load, so a corrupt source never destabilizes playback of valid frames.
pub fn decoded_frame_or_silence(frame: Option<i32>) -> (r: i32)
    ensures
        r == (match frame {
            Option::Some(amplitude) => amplitude,
            Option::None => 0,
        }),
{
    match frame {
        Option::Some(amplitude) => amplitude,
        Option::None => 0,
    }
}

/// The buffer lives in memory, so its length fits a machine word.
pub proof fn lemma_buffer_len_fits(buffer: &SampleBuffer)
    ensures
        buffer@.len() <= usize::MAX,
{
    vstd::std_specs::vec::axiom_spec_len(&buffer.samples);
}

} // verus!
