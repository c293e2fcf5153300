use vstd::prelude::*;

use crate::event::{
    events_sorted, events_through, lemma_boundary_counts, lemma_count_bounds,
    lemma_counts_before_block, lemma_note_ons_at_diff, note_ons_at, note_ons_below,
    note_ons_through, NoteEvent,
};
use crate::pool::{
    advanced, frame_mix, lemma_frame_mix_bound, lemma_live_voices_len, lemma_live_voices_live,
    live_voices, VoicePool, MAX_MIX_VOICES,
};
use crate::sample_buffer::SampleBuffer;

verus! {

/// Largest starting pool plus per-block event count the processor accepts:
/// with 32-bit amplitudes this keeps every mixed frame within the output
/// headroom.
pub const MAX_BLOCK_VOICES: usize = 0x4000_0000;

/// The signal already in a channel must stay inside this magnitude so that
/// one block's mix can be added on top without overflowing an `i64`.
pub const OUTPUT_HEADROOM: i64 = 0x4000_0000_0000_0000;

/// `k` voices freshly spawned at position zero (an empty pool slice when
/// `k` is not positive).
pub open spec fn zero_positions(k: int) -> Seq<nat> {
    Seq::new(
        if k >= 0 {
            k as nat
        } else {
            0nat
        },
        |i: int| 0nat,
    )
}

/// The pool as it stands while frame `frame` is mixed: the earlier frames
/// have each advanced the live cursors and retired the exhausted voices, and
/// the note-ons due at `frame` have just spawned at position zero.
pub open spec fn pool_before_mix(
    start: Seq<nat>,
    events: Seq<NoteEvent>,
    buffer_len: nat,
    frame: nat,
) -> Seq<nat>
    decreases frame,
{
    if frame == 0 {
        start + zero_positions(note_ons_at(events, 0))
    } else {
        live_voices(
            advanced(
                pool_before_mix(start, events, buffer_len, (frame - 1) as nat),
                buffer_len,
            ),
            buffer_len,
        ) + zero_positions(note_ons_at(events, frame as int))
    }
}

/// The amplitude one block adds to every channel at frame `frame`.
pub open spec fn block_mix_at(
    start: Seq<nat>,
    events: Seq<NoteEvent>,
    buffer: Seq<i32>,
    frame: nat,
) -> int {
    frame_mix(pool_before_mix(start, events, buffer.len(), frame), buffer)
}

/// The pool once a block of `frames` frames has completed (the last frame's
/// cleanup included).
pub open spec fn pool_after_block(
    start: Seq<nat>,
    events: Seq<NoteEvent>,
    buffer_len: nat,
    frames: nat,
) -> Seq<nat> {
    if frames == 0 {
        start
    } else {
        live_voices(
            advanced(
                pool_before_mix(start, events, buffer_len, (frames - 1) as nat),
                buffer_len,
            ),
            buffer_len,
        )
    }
}

/// While frame `frame` is mixed the pool holds at most the starting voices
/// plus one voice per note-on drained so far.
pub proof fn lemma_pool_before_mix_len(
    start: Seq<nat>,
    events: Seq<NoteEvent>,
    buffer_len: nat,
    frame: nat,
)
    ensures
        pool_before_mix(start, events, buffer_len, frame).len() <= start.len() + note_ons_through(
            events,
            frame as int,
        ),
    decreases frame,
{
    lemma_note_ons_at_diff(events, frame as int);
    lemma_count_bounds(events, frame as int);
    if frame == 0 {
        lemma_counts_before_block(events, -1);
    } else {
        lemma_pool_before_mix_len(start, events, buffer_len, (frame - 1) as nat);
        let prev = pool_before_mix(start, events, buffer_len, (frame - 1) as nat);
        lemma_live_voices_len(advanced(prev, buffer_len), buffer_len);
    }
}

/// The bus layouts the sampler accepts: it takes no audio input and can
/// write to any positive number of output channels.
pub fn accepts_bus_config(num_input_channels: u32, num_output_channels: u32) -> (r: bool)
    ensures
        r == (num_input_channels == 0 && num_output_channels > 0),
{
    num_input_channels == 0 && num_output_channels > 0
}

/// Drives one audio block over the channels in `output` (all of one length,
/// the block length): at each frame it first drains every event due by that
/// frame — a note-on spawns one voice, any other event is ignored — then
/// adds the summed signal of every live voice onto each channel's existing
/// value (the same value on every channel; each cursor advances once per
/// frame), and finally retires the voices that became exhausted. Returns how
/// many events were still pending when the block ended (timing at or past
/// the block length): those are surfaced to the caller, never silently
/// dropped.
pub fn process_block(
    pool: &mut VoicePool,
    buffer: &SampleBuffer,
    events: &Vec<NoteEvent>,
    output: &mut Vec<Vec<i64>>,
) -> (leftover: usize)
    requires
        events_sorted(events@),
        old(pool)@.len() + events@.len() <= MAX_BLOCK_VOICES,
        old(output)@.len() > 0,
        forall|c: int|
            0 <= c < old(output)@.len() ==> (#[trigger] old(output)@[c])@.len()
                == old(output)@[0]@.len(),
        forall|c: int, s: int|
            0 <= c < old(output)@.len() && 0 <= s < old(output)@[c]@.len()
                ==> -OUTPUT_HEADROOM <= (#[trigger] old(output)@[c]@[s]) <= OUTPUT_HEADROOM,
    ensures
        final(output)@.len() == old(output)@.len(),
        forall|c: int|
            0 <= c < final(output)@.len() ==> (#[trigger] final(output)@[c])@.len()
                == old(output)@[c]@.len(),
        forall|c: int, s: int|
            0 <= c < final(output)@.len() && 0 <= s < final(output)@[c]@.len()
                ==> (#[trigger] final(output)@[c]@[s]) == old(output)@[c]@[s] + block_mix_at(
                old(pool)@,
                events@,
                buffer@,
                s as nat,
            ),
        final(pool)@ == pool_after_block(
            old(pool)@,
            events@,
            buffer@.len(),
            old(output)@[0]@.len() as nat,
        ),
        old(output)@[0]@.len() > 0 ==> forall|k: int|
            0 <= k < final(pool)@.len() ==> (#[trigger] final(pool)@[k]) < buffer@.len(),
        leftover == events@.len() - events_through(events@, old(output)@[0]@.len() - 1),
        leftover <= events@.len(),
{
    let ghost start: Seq<nat> = pool@;
    let ghost evs: Seq<NoteEvent> = events@;
    let ghost buf: Seq<i32> = buffer@;
    let ghost out0: Seq<Vec<i64>> = output@;
    let n = output[0].len();
    let channels = output.len();
    proof {
        lemma_counts_before_block(evs, -1);
    }
    let mut next_event: usize = 0;
    let mut frame: usize = 0;
    while frame < n
        invariant
            frame <= n,
            events@ == evs,
            buffer@ == buf,
            events_sorted(evs),
            start.len() + evs.len() <= MAX_BLOCK_VOICES,
            channels == out0.len(),
            channels > 0,
            n == out0[0]@.len(),
            output@.len() == channels,
            forall|c: int| 0 <= c < channels ==> (#[trigger] output@[c])@.len() == n,
            forall|c: int, s: int|
                0 <= c < channels && frame <= s < n ==> (#[trigger] output@[c]@[s]) == out0[c]@[s],
            forall|c: int, s: int|
                0 <= c < channels && 0 <= s < n ==> -OUTPUT_HEADROOM <= (#[trigger] out0[c]@[s])
                    <= OUTPUT_HEADROOM,
            forall|c: int, s: int|
                0 <= c < channels && 0 <= s < frame ==> (#[trigger] output@[c]@[s]) == out0[c]@[s]
                    + block_mix_at(start, evs, buf, s as nat),
            next_event <= evs.len(),
            forall|j: int|
                0 <= j < next_event ==> (#[trigger] evs[j].spec_timing()) <= frame - 1,
            forall|j: int|
                next_event <= j < evs.len() ==> (#[trigger] evs[j].spec_timing()) > frame - 1,
            next_event == events_through(evs, frame - 1),
            pool@ == pool_after_block(start, evs, buf.len(), frame as nat),
            pool@.len() <= start.len() + note_ons_through(evs, frame - 1),
        decreases n - frame,
    {
        let ghost frame_i = frame as int;
        let ghost idx0 = next_event as int;
        let ghost pool_frame_start = pool@;
        while next_event < events.len() && events[next_event].timing() as usize <= frame
            invariant
                events@ == evs,
                events_sorted(evs),
                idx0 <= next_event <= evs.len(),
                frame_i == frame as int,
                0 <= frame_i,
                forall|j: int|
                    0 <= j < next_event ==> (#[trigger] evs[j].spec_timing()) <= frame_i,
                forall|j: int|
                    next_event <= j < evs.len() ==> (#[trigger] evs[j].spec_timing()) >= frame_i,
                note_ons_below(evs, idx0) <= note_ons_below(evs, next_event as int),
                pool@ == pool_frame_start + zero_positions(
                    note_ons_below(evs, next_event as int) - note_ons_below(evs, idx0),
                ),
            decreases evs.len() - next_event,
        {
            let ev = events[next_event];
            if ev.note_on() {
                pool.spawn();
            }
            next_event = next_event + 1;
            proof {
                assert(note_ons_below(evs, next_event as int) == note_ons_below(
                    evs,
                    next_event as int - 1,
                ) + if evs[next_event as int - 1].is_note_on() {
                    1int
                } else {
                    0int
                });
                assert(pool@ =~= pool_frame_start + zero_positions(
                    note_ons_below(evs, next_event as int) - note_ons_below(evs, idx0),
                ));
            }
        }
        proof {
            assert forall|j: int|
                next_event <= j < evs.len() implies (#[trigger] evs[j].spec_timing())
                > frame_i by {
                assert(evs[next_event as int].spec_timing() > frame_i);
                assert(evs[next_event as int].spec_timing() <= evs[j].spec_timing());
            }
            lemma_boundary_counts(evs, frame_i, next_event as int);
            lemma_boundary_counts(evs, frame_i - 1, idx0);
            lemma_note_ons_at_diff(evs, frame_i);
            assert(pool@ =~= pool_before_mix(start, evs, buf.len(), frame as nat));
            lemma_pool_before_mix_len(start, evs, buf.len(), frame as nat);
            lemma_count_bounds(evs, frame_i);
            assert(pool@.len() <= MAX_MIX_VOICES);
        }
        let mix: i64 = pool.mix_frame(buffer);
        proof {
            let ghost pbm = pool_before_mix(start, evs, buf.len(), frame as nat);
            lemma_frame_mix_bound(pbm, buf);
            let ghost plen = pbm.len() as int;
            assert(plen * 0x8000_0000 <= 0x4000_0000 * 0x8000_0000) by (nonlinear_arith)
                requires
                    0 <= plen <= 0x4000_0000,
            ;
            assert(-0x2000_0000_0000_0000 <= mix <= 0x2000_0000_0000_0000);
        }
        let mut c: usize = 0;
        while c < output.len()
            invariant
                c <= channels,
                output@.len() == channels,
                n == out0[0]@.len(),
                frame_i == frame as int,
                frame < n,
                forall|ch: int| 0 <= ch < channels ==> (#[trigger] output@[ch])@.len() == n,
                -0x2000_0000_0000_0000 <= mix <= 0x2000_0000_0000_0000,
                mix == block_mix_at(start, evs, buf, frame as nat),
                forall|ch: int, s: int|
                    0 <= ch < channels && 0 <= s < n && (s > frame_i || (s == frame_i && ch >= c))
                        ==> (#[trigger] output@[ch]@[s]) == out0[ch]@[s],
                forall|ch: int, s: int|
                    0 <= ch < channels && 0 <= s < n ==> -OUTPUT_HEADROOM <= (#[trigger] out0[ch]@[s])
                        <= OUTPUT_HEADROOM,
                forall|ch: int, s: int|
                    0 <= ch < channels && 0 <= s < frame_i ==> (#[trigger] output@[ch]@[s])
                        == out0[ch]@[s] + block_mix_at(start, evs, buf, s as nat),
                forall|ch: int|
                    0 <= ch < c ==> (#[trigger] output@[ch])@[frame_i] == out0[ch]@[frame_i] + mix,
            decreases channels - c,
        {
            let current = output[c][frame];
            output[c].set(frame, current + mix);
            c = c + 1;
        }
        pool.retire_exhausted(buffer);
        proof {
            let ghost pbm = pool_before_mix(start, evs, buf.len(), frame as nat);
            assert(pool@ == pool_after_block(start, evs, buf.len(), (frame + 1) as nat));
            lemma_live_voices_len(advanced(pbm, buf.len()), buf.len());
            lemma_pool_before_mix_len(start, evs, buf.len(), frame as nat);
        }
        frame = frame + 1;
    }
    proof {
        if n > 0 {
            lemma_live_voices_live(
                advanced(pool_before_mix(start, evs, buf.len(), (n - 1) as nat), buf.len()),
                buf.len(),
            );
        }
    }
    events.len() - next_event
}

} // verus!
