use sampler_engine::block::process_block;
use sampler_engine::event::NoteEvent;
use sampler_engine::pool::VoicePool;
use sampler_engine::sample_buffer::SampleBuffer;

// Fixed-point amplitudes: HALF stands for 0.5, QUARTER for 0.25.
const UNIT: i32 = 1 << 20;
const HALF: i32 = UNIT / 2;
const QUARTER: i32 = UNIT / 4;

fn silent_output(channels: usize, block_len: usize) -> Vec<Vec<i64>> {
    vec![vec![0i64; block_len]; channels]
}

#[test]
fn end_to_end_single_note() {
    // Buffer 0.5, -0.5, 0.25; one note-on at frame 0; three-frame mono block.
    let buffer = SampleBuffer::new(vec![HALF, -HALF, QUARTER]);
    let mut pool = VoicePool::new();
    let events = vec![NoteEvent::NoteOn { timing: 0 }];
    let mut output = silent_output(1, 3);
    let leftover = process_block(&mut pool, &buffer, &events, &mut output);
    assert_eq!(leftover, 0);
    assert_eq!(output[0], vec![HALF as i64, -HALF as i64, QUARTER as i64]);
    assert!(pool.is_empty());
}

#[test]
fn overlapping_notes_stack() {
    // Same buffer, four-frame block, note-ons at frames 0 and 1: the voices
    // overlap and their samples add per frame.
    let buffer = SampleBuffer::new(vec![HALF, -HALF, QUARTER]);
    let mut pool = VoicePool::new();
    let events = vec![NoteEvent::NoteOn { timing: 0 }, NoteEvent::NoteOn { timing: 1 }];
    let mut output = silent_output(1, 4);
    let leftover = process_block(&mut pool, &buffer, &events, &mut output);
    assert_eq!(leftover, 0);
    assert_eq!(
        output[0],
        vec![HALF as i64, 0, (QUARTER - HALF) as i64, QUARTER as i64],
    );
    assert!(pool.is_empty());
}

#[test]
fn event_ordering_within_block() {
    // Note-ons at frames 0 and 3 of a five-frame block: frames 0..=2 carry
    // one voice, frames 3..=4 carry two.
    let buffer = SampleBuffer::new(vec![1, 2, 3, 4, 5]);
    let mut pool = VoicePool::new();
    let events = vec![NoteEvent::NoteOn { timing: 0 }, NoteEvent::NoteOn { timing: 3 }];
    let mut output = silent_output(1, 5);
    let leftover = process_block(&mut pool, &buffer, &events, &mut output);
    assert_eq!(leftover, 0);
    assert_eq!(output[0], vec![1, 2, 3, 4 + 1, 5 + 2]);
}

#[test]
fn simultaneous_notes_sum_exactly() {
    // Three voices spawned at the same frame mix to three times one voice.
    let buffer = SampleBuffer::new(vec![7, -2]);
    let mut pool = VoicePool::new();
    let events = vec![
        NoteEvent::NoteOn { timing: 0 },
        NoteEvent::NoteOn { timing: 0 },
        NoteEvent::NoteOn { timing: 0 },
    ];
    let mut output = silent_output(1, 2);
    process_block(&mut pool, &buffer, &events, &mut output);
    assert_eq!(output[0], vec![21, -6]);
}

#[test]
fn mix_adds_onto_existing_signal() {
    // The block adds to whatever already occupies the buffer; it never
    // overwrites it.
    let buffer = SampleBuffer::new(vec![5, 6]);
    let mut pool = VoicePool::new();
    let events = vec![NoteEvent::NoteOn { timing: 0 }];
    let mut output = vec![vec![100i64, -100i64]];
    process_block(&mut pool, &buffer, &events, &mut output);
    assert_eq!(output[0], vec![105, -94]);
}

#[test]
fn every_channel_gets_the_same_frame_value() {
    // A mono voice is read once per frame and the same value lands on every
    // channel, so multi-channel playback runs at the native rate.
    let buffer = SampleBuffer::new(vec![7, 8]);
    let mut pool = VoicePool::new();
    let events = vec![NoteEvent::NoteOn { timing: 0 }];
    let mut output = silent_output(2, 2);
    process_block(&mut pool, &buffer, &events, &mut output);
    assert_eq!(output[0], vec![7, 8]);
    assert_eq!(output[1], vec![7, 8]);
}

#[test]
fn non_note_events_are_ignored() {
    let buffer = SampleBuffer::new(vec![9, 9]);
    let mut pool = VoicePool::new();
    let events = vec![
        NoteEvent::Other { timing: 0 },
        NoteEvent::NoteOn { timing: 1 },
        NoteEvent::Other { timing: 1 },
    ];
    let mut output = silent_output(1, 2);
    let leftover = process_block(&mut pool, &buffer, &events, &mut output);
    assert_eq!(leftover, 0);
    assert_eq!(output[0], vec![0, 9]);
}

#[test]
fn late_events_are_surfaced_not_dropped() {
    // An event timed at or past the block end stays pending and is reported.
    let buffer = SampleBuffer::new(vec![3, 3]);
    let mut pool = VoicePool::new();
    let events = vec![NoteEvent::NoteOn { timing: 0 }, NoteEvent::NoteOn { timing: 5 }];
    let mut output = silent_output(1, 2);
    let leftover = process_block(&mut pool, &buffer, &events, &mut output);
    assert_eq!(leftover, 1);
    assert_eq!(output[0], vec![3, 3]);
}

#[test]
fn empty_buffer_degrades_to_silence() {
    // A missing sample buffer means a voice spawns already exhausted: no
    // out-of-bounds read, no output, an empty pool afterwards.
    let buffer = SampleBuffer::new(vec![]);
    let mut pool = VoicePool::new();
    let events = vec![NoteEvent::NoteOn { timing: 0 }, NoteEvent::NoteOn { timing: 1 }];
    let mut output = silent_output(1, 3);
    let leftover = process_block(&mut pool, &buffer, &events, &mut output);
    assert_eq!(leftover, 0);
    assert_eq!(output[0], vec![0, 0, 0]);
    assert!(pool.is_empty());
}

#[test]
fn pool_holds_exactly_the_unfinished_voices_after_a_block() {
    // Note-ons at frames 0 and 2 of a three-frame block over a five-sample
    // buffer: both voices are still unfinished at block end, at positions 3
    // and 1, and nothing exhausted lingers.
    let buffer = SampleBuffer::new(vec![1, 1, 1, 1, 1]);
    let mut pool = VoicePool::new();
    let events = vec![NoteEvent::NoteOn { timing: 0 }, NoteEvent::NoteOn { timing: 2 }];
    let mut output = silent_output(1, 3);
    process_block(&mut pool, &buffer, &events, &mut output);
    assert_eq!(pool.len(), 2);
    assert_eq!(pool.position_at(0), 3);
    assert_eq!(pool.position_at(1), 1);

    // The next block finishes both; the pool drains to empty.
    let mut output2 = silent_output(1, 5);
    process_block(&mut pool, &buffer, &Vec::new(), &mut output2);
    assert_eq!(output2[0], vec![2, 2, 1, 1, 0]);
    assert!(pool.is_empty());
}

#[test]
fn voices_carry_over_between_blocks() {
    let buffer = SampleBuffer::new(vec![11, 12, 13]);
    let mut pool = VoicePool::new();
    let events = vec![NoteEvent::NoteOn { timing: 1 }];
    let mut output = silent_output(1, 2);
    process_block(&mut pool, &buffer, &events, &mut output);
    assert_eq!(output[0], vec![0, 11]);
    assert_eq!(pool.len(), 1);

    let mut output2 = silent_output(1, 3);
    process_block(&mut pool, &buffer, &Vec::new(), &mut output2);
    assert_eq!(output2[0], vec![12, 13, 0]);
    assert!(pool.is_empty());
}

#[test]
fn dense_overlapping_note_ons_never_read_out_of_bounds() {
    // Four note-ons at every frame of a sixteen-frame block over a
    // four-sample buffer of ones: the mixed value counts the live voices,
    // the pool never exceeds sixteen, and every surviving cursor is in
    // bounds.
    let buffer = SampleBuffer::new(vec![1, 1, 1, 1]);
    let mut pool = VoicePool::new();
    let mut events = Vec::new();
    let mut frame: u32 = 0;
    while frame < 16 {
        let mut copies: u32 = 0;
        while copies < 4 {
            events.push(NoteEvent::NoteOn { timing: frame });
            copies += 1;
        }
        frame += 1;
    }
    let mut output = silent_output(1, 16);
    let leftover = process_block(&mut pool, &buffer, &events, &mut output);
    assert_eq!(leftover, 0);
    let mut expected = vec![4i64, 8, 12];
    while expected.len() < 16 {
        expected.push(16);
    }
    assert_eq!(output[0], expected);
    assert_eq!(pool.len(), 12);
    let mut k: usize = 0;
    while k < pool.len() {
        assert!(pool.position_at(k) < buffer.len());
        k += 1;
    }
}
