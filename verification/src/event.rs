use vstd::prelude::*;

verus! {

/// One host event inside the current block, carrying the sample offset at
/// which it takes effect. Only note-on events mutate the engine; every other
/// kind is recognized and deliberately ignored.
#[derive(Clone, Copy)]
pub enum NoteEvent {
    NoteOn { timing: u32 },
    Other { timing: u32 },
}

impl NoteEvent {
    pub open spec fn spec_timing(self) -> nat {
        match self {
            NoteEvent::NoteOn { timing } => timing as nat,
            NoteEvent::Other { timing } => timing as nat,
        }
    }

    pub open spec fn is_note_on(self) -> bool {
        match self {
            NoteEvent::NoteOn { .. } => true,
            NoteEvent::Other { .. } => false,
        }
    }

    pub fn timing(&self) -> (r: u32)
        ensures
            r as nat == self.spec_timing(),
    {
        match self {
            NoteEvent::NoteOn { timing } => *timing,
            NoteEvent::Other { timing } => *timing,
        }
    }

    pub fn note_on(&self) -> (r: bool)
        ensures
            r == self.is_note_on(),
    {
        match self {
            NoteEvent::NoteOn { .. } => true,
            NoteEvent::Other { .. } => false,
        }
    }
}

/// Events ordered ascending by timing, as a well-behaved host delivers them.
pub open spec fn events_sorted(events: Seq<NoteEvent>) -> bool {
    forall|i: int, j: int|
        0 <= i <= j < events.len() ==> events[i].spec_timing() <= events[j].spec_timing()
}

/// How many events have a timing at or before `frame`.
pub open spec fn events_through(events: Seq<NoteEvent>, frame: int) -> int
    decreases events.len(),
{
    if events.len() == 0 {
        0
    } else {
        events_through(events.drop_last(), frame) + if events.last().spec_timing() <= frame {
            1int
        } else {
            0int
        }
    }
}

/// How many note-on events have a timing at or before `frame`.
pub open spec fn note_ons_through(events: Seq<NoteEvent>, frame: int) -> int
    decreases events.len(),
{
    if events.len() == 0 {
        0
    } else {
        note_ons_through(events.drop_last(), frame) + if events.last().is_note_on()
            && events.last().spec_timing() <= frame {
            1int
        } else {
            0int
        }
    }
}

/// How many note-on events have a timing of exactly `frame`.
pub open spec fn note_ons_at(events: Seq<NoteEvent>, frame: int) -> int
    decreases events.len(),
{
    if events.len() == 0 {
        0
    } else {
        note_ons_at(events.drop_last(), frame) + if events.last().is_note_on()
            && events.last().spec_timing() == frame {
            1int
        } else {
            0int
        }
    }
}

/// How many note-on events stand among the first `k` events.
pub open spec fn note_ons_below(events: Seq<NoteEvent>, k: int) -> int
    decreases k,
{
    if k <= 0 {
        0
    } else {
        note_ons_below(events, k - 1) + if k - 1 < events.len() && events[k - 1].is_note_on() {
            1int
        } else {
            0int
        }
    }
}

/// Before the first frame of a block nothing has been drained yet.
pub proof fn lemma_counts_before_block(events: Seq<NoteEvent>, frame: int)
    requires
        frame < 0,
    ensures
        events_through(events, frame) == 0,
        note_ons_through(events, frame) == 0,
    decreases events.len(),
{
    if events.len() > 0 {
        lemma_counts_before_block(events.drop_last(), frame);
    }
}

/// The counts grow and stay within the number of events.
pub proof fn lemma_count_bounds(events: Seq<NoteEvent>, frame: int)
    ensures
        0 <= events_through(events, frame) <= events.len(),
        0 <= note_ons_through(events, frame) <= events_through(events, frame),
        note_ons_through(events, frame - 1) <= note_ons_through(events, frame),
        events_through(events, frame - 1) <= events_through(events, frame),
    decreases events.len(),
{
    if events.len() > 0 {
        lemma_count_bounds(events.drop_last(), frame);
    }
}

/// Dropping the final event changes no count taken over a shorter prefix.
pub proof fn lemma_note_ons_below_prefix(events: Seq<NoteEvent>, k: int)
    requires
        k <= events.len() - 1,
    ensures
        note_ons_below(events.drop_last(), k) == note_ons_below(events, k),
    decreases k,
{
    if k > 0 {
        lemma_note_ons_below_prefix(events, k - 1);
        assert(events.drop_last()[k - 1] == events[k - 1]);
    }
}

/// When index `k` splits the events into those due by `frame` and those due
/// later, then `k` is exactly the number due by `frame`, and the note-ons
/// before `k` are exactly the note-ons due by `frame`.
pub proof fn lemma_boundary_counts(events: Seq<NoteEvent>, frame: int, k: int)
    requires
        0 <= k <= events.len(),
        forall|j: int| 0 <= j < k ==> events[j].spec_timing() <= frame,
        forall|j: int| k <= j < events.len() ==> events[j].spec_timing() > frame,
    ensures
        events_through(events, frame) == k,
        note_ons_through(events, frame) == note_ons_below(events, k),
    decreases events.len(),
{
    if events.len() == 0 {
    } else if k == events.len() {
        lemma_boundary_counts(events.drop_last(), frame, k - 1);
        lemma_note_ons_below_prefix(events, k - 1);
        assert(events[k - 1] == events.last());
    } else {
        lemma_boundary_counts(events.drop_last(), frame, k);
        lemma_note_ons_below_prefix(events, k);
    }
}

/// The note-ons due exactly at `frame` are those due by `frame` but not
/// before it.
pub proof fn lemma_note_ons_at_diff(events: Seq<NoteEvent>, frame: int)
    ensures
        note_ons_at(events, frame) == note_ons_through(events, frame) - note_ons_through(
            events,
            frame - 1,
        ),
    decreases events.len(),
{
    if events.len() > 0 {
        lemma_note_ons_at_diff(events.drop_last(), frame);
    }
}

} // verus!
