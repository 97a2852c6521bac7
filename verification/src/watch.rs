//! Watching a file that grows: what changed between two looks at it, and what
//! the follow view does about it.
use crate::text::begins_with;
use vstd::prelude::*;

verus! {

/// What the file system says of a file: its length, which file it is, and when
/// it was last written.
#[derive(Debug, Clone, Copy, PartialEq, Eq, Structural)]
pub struct FileStat {
    pub size: u64,
    pub id: u64,
    pub mtime_ns: i128,
}

/// What became of a file between two looks.
#[derive(Debug, Clone, Copy, PartialEq, Eq, Structural)]
pub enum FileDelta {
    /// Nothing to do.
    Idle,
    /// Its contents were replaced.
    Rotated,
    /// It grew from the first of these lengths to the second.
    Appended { from: u64, to: u64 },
}

impl FileStat {
    /// Whether anything about the file changed.
    pub fn differs(&self, other: &FileStat) -> (r: bool)
        ensures
            r == (*self != *other),
    {
        *self != *other
    }
}

/// Whether the start of the file is another one: `head` was sampled before,
/// `curr` now. A file that grew has the old sample at its start.
pub fn head_changed(head: &[u8], curr: &[u8]) -> (r: bool)
    ensures
        r == !begins_with(curr@, head@),
        r == !head@.is_prefix_of(curr@),
{
    assert(head@.len() <= curr@.len() ==> curr@.take(head@.len() as int) =~= curr@.subrange(
        0,
        head@.len() as int,
    ));
    if head.len() > curr.len() {
        return true;
    }
    for i in 0..head.len()
        invariant
            head@.len() <= curr@.len(),
            forall|j: int| 0 <= j < i ==> head@[j] == curr@[j],
    {
        if head[i] != curr[i] {
            assert(curr@.take(head@.len() as int)[i as int] != head@[i as int]);
            return true;
        }
    }
    assert(curr@.take(head@.len() as int) =~= head@);
    false
}

/// What became of a file: another file in its place, a shorter one, or another
/// start means that the old contents are gone; otherwise it grew or it did not.
pub open spec fn delta_of(last: FileStat, curr: FileStat, head_changed: bool) -> FileDelta {
    if curr.id != last.id || curr.size < last.size || head_changed {
        FileDelta::Rotated
    } else if curr.size > last.size {
        FileDelta::Appended { from: last.size, to: curr.size }
    } else {
        FileDelta::Idle
    }
}

/// What became of a file between two looks at it.
pub fn classify(last: &FileStat, curr: &FileStat, head_changed: bool) -> (d: FileDelta)
    ensures
        d == delta_of(*last, *curr, head_changed),
{
    if curr.id != last.id || curr.size < last.size || head_changed {
        FileDelta::Rotated
    } else if curr.size > last.size {
        FileDelta::Appended { from: last.size, to: curr.size }
    } else {
        FileDelta::Idle
    }
}

/// The last look at a file, with the sample of its start that shows a rewrite.
#[derive(Debug)]
pub struct DrainState {
    pub last: FileStat,
    pub head: Vec<u8>,
}

impl DrainState {
    /// A first look: what the file system says of the file, where it says
    /// anything, and the start of the file.
    pub fn new(stat: Option<FileStat>, head: Vec<u8>) -> (state: DrainState)
        ensures
            state.head == head,
            state.last == match stat {
                Some(stat) => stat,
                None => (FileStat { size: 0, id: 0, mtime_ns: 0 }),
            },
    {
        let last = match stat {
            Some(stat) => stat,
            None => FileStat { size: 0, id: 0, mtime_ns: 0 },
        };
        DrainState { last, head }
    }
}

/// What came of one tick.
#[derive(Debug, Clone, Copy, PartialEq, Eq, Structural)]
pub enum DrainOutcome {
    /// No look was possible, or the file is unchanged.
    Idle,
    /// The file grew; the new bytes were appended to the buffer.
    Grew,
    /// The contents were replaced; the buffer was loaded from scratch.
    Rotated,
}

/// What happened last in a tick.
#[derive(Debug)]
pub enum DrainEvent {
    /// The tick began, and this is what the file system says of the file.
    Looked(Option<FileStat>),
    /// The start of the file was read.
    Sampled(FileStat, Vec<u8>),
    /// The file was loaded again, or could not be.
    Reloaded,
    /// Whether the new bytes were read and appended.
    Appended(bool),
}

/// What to do next in a tick.
#[derive(Debug, Clone, Copy, PartialEq, Eq, Structural)]
pub enum DrainAction {
    /// Read the start of the file.
    Sample(FileStat),
    /// Load the file again.
    Reload,
    /// Append the bytes of the file between these positions: those of the look,
    /// and none that came later.
    Append { from: u64, to: u64 },
    /// The tick is over.
    Finish(DrainOutcome),
}

/// What to do after a sample of a changed file.
pub open spec fn after_sample(delta: FileDelta) -> DrainAction {
    match delta {
        FileDelta::Idle => DrainAction::Finish(DrainOutcome::Idle),
        FileDelta::Rotated => DrainAction::Reload,
        FileDelta::Appended { from, to } => DrainAction::Append { from, to },
    }
}

/// What to do next in a tick.
pub open spec fn drain_next(last: FileStat, head: Seq<u8>, event: DrainEvent) -> DrainAction {
    match event {
        DrainEvent::Looked(None) => DrainAction::Finish(DrainOutcome::Idle),
        DrainEvent::Looked(Some(curr)) => if curr == last {
            DrainAction::Finish(DrainOutcome::Idle)
        } else {
            DrainAction::Sample(curr)
        },
        DrainEvent::Sampled(curr, sample) => after_sample(
            delta_of(last, curr, !begins_with(sample@, head)),
        ),
        DrainEvent::Reloaded => DrainAction::Finish(DrainOutcome::Rotated),
        DrainEvent::Appended(done) => DrainAction::Finish(
            if done {
                DrainOutcome::Grew
            } else {
                DrainOutcome::Idle
            },
        ),
    }
}

/// What is remembered of a file after an event: a sample, with the look that it
/// goes with, takes the place of the last one.
pub open spec fn remembered(last: FileStat, head: Seq<u8>, event: DrainEvent) -> (
    FileStat,
    Seq<u8>,
) {
    match event {
        DrainEvent::Sampled(curr, sample) => (curr, sample@),
        _ => (last, head),
    }
}

/// Drains one tick: looks at the file, tells what became of it, and acts. The
/// start of the file is read only where a look shows a change, and the look is
/// remembered before anything is done about it: even if the read then fails,
/// reporting the same change at every tick would spin.
pub fn drain_into_buffer(state: &mut DrainState, event: DrainEvent) -> (action: DrainAction)
    ensures
        action == drain_next(old(state).last, old(state).head@, event),
        match event {
            DrainEvent::Sampled(curr, sample) => final(state).last == curr && final(state).head
                == sample,
            _ => *final(state) == *old(state),
        },
        (final(state).last, final(state).head@) == remembered(
            old(state).last,
            old(state).head@,
            event,
        ),
{
    match event {
        DrainEvent::Looked(None) => DrainAction::Finish(DrainOutcome::Idle),
        DrainEvent::Looked(Some(curr)) => {
            if curr.differs(&state.last) {
                DrainAction::Sample(curr)
            } else {
                DrainAction::Finish(DrainOutcome::Idle)
            }
        },
        DrainEvent::Sampled(curr, sample) => {
            let changed = head_changed(state.head.as_slice(), sample.as_slice());
            let delta = classify(&state.last, &curr, changed);
            state.last = curr;
            state.head = sample;
            match delta {
                FileDelta::Idle => DrainAction::Finish(DrainOutcome::Idle),
                FileDelta::Rotated => DrainAction::Reload,
                FileDelta::Appended { from, to } => DrainAction::Append { from, to },
            }
        },
        DrainEvent::Reloaded => DrainAction::Finish(DrainOutcome::Rotated),
        DrainEvent::Appended(done) => DrainAction::Finish(
            if done {
                DrainOutcome::Grew
            } else {
                DrainOutcome::Idle
            },
        ),
    }
}

/// A change is reported once: after a sample, another look that shows the same
/// ends the tick.
pub proof fn a_change_is_reported_once(curr: FileStat, sample: Seq<u8>)
    ensures
        drain_next(curr, sample, DrainEvent::Looked(Some(curr))) == DrainAction::Finish(
            DrainOutcome::Idle,
        ),
{
}

/// New bytes are appended only to contents that are still there: the file is
/// the same one, it grew, its start is unchanged, and the append begins where
/// the last look ended and ends where this one does.
pub proof fn an_append_continues_the_old_contents(
    last: FileStat,
    head: Seq<u8>,
    curr: FileStat,
    sample: Vec<u8>,
    from: u64,
    to: u64,
)
    ensures
        drain_next(last, head, DrainEvent::Sampled(curr, sample)) == (DrainAction::Append {
            from,
            to,
        }) <==> (from == last.size && to == curr.size && last.size < curr.size && curr.id == last.id
            && begins_with(sample@, head)),
{
}

/// Every byte is appended once: an append begins where the one before it, or
/// the last look, ended. `mid` is what the tick of the first append remembers.
pub proof fn appends_follow_each_other(
    last: FileStat,
    head: Seq<u8>,
    mid: FileStat,
    mid_sample: Vec<u8>,
    curr: FileStat,
    sample: Vec<u8>,
)
    ensures
        drain_next(last, head, DrainEvent::Sampled(mid, mid_sample)) matches DrainAction::Append {
            from,
            to,
        } ==> from == last.size && to == mid.size && (drain_next(
            mid,
            mid_sample@,
            DrainEvent::Sampled(curr, sample),
        ) matches DrainAction::Append { from: next_from, to: next_to } ==> next_from == to
            && next_to == curr.size),
{
}

/// A rewrite in place that keeps the length is seen all the same: its start
/// shows it.
pub proof fn a_rewrite_of_the_same_length_reloads(
    last: FileStat,
    head: Seq<u8>,
    curr: FileStat,
    sample: Vec<u8>,
)
    requires
        curr.size == last.size,
        !begins_with(sample@, head),
    ensures
        drain_next(last, head, DrainEvent::Sampled(curr, sample)) == DrainAction::Reload,
{
}

/// After a sample, the file is loaded again exactly where it is another file, or
/// is shorter, or does not start with the old sample any more: each of the three
/// is enough.
pub proof fn a_replaced_file_is_loaded_again(
    last: FileStat,
    head: Seq<u8>,
    curr: FileStat,
    sample: Vec<u8>,
)
    ensures
        drain_next(last, head, DrainEvent::Sampled(curr, sample)) == DrainAction::Reload <==> {
            ||| curr.id != last.id
            ||| curr.size < last.size
            ||| !head.is_prefix_of(sample@)
        },
{
    assert(sample@.take(head.len() as int) =~= sample@.subrange(0, head.len() as int));
}

/// A tick that ends right after a sample, with nothing done, found the same
/// file, of the same length, with the same start; and then nothing is done.
pub proof fn a_tick_that_does_nothing_found_nothing_new(
    last: FileStat,
    head: Seq<u8>,
    curr: FileStat,
    sample: Vec<u8>,
)
    ensures
        drain_next(last, head, DrainEvent::Sampled(curr, sample)) == DrainAction::Finish(
            DrainOutcome::Idle,
        ) <==> curr.id == last.id && curr.size == last.size && head.is_prefix_of(sample@),
        drain_next(last, head, DrainEvent::Sampled(curr, sample)) matches DrainAction::Finish(
            outcome,
        ) ==> outcome == DrainOutcome::Idle,
{
    assert(sample@.take(head.len() as int) =~= sample@.subrange(0, head.len() as int));
}

/// Of a file that grew, exactly the new bytes are appended: those from the
/// length of the last look to the length of this one.
pub proof fn exactly_the_new_bytes_are_appended(
    last: FileStat,
    head: Seq<u8>,
    curr: FileStat,
    sample: Vec<u8>,
)
    requires
        curr.id == last.id,
        curr.size > last.size,
        head.is_prefix_of(sample@),
    ensures
        drain_next(last, head, DrainEvent::Sampled(curr, sample)) == (DrainAction::Append {
            from: last.size,
            to: curr.size,
        }),
{
    assert(sample@.take(head.len() as int) =~= sample@.subrange(0, head.len() as int));
}

/// What became of a file decides what is told of it: it was replaced where it is
/// another one, shorter, or starts otherwise; it grew where it is the same one
/// and longer; and otherwise nothing happened.
pub proof fn what_becomes_of_a_file(last: FileStat, curr: FileStat, head_changed: bool)
    ensures
        delta_of(last, curr, head_changed) is Rotated <==> curr.id != last.id || curr.size
            < last.size || head_changed,
        delta_of(last, curr, head_changed) is Idle <==> curr.id == last.id && curr.size == last.size
            && !head_changed,
        delta_of(last, curr, head_changed) matches FileDelta::Appended { from, to } ==> from
            == last.size && to == curr.size && from < to,
{
}

/// The start of a file is read exactly where the look at it shows a change of
/// any kind, and that look is the one that the sample goes with. A file that
/// cannot be looked at is left alone.
pub proof fn every_change_is_looked_into(last: FileStat, head: Seq<u8>, curr: FileStat)
    ensures
        drain_next(last, head, DrainEvent::Looked(Some(curr))) == DrainAction::Sample(curr)
            <==> curr.size != last.size || curr.id != last.id || curr.mtime_ns != last.mtime_ns,
        drain_next(last, head, DrainEvent::Looked(Some(curr))) == DrainAction::Finish(
            DrainOutcome::Idle,
        ) <==> curr.size == last.size && curr.id == last.id && curr.mtime_ns == last.mtime_ns,
        drain_next(last, head, DrainEvent::Looked(None)) == DrainAction::Finish(DrainOutcome::Idle),
{
}

/// A tick tells what was done: a file that was loaded again was replaced, one
/// whose bytes were appended grew, and where they could not be read nothing came.
pub proof fn a_tick_tells_what_was_done(last: FileStat, head: Seq<u8>)
    ensures
        drain_next(last, head, DrainEvent::Reloaded) == DrainAction::Finish(DrainOutcome::Rotated),
        drain_next(last, head, DrainEvent::Appended(true)) == DrainAction::Finish(
            DrainOutcome::Grew,
        ),
        drain_next(last, head, DrainEvent::Appended(false)) == DrainAction::Finish(
            DrainOutcome::Idle,
        ),
{
}

/// A sample is remembered, whatever is done about it, and nothing else changes
/// what is remembered.
pub proof fn a_sample_is_remembered(
    last: FileStat,
    head: Seq<u8>,
    curr: FileStat,
    sample: Vec<u8>,
    event: DrainEvent,
)
    ensures
        remembered(last, head, DrainEvent::Sampled(curr, sample)) == (curr, sample@),
        !(event is Sampled) ==> remembered(last, head, event) == (last, head),
{
}

/// What is done next follows from what became of the file.
pub proof fn what_is_done_follows_from_what_became_of_the_file(from: u64, to: u64)
    ensures
        after_sample(FileDelta::Idle) == DrainAction::Finish(DrainOutcome::Idle),
        after_sample(FileDelta::Rotated) == DrainAction::Reload,
        after_sample(FileDelta::Appended { from, to }) == (DrainAction::Append { from, to }),
{
}

} // verus!
