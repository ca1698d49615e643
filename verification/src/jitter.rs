//! The jitter buffer: decoded audio waiting to be played, bounded in size and in age.

use std::collections::VecDeque;

use vstd::prelude::*;

verus! {

/// A run of samples that arrived together; those before `offset` are gone.
#[derive(Debug)]
struct BufferedBlock<T> {
    samples: Vec<T>,
    offset: usize,
    insertion_index: u64,
}

/// How many frames were discarded, by reason.
#[derive(Debug, Clone, Copy, PartialEq, Eq, Structural)]
pub struct EvictionStats {
    pub capacity_frames: u64,
    pub age_frames: u64,
}

impl Default for EvictionStats {
    fn default() -> (stats: Self)
        ensures
            stats == (EvictionStats { capacity_frames: 0, age_frames: 0 }),
    {
        EvictionStats { capacity_frames: 0, age_frames: 0 }
    }
}

/// Samples handed out by [`JitterBuffer::take`].
#[derive(Debug, PartialEq)]
pub struct TakenAudio<T> {
    pub samples: Vec<T>,
    pub oldest_insertion_index: u64,
}

/// Buffered frames, oldest first. Each frame is a sample and the period index at which it came in.
///
/// The buffer never holds more than its maximum number of frames: what does not fit pushes the
/// oldest frames out. Frames at the front that are older than the maximum age are discarded
/// before every operation that looks at the contents.
#[derive(Debug)]
pub struct JitterBuffer<T> {
    blocks: VecDeque<BufferedBlock<T>>,
    occupancy_frames: usize,
    maximum_frames: usize,
    maximum_age_periods: u64,
    evictions: EvictionStats,
}

/// A frame that came in at `insertion_index` is too old at `current_index`.
pub open spec fn is_aged(insertion_index: u64, current_index: u64, maximum_age_periods: u64) -> bool {
    current_index - insertion_index > maximum_age_periods
}

/// `frames` without the aged frames at its front.
pub open spec fn without_aged<T>(
    frames: Seq<(T, u64)>,
    current_index: u64,
    maximum_age_periods: u64,
) -> Seq<(T, u64)>
    decreases frames.len(),
{
    if frames.len() > 0 && is_aged(frames[0].1, current_index, maximum_age_periods) {
        without_aged(frames.skip(1), current_index, maximum_age_periods)
    } else {
        frames
    }
}

/// The last `maximum` frames, or all of them when there are fewer.
pub open spec fn newest<T>(frames: Seq<(T, u64)>, maximum: nat) -> Seq<(T, u64)> {
    if frames.len() <= maximum {
        frames
    } else {
        frames.skip(frames.len() - maximum)
    }
}

/// Samples that come in together carry one index.
pub open spec fn stamped<T>(samples: Seq<T>, insertion_index: u64) -> Seq<(T, u64)> {
    Seq::new(samples.len(), |i: int| (samples[i], insertion_index))
}

/// The bare samples of a run of frames.
pub open spec fn samples_of<T>(frames: Seq<(T, u64)>) -> Seq<T> {
    Seq::new(frames.len(), |i: int| frames[i].0)
}

/// Frames never carry a smaller index than those before them.
pub open spec fn in_arrival_order<T>(frames: Seq<(T, u64)>) -> bool {
    forall|i: int, j: int| 0 <= i <= j < frames.len() ==> frames[i].1 <= frames[j].1
}

impl<T> BufferedBlock<T> {
    spec fn frames(self) -> Seq<(T, u64)> {
        stamped(self.samples@.skip(self.offset as int), self.insertion_index)
    }

    spec fn wf(self) -> bool {
        self.offset < self.samples@.len()
    }
}

spec fn frames_of<T>(blocks: Seq<BufferedBlock<T>>) -> Seq<(T, u64)>
    decreases blocks.len(),
{
    if blocks.len() == 0 {
        Seq::empty()
    } else {
        blocks[0].frames() + frames_of(blocks.skip(1))
    }
}

proof fn lemma_frames_of_push<T>(blocks: Seq<BufferedBlock<T>>, block: BufferedBlock<T>)
    ensures
        frames_of(blocks.push(block)) == frames_of(blocks) + block.frames(),
    decreases blocks.len(),
{
    if blocks.len() == 0 {
        assert(blocks.push(block).skip(1) =~= Seq::empty());
        reveal_with_fuel(frames_of, 2);
        assert(frames_of(blocks) + block.frames() =~= block.frames());
    } else {
        lemma_frames_of_push(blocks.skip(1), block);
        assert(blocks.push(block).skip(1) =~= blocks.skip(1).push(block));
        assert(frames_of(blocks.push(block)) =~= frames_of(blocks) + block.frames());
    }
}

/// A whole block at the front is aged as soon as its first frame is.
proof fn lemma_without_aged_skips_block<T>(
    frames: Seq<(T, u64)>,
    count: nat,
    current_index: u64,
    maximum_age_periods: u64,
)
    requires
        count <= frames.len(),
        forall|i: int|
            0 <= i < count ==> is_aged(
                #[trigger] frames[i].1,
                current_index,
                maximum_age_periods,
            ),
    ensures
        without_aged(frames, current_index, maximum_age_periods) == without_aged(
            frames.skip(count as int),
            current_index,
            maximum_age_periods,
        ),
    decreases count,
{
    if count == 0 {
        assert(frames.skip(0) =~= frames);
    } else {
        assert(is_aged(frames[0].1, current_index, maximum_age_periods));
        assert forall|i: int| 0 <= i < count - 1 implies is_aged(
            #[trigger] frames.skip(1)[i].1,
            current_index,
            maximum_age_periods,
        ) by {
            assert(frames.skip(1)[i] == frames[i + 1]);
        }
        lemma_without_aged_skips_block(
            frames.skip(1),
            (count - 1) as nat,
            current_index,
            maximum_age_periods,
        );
        assert(frames.skip(1).skip(count - 1) =~= frames.skip(count as int));
    }
}

/// Discarding aged frames only shortens the front.
pub proof fn aged_frames_are_a_prefix<T>(
    frames: Seq<(T, u64)>,
    current_index: u64,
    maximum_age_periods: u64,
)
    ensures
        ({
            let kept = without_aged(frames, current_index, maximum_age_periods);
            let gone = frames.len() - kept.len();
            &&& kept.len() <= frames.len()
            &&& kept == frames.skip(gone)
            &&& forall|i: int|
                0 <= i < gone ==> is_aged(
                    #[trigger] frames[i].1,
                    current_index,
                    maximum_age_periods,
                )
            &&& kept.len() > 0 ==> !is_aged(kept[0].1, current_index, maximum_age_periods)
        }),
    decreases frames.len(),
{
    if frames.len() > 0 && is_aged(frames[0].1, current_index, maximum_age_periods) {
        let rest = frames.skip(1);
        aged_frames_are_a_prefix(rest, current_index, maximum_age_periods);
        let kept = without_aged(frames, current_index, maximum_age_periods);
        let gone = frames.len() - kept.len();
        assert(rest.skip(gone - 1) =~= frames.skip(gone));
        assert forall|i: int| 0 <= i < gone implies is_aged(
            #[trigger] frames[i].1,
            current_index,
            maximum_age_periods,
        ) by {
            if i > 0 {
                assert(rest[i - 1] == frames[i]);
            }
        }
    } else {
        assert(frames.skip(0) =~= frames);
    }
}

/// In a buffer filled in arrival order, discarding leaves no aged frame at all.
pub proof fn no_aged_frame_survives<T>(
    frames: Seq<(T, u64)>,
    current_index: u64,
    maximum_age_periods: u64,
)
    requires
        in_arrival_order(frames),
    ensures
        in_arrival_order(without_aged(frames, current_index, maximum_age_periods)),
        forall|i: int|
            0 <= i < without_aged(frames, current_index, maximum_age_periods).len() ==> !is_aged(
                #[trigger] without_aged(frames, current_index, maximum_age_periods)[i].1,
                current_index,
                maximum_age_periods,
            ),
{
    aged_frames_are_a_prefix(frames, current_index, maximum_age_periods);
    let kept = without_aged(frames, current_index, maximum_age_periods);
    let gone = frames.len() - kept.len();
    assert forall|i: int, j: int| 0 <= i <= j < kept.len() implies kept[i].1 <= kept[j].1 by {
        assert(kept[i] == frames[gone + i] && kept[j] == frames[gone + j]);
    }
}

/// Time only moves the front forward: discarding at an earlier index first makes no difference.
pub proof fn discarding_earlier_changes_nothing<T>(
    frames: Seq<(T, u64)>,
    earlier_index: u64,
    current_index: u64,
    maximum_age_periods: u64,
)
    requires
        earlier_index <= current_index,
    ensures
        without_aged(
            without_aged(frames, earlier_index, maximum_age_periods),
            current_index,
            maximum_age_periods,
        ) == without_aged(frames, current_index, maximum_age_periods),
{
    aged_frames_are_a_prefix(frames, earlier_index, maximum_age_periods);
    let kept = without_aged(frames, earlier_index, maximum_age_periods);
    let gone = (frames.len() - kept.len()) as nat;
    assert forall|i: int| 0 <= i < gone implies is_aged(
        #[trigger] frames[i].1,
        current_index,
        maximum_age_periods,
    ) by {
        assert(is_aged(frames[i].1, earlier_index, maximum_age_periods));
    }
    lemma_without_aged_skips_block(frames, gone, current_index, maximum_age_periods);
}

/// What [`JitterBuffer::insert`] leaves is in arrival order if what was there is, and the new
/// index is no smaller than any before.
pub proof fn insertion_keeps_arrival_order<T>(
    frames: Seq<(T, u64)>,
    samples: Seq<T>,
    insertion_index: u64,
    maximum_age_periods: u64,
    maximum: nat,
)
    requires
        in_arrival_order(frames),
        forall|i: int| 0 <= i < frames.len() ==> (#[trigger] frames[i]).1 <= insertion_index,
    ensures
        in_arrival_order(
            newest(
                without_aged(frames, insertion_index, maximum_age_periods) + stamped(
                    samples,
                    insertion_index,
                ),
                maximum,
            ),
        ),
{
    aged_frames_are_a_prefix(frames, insertion_index, maximum_age_periods);
    no_aged_frame_survives(frames, insertion_index, maximum_age_periods);
    let fresh = without_aged(frames, insertion_index, maximum_age_periods);
    let gone = frames.len() - fresh.len();
    let all = fresh + stamped(samples, insertion_index);
    let kept = newest(all, maximum);
    let dropped = all.len() - kept.len();
    assert forall|i: int, j: int| 0 <= i <= j < kept.len() implies kept[i].1 <= kept[j].1 by {
        assert(kept[i] == all[dropped + i] && kept[j] == all[dropped + j]);
        if dropped + i < fresh.len() {
            assert(all[dropped + i] == fresh[dropped + i]);
            assert(fresh[dropped + i] == frames[gone + dropped + i]);
            if dropped + j < fresh.len() {
                assert(all[dropped + j] == fresh[dropped + j]);
            }
        }
    }
}

/// Two takes at one index hand out what a single take of both lengths would.
pub proof fn consecutive_takes_are_one_take<T>(
    frames: Seq<(T, u64)>,
    first: nat,
    second: nat,
    current_index: u64,
    maximum_age_periods: u64,
)
    requires
        in_arrival_order(frames),
        first + second <= without_aged(frames, current_index, maximum_age_periods).len(),
    ensures
        ({
            let fresh = without_aged(frames, current_index, maximum_age_periods);
            let rest = without_aged(fresh.skip(first as int), current_index, maximum_age_periods);
            &&& samples_of(fresh.take(first as int)) + samples_of(rest.take(second as int))
                == samples_of(fresh.take((first + second) as int))
            &&& rest.skip(second as int) == fresh.skip((first + second) as int)
        }),
{
    no_aged_frame_survives(frames, current_index, maximum_age_periods);
    let fresh = without_aged(frames, current_index, maximum_age_periods);
    let left = fresh.skip(first as int);
    if left.len() > 0 {
        assert(left[0] == fresh[first as int]);
    }
    assert(without_aged(left, current_index, maximum_age_periods) == left);
    assert(samples_of(fresh.take(first as int)) + samples_of(left.take(second as int))
        =~= samples_of(fresh.take((first + second) as int)));
    assert(left.skip(second as int) =~= fresh.skip((first + second) as int));
}

/// Samples that fit come out as they went in, behind what was already there.
pub proof fn what_goes_in_comes_out<T>(
    frames: Seq<(T, u64)>,
    samples: Seq<T>,
    insertion_index: u64,
    maximum_age_periods: u64,
    maximum: nat,
)
    requires
        without_aged(frames, insertion_index, maximum_age_periods).len() + samples.len()
            <= maximum,
    ensures
        ({
            let fresh = without_aged(frames, insertion_index, maximum_age_periods);
            let all = newest(fresh + stamped(samples, insertion_index), maximum);
            &&& all.take(fresh.len() as int) == fresh
            &&& samples_of(all.skip(fresh.len() as int)) == samples
        }),
{
    let fresh = without_aged(frames, insertion_index, maximum_age_periods);
    let all = newest(fresh + stamped(samples, insertion_index), maximum);
    assert(all.take(fresh.len() as int) =~= fresh);
    assert(samples_of(all.skip(fresh.len() as int)) =~= samples);
}

/// Of an overfull buffer exactly the surplus leaves, from the oldest end.
pub proof fn capacity_discards_exactly_the_oldest<T>(frames: Seq<(T, u64)>, maximum: nat)
    ensures
        ({
            let kept = newest(frames, maximum);
            let surplus = frames.len() - kept.len();
            &&& kept.len() <= maximum
            &&& surplus == if frames.len() > maximum {
                frames.len() - maximum
            } else {
                0
            }
            &&& frames == frames.take(surplus) + kept
        }),
{
    let kept = newest(frames, maximum);
    assert(frames =~= frames.take(frames.len() - kept.len()) + kept);
}

impl<T: Copy> JitterBuffer<T> {
    /// The buffered frames, oldest first.
    pub closed spec fn view(self) -> Seq<(T, u64)> {
        frames_of(self.blocks@)
    }

    pub closed spec fn maximum(self) -> usize {
        self.maximum_frames
    }

    pub closed spec fn maximum_age(self) -> u64 {
        self.maximum_age_periods
    }

    pub closed spec fn stats(self) -> EvictionStats {
        self.evictions
    }

    /// The frames that were ever let in and not handed out or cleared: those still buffered and
    /// those discarded.
    pub open spec fn accounted(self) -> nat {
        self@.len() + self.stats().capacity_frames as nat + self.stats().age_frames as nat
    }

    /// The counters agree with the blocks and fit; the maximum may be exceeded.
    spec fn consistent(self) -> bool {
        &&& forall|i: int| 0 <= i < self.blocks@.len() ==> (#[trigger] self.blocks@[i]).wf()
        &&& self.occupancy_frames == self@.len()
        &&& self.accounted() <= u64::MAX
    }

    /// No more frames than the maximum are held, and the counters agree and fit.
    pub closed spec fn wf(self) -> bool {
        &&& self.consistent()
        &&& self@.len() <= self.maximum_frames
    }

    /// A well-formed buffer is within its maximum, and everything it accounts for fits in 64 bits.
    pub proof fn bounded(self)
        requires
            self.wf(),
        ensures
            self@.len() <= self.maximum(),
            self.accounted() <= u64::MAX,
    {
    }

    pub fn new(maximum_frames: usize, maximum_age_periods: u64) -> (buffer: Self)
        ensures
            buffer.wf(),
            buffer@ == Seq::<(T, u64)>::empty(),
            buffer.maximum() == maximum_frames,
            buffer.maximum_age() == maximum_age_periods,
            buffer.stats() == (EvictionStats { capacity_frames: 0, age_frames: 0 }),
    {
        JitterBuffer {
            blocks: VecDeque::new(),
            occupancy_frames: 0,
            maximum_frames,
            maximum_age_periods,
            evictions: EvictionStats { capacity_frames: 0, age_frames: 0 },
        }
    }

    pub fn occupancy(&self) -> (frames: usize)
        requires
            self.wf(),
        ensures
            frames == self@.len(),
    {
        self.occupancy_frames
    }

    pub fn eviction_stats(&self) -> (stats: EvictionStats)
        ensures
            stats == self.stats(),
    {
        self.evictions
    }

    /// Whether `frames` more frames can be let in without a counter running over.
    pub fn has_room_for(&self, frames: usize) -> (room: bool)
        requires
            self.wf(),
        ensures
            room == (self@.len() + frames <= usize::MAX && self.accounted() + frames <= u64::MAX),
    {
        let discarded: u64 = self.evictions.capacity_frames + self.evictions.age_frames;
        let accounted: u128 = self.occupancy_frames as u128 + discarded as u128;
        frames <= usize::MAX - self.occupancy_frames && accounted + frames as u128 <= u64::MAX as u128
    }

    /// Replaces the limits, then discards what they no longer admit.
    pub fn update_limits(
        &mut self,
        maximum_frames: usize,
        maximum_age_periods: u64,
        current_index: u64,
    )
        requires
            old(self).wf(),
        ensures
            final(self).limited_from(
                *old(self),
                maximum_frames,
                maximum_age_periods,
                current_index,
            ),
            final(self).accounted() == old(self).accounted(),
    {
        self.maximum_frames = maximum_frames;
        self.maximum_age_periods = maximum_age_periods;
        self.evict_aged(current_index);
        self.evict_capacity();
    }

    /// The limits were replaced: frames that are aged under the new ones were discarded, and the
    /// oldest left if there were too many.
    pub open spec fn limited_from(
        self,
        before: Self,
        maximum_frames: usize,
        maximum_age_periods: u64,
        current_index: u64,
    ) -> bool {
        let fresh = without_aged(before@, current_index, maximum_age_periods);
        &&& self.wf()
        &&& self.maximum() == maximum_frames
        &&& self.maximum_age() == maximum_age_periods
        &&& self@ == newest(fresh, maximum_frames as nat)
        &&& self.stats().age_frames == before.stats().age_frames + before@.len() - fresh.len()
        &&& self.stats().capacity_frames == before.stats().capacity_frames + fresh.len()
            - self@.len()
    }

    /// `samples` were let in: aged frames were discarded before, and the oldest left if there were
    /// too many.
    pub open spec fn inserted_from(
        self,
        before: Self,
        samples: Seq<T>,
        insertion_index: u64,
    ) -> bool {
        let fresh = without_aged(before@, insertion_index, before.maximum_age());
        let all = fresh + stamped(samples, insertion_index);
        &&& self.wf()
        &&& self.maximum() == before.maximum()
        &&& self.maximum_age() == before.maximum_age()
        &&& self@ == newest(all, before.maximum() as nat)
        &&& self.stats().age_frames == before.stats().age_frames + before@.len() - fresh.len()
        &&& self.stats().capacity_frames == before.stats().capacity_frames + all.len()
            - self@.len()
    }

    /// The oldest `frames` frames were handed out, all of them or none; aged frames were discarded
    /// before.
    pub open spec fn taken_from(
        self,
        before: Self,
        frames: usize,
        current_index: u64,
        taken: Option<TakenAudio<T>>,
    ) -> bool {
        let fresh = without_aged(before@, current_index, before.maximum_age());
        &&& self.wf()
        &&& self.maximum() == before.maximum()
        &&& self.maximum_age() == before.maximum_age()
        &&& self.stats().capacity_frames == before.stats().capacity_frames
        &&& self.stats().age_frames == before.stats().age_frames + before@.len() - fresh.len()
        &&& taken is Some <==> 0 < frames <= fresh.len()
        &&& match taken {
            Some(audio) => {
                &&& audio.samples@ == samples_of(fresh.take(frames as int))
                &&& audio.oldest_insertion_index == fresh[0].1
                &&& self@ == fresh.skip(frames as int)
            },
            None => self@ == fresh,
        }
    }

    /// Lets `samples` in at the end, after aged frames were discarded; if that makes too many
    /// frames, the oldest leave.
    pub fn insert(&mut self, samples: Vec<T>, insertion_index: u64)
        requires
            old(self).wf(),
            old(self)@.len() + samples@.len() <= usize::MAX,
            old(self).accounted() + samples@.len() <= u64::MAX,
        ensures
            final(self).inserted_from(*old(self), samples@, insertion_index),
            final(self).accounted() == old(self).accounted() + samples@.len(),
    {
        proof {
            aged_frames_are_a_prefix(self@, insertion_index, self.maximum_age());
        }
        self.evict_aged(insertion_index);
        let ghost fresh = self@;
        let ghost stamped_samples = stamped(samples@, insertion_index);
        if samples.len() > 0 {
            self.occupancy_frames = self.occupancy_frames + samples.len();
            let block = BufferedBlock { samples, offset: 0, insertion_index };
            proof {
                lemma_frames_of_push(self.blocks@, block);
                assert(block.frames() =~= stamped_samples);
            }
            self.blocks.push_back(block);
        } else {
            assert(fresh + stamped_samples =~= fresh);
        }
        self.evict_capacity();
    }

    /// Hands out the oldest `frames` frames, or nothing at all when fewer are there.
    pub fn take(&mut self, frames: usize, current_index: u64) -> (taken: Option<TakenAudio<T>>)
        requires
            old(self).wf(),
        ensures
            final(self).taken_from(*old(self), frames, current_index, taken),
            final(self).accounted() == old(self).accounted() - if taken is Some {
                frames as int
            } else {
                0
            },
    {
        proof {
            aged_frames_are_a_prefix(self@, current_index, self.maximum_age());
        }
        self.evict_aged(current_index);
        if frames == 0 || self.occupancy_frames < frames {
            return None;
        }
        let ghost fresh = self@;
        let oldest_insertion_index: u64 = self.front_index();
        let mut samples: Vec<T> = Vec::with_capacity(frames);
        while samples.len() < frames
            invariant
                self.wf(),
                self.maximum() == old(self).maximum(),
                self.maximum_age() == old(self).maximum_age(),
                self.stats().capacity_frames == old(self).stats().capacity_frames,
                self.stats().age_frames == old(self).stats().age_frames + old(self)@.len()
                    - fresh.len(),
                samples@.len() <= frames <= fresh.len(),
                samples@ == samples_of(fresh.take(samples@.len() as int)),
                self@ == fresh.skip(samples@.len() as int),
            decreases frames - samples@.len(),
        {
            let ghost done = samples@.len() as int;
            let needed: usize = frames - samples.len();
            let count: usize = self.drain_front(needed, &mut samples);
            assert(samples@ =~= samples_of(fresh.take(done + count)));
            assert(self@ =~= fresh.skip(done + count));
        }
        Some(TakenAudio { samples, oldest_insertion_index })
    }

    /// Forgets everything that is buffered; the counts of discarded frames stay.
    pub fn clear(&mut self)
        requires
            old(self).wf(),
        ensures
            final(self).wf(),
            final(self)@ == Seq::<(T, u64)>::empty(),
            final(self).maximum() == old(self).maximum(),
            final(self).maximum_age() == old(self).maximum_age(),
            final(self).stats() == old(self).stats(),
    {
        self.blocks.clear();
        self.occupancy_frames = 0;
    }

    /// Removes the front block; what it held leaves the view.
    fn pop_block(&mut self) -> (block: BufferedBlock<T>)
        requires
            old(self).consistent(),
            old(self)@.len() > 0,
        ensures
            block.wf(),
            old(self)@ == block.frames() + frames_of(final(self).blocks@),
            forall|i: int|
                0 <= i < final(self).blocks@.len() ==> (#[trigger] final(self).blocks@[i]).wf(),
            final(self).occupancy_frames == old(self).occupancy_frames,
            final(self).maximum_frames == old(self).maximum_frames,
            final(self).maximum_age_periods == old(self).maximum_age_periods,
            final(self).evictions == old(self).evictions,
    {
        let ghost blocks = self.blocks@;
        let popped = self.blocks.pop_front();
        assert(self.blocks@ == blocks.skip(1));
        match popped {
            Some(block) => {
                assert(blocks[0].wf());
                block
            },
            None => {
                assert(false);
                BufferedBlock { samples: Vec::new(), offset: 0, insertion_index: 0 }
            },
        }
    }

    /// Puts back what is left of a front block after `count` of its frames were used up.
    fn put_back(&mut self, block: BufferedBlock<T>, count: usize)
        requires
            block.wf(),
            count <= block.samples@.len() - block.offset,
            forall|i: int|
                0 <= i < old(self).blocks@.len() ==> (#[trigger] old(self).blocks@[i]).wf(),
        ensures
            frames_of(final(self).blocks@) == block.frames().skip(count as int) + frames_of(
                old(self).blocks@,
            ),
            forall|i: int|
                0 <= i < final(self).blocks@.len() ==> (#[trigger] final(self).blocks@[i]).wf(),
            final(self).occupancy_frames == old(self).occupancy_frames,
            final(self).maximum_frames == old(self).maximum_frames,
            final(self).maximum_age_periods == old(self).maximum_age_periods,
            final(self).evictions == old(self).evictions,
    {
        let ghost blocks = self.blocks@;
        let ghost used = block;
        let mut rest = block;
        let held: usize = rest.samples.len();
        rest.offset = rest.offset + count;
        if rest.offset < held {
            proof {
                assert(rest.frames() =~= used.frames().skip(count as int));
            }
            self.blocks.push_front(rest);
            assert(self.blocks@.skip(1) =~= blocks);
        } else {
            assert(used.frames().skip(count as int) + frames_of(blocks) =~= frames_of(blocks));
        }
    }

    /// Moves up to `wanted` samples of the front block to the end of `samples`.
    fn drain_front(&mut self, wanted: usize, samples: &mut Vec<T>) -> (count: usize)
        requires
            old(self).wf(),
            0 < wanted <= old(self)@.len(),
            old(samples)@.len() + wanted <= usize::MAX,
        ensures
            final(self).wf(),
            final(self).maximum() == old(self).maximum(),
            final(self).maximum_age() == old(self).maximum_age(),
            final(self).stats() == old(self).stats(),
            0 < count <= wanted,
            final(self)@ == old(self)@.skip(count as int),
            final(samples)@ == old(samples)@ + samples_of(old(self)@.take(count as int)),
    {
        let ghost before = self@;
        let block = self.pop_block();
        let held: usize = block.samples.len();
        let available: usize = held - block.offset;
        let count: usize = if wanted < available {
            wanted
        } else {
            available
        };
        let ghost had = samples@;
        let mut copied: usize = 0;
        while copied < count
            invariant
                held == block.samples@.len(),
                copied <= count <= held - block.offset,
                samples@ == had + block.samples@.subrange(
                    block.offset as int,
                    block.offset + copied,
                ),
            decreases count - copied,
        {
            samples.push(block.samples[block.offset + copied]);
            copied = copied + 1;
            assert(samples@ =~= had + block.samples@.subrange(
                block.offset as int,
                block.offset + copied,
            ));
        }
        assert(samples@ =~= had + samples_of(before.take(count as int)));
        self.put_back(block, count);
        self.occupancy_frames = self.occupancy_frames - count;
        assert(self@ =~= before.skip(count as int));
        count
    }

    /// Discards the aged frames at the front.
    fn evict_aged(&mut self, current_index: u64)
        requires
            old(self).consistent(),
        ensures
            final(self).consistent(),
            final(self)@ == without_aged(old(self)@, current_index, old(self).maximum_age()),
            final(self)@.len() <= old(self)@.len(),
            final(self).maximum() == old(self).maximum(),
            final(self).maximum_age() == old(self).maximum_age(),
            final(self).stats().capacity_frames == old(self).stats().capacity_frames,
            final(self).stats().age_frames == old(self).stats().age_frames + old(self)@.len()
                - final(self)@.len(),
            final(self).accounted() == old(self).accounted(),
    {
        while self.front_is_aged(current_index)
            invariant
                self.consistent(),
                without_aged(self@, current_index, self.maximum_age()) == without_aged(
                    old(self)@,
                    current_index,
                    old(self).maximum_age(),
                ),
                self@.len() <= old(self)@.len(),
                self.maximum() == old(self).maximum(),
                self.maximum_age() == old(self).maximum_age(),
                self.stats().capacity_frames == old(self).stats().capacity_frames,
                self.stats().age_frames == old(self).stats().age_frames + old(self)@.len()
                    - self@.len(),
                self.accounted() == old(self).accounted(),
            decreases self@.len(),
        {
            let ghost before = self@;
            let block = self.pop_block();
            let frames: usize = block.samples.len() - block.offset;
            self.occupancy_frames = self.occupancy_frames - frames;
            self.evictions.age_frames = self.evictions.age_frames + frames as u64;
            proof {
                assert(before.skip(frames as int) =~= self@);
                lemma_without_aged_skips_block(
                    before,
                    frames as nat,
                    current_index,
                    self.maximum_age(),
                );
            }
        }
    }

    fn front_is_aged(&self, current_index: u64) -> (aged: bool)
        requires
            self.consistent(),
        ensures
            aged == (self@.len() > 0 && is_aged(self@[0].1, current_index, self.maximum_age())),
    {
        if self.occupancy_frames == 0 {
            return false;
        }
        current_index.saturating_sub(self.front_index()) > self.maximum_age_periods
    }

    /// Discards from the front what exceeds the maximum.
    fn evict_capacity(&mut self)
        requires
            old(self).consistent(),
        ensures
            final(self).wf(),
            final(self)@ == newest(old(self)@, old(self).maximum() as nat),
            final(self).maximum() == old(self).maximum(),
            final(self).maximum_age() == old(self).maximum_age(),
            final(self).stats().age_frames == old(self).stats().age_frames,
            final(self).stats().capacity_frames == old(self).stats().capacity_frames + old(
                self,
            )@.len() - final(self)@.len(),
    {
        assert(self@.skip(0) =~= self@);
        while self.occupancy_frames > self.maximum_frames
            invariant
                self.consistent(),
                self.maximum_frames == old(self).maximum_frames,
                self.maximum_age() == old(self).maximum_age(),
                self.stats().age_frames == old(self).stats().age_frames,
                self@.len() <= old(self)@.len(),
                self@ == old(self)@.skip(old(self)@.len() - self@.len()),
                self@.len() >= newest(old(self)@, old(self).maximum() as nat).len(),
                self.stats().capacity_frames == old(self).stats().capacity_frames + old(
                    self,
                )@.len() - self@.len(),
            decreases self@.len(),
        {
            let ghost before = self@;
            let excess: usize = self.occupancy_frames - self.maximum_frames;
            let block = self.pop_block();
            let available: usize = block.samples.len() - block.offset;
            let count: usize = if excess < available {
                excess
            } else {
                available
            };
            self.put_back(block, count);
            self.occupancy_frames = self.occupancy_frames - count;
            self.evictions.capacity_frames = self.evictions.capacity_frames + count as u64;
            assert(self@ =~= before.skip(count as int));
            assert(self@ =~= old(self)@.skip(old(self)@.len() - self@.len()));
        }
    }

    fn front_index(&self) -> (index: u64)
        requires
            self.consistent(),
            self@.len() > 0,
        ensures
            index == self@[0].1,
    {
        proof {
            if self.blocks@.len() > 0 {
                assert(self.blocks@[0].wf());
            }
        }
        self.blocks[0].insertion_index
    }
}

/// The pieces, one after the other.
pub open spec fn joined<T>(pieces: Seq<Seq<T>>) -> Seq<T>
    decreases pieces.len(),
{
    if pieces.len() == 0 {
        Seq::empty()
    } else {
        joined(pieces.drop_last()) + pieces.last()
    }
}

/// A take: how many frames, and at which index.
pub struct Take {
    pub frames: usize,
    pub index: u64,
}

/// How many frames the takes ask for.
pub open spec fn asked(takes: Seq<Take>) -> nat
    decreases takes.len(),
{
    if takes.len() == 0 {
        0
    } else {
        asked(takes.drop_last()) + takes.last().frames as nat
    }
}

/// The samples that the takes handed out, one after the other.
pub open spec fn handed_out<T>(taken: Seq<Option<TakenAudio<T>>>) -> Seq<T>
    decreases taken.len(),
{
    if taken.len() == 0 {
        Seq::empty()
    } else {
        handed_out(taken.drop_last()) + match taken.last() {
            Some(audio) => audio.samples@,
            None => Seq::empty(),
        }
    }
}

/// The buffers are the states of one buffer that gets the pieces, all at one index.
pub open spec fn is_filled<T: Copy>(
    states: Seq<JitterBuffer<T>>,
    pieces: Seq<Seq<T>>,
    index: u64,
) -> bool {
    &&& states.len() == pieces.len() + 1
    &&& forall|k: int|
        0 <= k < pieces.len() ==> (#[trigger] states[k + 1]).inserted_from(
            states[k],
            pieces[k],
            index,
        )
}

/// The buffers are the states of one buffer that the takes are made of.
pub open spec fn is_drained<T: Copy>(
    states: Seq<JitterBuffer<T>>,
    takes: Seq<Take>,
    taken: Seq<Option<TakenAudio<T>>>,
) -> bool {
    &&& states.len() == takes.len() + 1
    &&& taken.len() == takes.len()
    &&& forall|k: int|
        0 <= k < takes.len() ==> (#[trigger] states[k + 1]).taken_from(
            states[k],
            takes[k].frames,
            takes[k].index,
            taken[k],
        )
}

proof fn lemma_filled<T: Copy>(states: Seq<JitterBuffer<T>>, pieces: Seq<Seq<T>>, index: u64)
    requires
        is_filled(states, pieces, index),
        states[0]@ == Seq::<(T, u64)>::empty(),
        joined(pieces).len() <= states[0].maximum(),
    ensures
        states.last()@ == stamped(joined(pieces), index),
        states.last().stats() == states[0].stats(),
        states.last().maximum() == states[0].maximum(),
        states.last().maximum_age() == states[0].maximum_age(),
    decreases pieces.len(),
{
    if pieces.len() == 0 {
        assert(stamped(joined(pieces), index) =~= states[0]@);
    } else {
        let fewer = pieces.drop_last();
        let earlier = states.drop_last();
        assert forall|k: int| 0 <= k < fewer.len() implies (#[trigger] earlier[k
            + 1]).inserted_from(earlier[k], fewer[k], index) by {
            assert(earlier[k + 1] == states[k + 1]);
        }
        lemma_filled(earlier, fewer, index);
        let k = pieces.len() - 1;
        assert(states[k + 1].inserted_from(states[k], pieces[k], index));
        let before = stamped(joined(fewer), index);
        assert(without_aged(before, index, states[0].maximum_age()) == before);
        assert(before + stamped(pieces[k], index) =~= stamped(joined(pieces), index));
    }
}

proof fn lemma_drained<T: Copy>(
    states: Seq<JitterBuffer<T>>,
    takes: Seq<Take>,
    taken: Seq<Option<TakenAudio<T>>>,
    samples: Seq<T>,
    index: u64,
)
    requires
        is_drained(states, takes, taken),
        states[0]@ == stamped(samples, index),
        asked(takes) <= samples.len(),
        forall|k: int|
            0 <= k < takes.len() ==> (#[trigger] takes[k]).frames > 0 && !is_aged(
                index,
                takes[k].index,
                states[0].maximum_age(),
            ),
    ensures
        forall|k: int|
            0 <= k < takes.len() ==> (#[trigger] taken[k] matches Some(audio)
                && audio.oldest_insertion_index == index),
        handed_out(taken) == samples.take(asked(takes) as int),
        states.last()@ == stamped(samples, index).skip(asked(takes) as int),
        states.last().stats() == states[0].stats(),
        states.last().maximum_age() == states[0].maximum_age(),
    decreases takes.len(),
{
    let all = stamped(samples, index);
    if takes.len() == 0 {
        assert(samples.take(0) =~= handed_out(taken));
        assert(all.skip(0) =~= all);
    } else {
        let fewer = takes.drop_last();
        let earlier = states.drop_last();
        let handed = taken.drop_last();
        assert forall|k: int| 0 <= k < fewer.len() implies (#[trigger] earlier[k + 1]).taken_from(
            earlier[k],
            fewer[k].frames,
            fewer[k].index,
            handed[k],
        ) by {
            assert(earlier[k + 1] == states[k + 1]);
        }
        assert forall|k: int| 0 <= k < fewer.len() implies (#[trigger] fewer[k]).frames > 0
            && !is_aged(index, fewer[k].index, states[0].maximum_age()) by {
            assert(fewer[k] == takes[k]);
        }
        lemma_drained(earlier, fewer, handed, samples, index);
        let k = takes.len() - 1;
        let done = asked(fewer) as int;
        let frames = takes[k].frames as int;
        let rest = all.skip(done);
        assert(takes[k].frames > 0);
        assert(states[k + 1].taken_from(states[k], takes[k].frames, takes[k].index, taken[k]));
        assert(rest[0] == all[done]);
        assert(without_aged(rest, takes[k].index, states[0].maximum_age()) == rest);
        assert(rest.skip(frames) =~= all.skip(done + frames));
        assert(samples.take(done) + samples_of(rest.take(frames)) =~= samples.take(done + frames));
        assert forall|i: int| 0 <= i < takes.len() implies (#[trigger] taken[i] matches Some(audio)
            && audio.oldest_insertion_index == index) by {
            if i < k {
                assert(handed[i] == taken[i]);
            }
        }
    }
}

/// What is let into an empty buffer in any number of pieces, all at one index, comes out unchanged
/// over any number of takes, as long as it fits and none of the takes comes too late: every take
/// succeeds, and nothing is discarded or left over.
pub proof fn pieces_come_out_whole<T: Copy>(
    filling: Seq<JitterBuffer<T>>,
    pieces: Seq<Seq<T>>,
    index: u64,
    draining: Seq<JitterBuffer<T>>,
    takes: Seq<Take>,
    taken: Seq<Option<TakenAudio<T>>>,
)
    requires
        is_filled(filling, pieces, index),
        filling[0]@ == Seq::<(T, u64)>::empty(),
        joined(pieces).len() <= filling[0].maximum(),
        is_drained(draining, takes, taken),
        draining[0] == filling.last(),
        asked(takes) == joined(pieces).len(),
        forall|k: int|
            0 <= k < takes.len() ==> (#[trigger] takes[k]).frames > 0 && !is_aged(
                index,
                takes[k].index,
                filling[0].maximum_age(),
            ),
    ensures
        forall|k: int|
            0 <= k < takes.len() ==> (#[trigger] taken[k] matches Some(audio)
                && audio.oldest_insertion_index == index),
        handed_out(taken) == joined(pieces),
        draining.last()@ == Seq::<(T, u64)>::empty(),
        draining.last().stats() == filling[0].stats(),
{
    let samples = joined(pieces);
    lemma_filled(filling, pieces, index);
    lemma_drained(draining, takes, taken, samples, index);
    assert(samples.take(samples.len() as int) =~= samples);
    assert(stamped(samples, index).skip(samples.len() as int) =~= Seq::<(T, u64)>::empty());
}

/// `kept` is what is left of `given` when the first `gone` are discarded.
pub open spec fn lost_its_front<T>(given: Seq<(T, u64)>, gone: int, kept: Seq<(T, u64)>) -> bool {
    &&& 0 <= gone <= given.len()
    &&& kept.len() == given.len() - gone
    &&& forall|i: int| 0 <= i < kept.len() ==> #[trigger] kept[i] == given[gone + i]
}

/// A run of frames loses the first `aged` of its frames to its age: all of those came in more than
/// `maximum_age` periods before `current_index`, and the one behind them did not.
pub open spec fn loses_to_age<T>(
    frames: Seq<(T, u64)>,
    aged: int,
    current_index: u64,
    maximum_age: u64,
) -> bool {
    &&& 0 <= aged <= frames.len()
    &&& forall|i: int|
        0 <= i < aged ==> current_index > (#[trigger] frames[i]).1 + maximum_age
    &&& aged < frames.len() ==> current_index <= frames[aged].1 + maximum_age
}

/// Discarding takes exactly the frames at the front that are older than the maximum age.
pub proof fn aged_by_periods<T>(frames: Seq<(T, u64)>, current_index: u64, maximum_age: u64)
    ensures
        ({
            let kept = without_aged(frames, current_index, maximum_age);
            let aged = frames.len() - kept.len();
            loses_to_age(frames, aged, current_index, maximum_age) && lost_its_front(
                frames,
                aged,
                kept,
            )
        }),
{
    aged_frames_are_a_prefix(frames, current_index, maximum_age);
    let kept = without_aged(frames, current_index, maximum_age);
    let aged = frames.len() - kept.len();
    assert forall|i: int| 0 <= i < aged implies current_index > (#[trigger] frames[i]).1
        + maximum_age by {
        assert(is_aged(frames[i].1, current_index, maximum_age));
    }
    if aged < frames.len() {
        assert(kept[0] == frames[aged]);
    }
}

/// What letting samples in does, frame by frame. A frame is discarded for its age only if it, and
/// every frame before it, came in more than the maximum age before; every other frame stays, unless
/// there are more than the maximum, when exactly the surplus leaves from the oldest end. Behind the
/// frames that stay come the samples, in their order, each with the index of now. What was
/// discarded is counted under its own reason.
pub proof fn letting_in_keeps_what_is_within_the_limits<T: Copy>(
    before: JitterBuffer<T>,
    after: JitterBuffer<T>,
    samples: Seq<T>,
    insertion_index: u64,
)
    requires
        after.inserted_from(before, samples, insertion_index),
    ensures
        ({
            let aged = after.stats().age_frames - before.stats().age_frames;
            let surplus = after.stats().capacity_frames - before.stats().capacity_frames;
            let held = before@.len() - aged + samples.len();
            &&& loses_to_age(before@, aged, insertion_index, before.maximum_age())
            &&& surplus == if held > before.maximum() {
                held - before.maximum()
            } else {
                0
            }
            &&& after@.len() == held - surplus
            &&& forall|i: int|
                aged + surplus <= i < before@.len() ==> after@[i - aged - surplus]
                    == #[trigger] before@[i]
            &&& forall|i: int|
                0 <= i < samples.len() && aged + surplus <= before@.len() + i ==> after@[
                before@.len() + i - aged - surplus] == (#[trigger] samples[i], insertion_index)
            &&& after.maximum() == before.maximum()
            &&& after.maximum_age() == before.maximum_age()
        }),
{
    aged_by_periods(before@, insertion_index, before.maximum_age());
    let fresh = without_aged(before@, insertion_index, before.maximum_age());
    let all = fresh + stamped(samples, insertion_index);
    let aged = before@.len() - fresh.len();
    let surplus = all.len() - after@.len();
    assert forall|i: int| aged + surplus <= i < before@.len() implies after@[i - aged - surplus]
        == #[trigger] before@[i] by {
        assert(fresh[i - aged] == before@[i]);
        assert(all[i - aged] == fresh[i - aged]);
        assert(after@[i - aged - surplus] == all[i - aged]);
    }
    assert forall|i: int|
        0 <= i < samples.len() && aged + surplus <= before@.len() + i implies after@[before@.len()
        + i - aged - surplus] == (#[trigger] samples[i], insertion_index) by {
        assert(all[fresh.len() + i] == (samples[i], insertion_index));
        assert(after@[fresh.len() + i - surplus] == all[fresh.len() + i]);
    }
}

/// What a take does, frame by frame. Frames are discarded for their age only, and only if they, and
/// every frame before them, came in more than the maximum age before. Of the frames that are left
/// the oldest are handed out in their order, exactly as many as were asked for, or none at all if
/// there are fewer; the rest stays as it was.
pub proof fn taking_hands_out_what_is_within_the_age<T: Copy>(
    before: JitterBuffer<T>,
    after: JitterBuffer<T>,
    frames: usize,
    current_index: u64,
    taken: Option<TakenAudio<T>>,
)
    requires
        after.taken_from(before, frames, current_index, taken),
    ensures
        ({
            let aged = after.stats().age_frames - before.stats().age_frames;
            let held = before@.len() - aged;
            &&& loses_to_age(before@, aged, current_index, before.maximum_age())
            &&& match taken {
                Some(audio) => {
                    &&& 0 < frames <= held
                    &&& audio.samples@.len() == frames
                    &&& forall|i: int|
                        0 <= i < frames ==> #[trigger] audio.samples@[i] == before@[aged + i].0
                    &&& audio.oldest_insertion_index == before@[aged].1
                    &&& after@.len() == held - frames
                    &&& forall|i: int|
                        0 <= i < after@.len() ==> #[trigger] after@[i] == before@[aged + frames + i]
                },
                None => {
                    &&& frames == 0 || frames > held
                    &&& after@.len() == held
                    &&& forall|i: int|
                        0 <= i < after@.len() ==> #[trigger] after@[i] == before@[aged + i]
                },
            }
            &&& after.stats().capacity_frames == before.stats().capacity_frames
            &&& after.maximum() == before.maximum()
            &&& after.maximum_age() == before.maximum_age()
        }),
{
    aged_by_periods(before@, current_index, before.maximum_age());
    let fresh = without_aged(before@, current_index, before.maximum_age());
    let aged = before@.len() - fresh.len();
    if let Some(audio) = taken {
        assert(fresh[0] == before@[aged]);
        assert forall|i: int| 0 <= i < frames implies #[trigger] audio.samples@[i] == before@[aged
            + i].0 by {
            assert(fresh[i] == before@[aged + i]);
        }
        assert forall|i: int| 0 <= i < after@.len() implies #[trigger] after@[i] == before@[aged
            + frames + i] by {
            assert(fresh[frames + i] == before@[aged + frames + i]);
        }
    }
}

/// What new limits do, frame by frame: frames that are within the new maximum age stay, and of those
/// that do not fit under the new maximum exactly the surplus leaves, from the oldest end.
pub proof fn new_limits_keep_what_is_within_them<T: Copy>(
    before: JitterBuffer<T>,
    after: JitterBuffer<T>,
    maximum_frames: usize,
    maximum_age_periods: u64,
    current_index: u64,
)
    requires
        after.limited_from(before, maximum_frames, maximum_age_periods, current_index),
    ensures
        ({
            let aged = after.stats().age_frames - before.stats().age_frames;
            let surplus = after.stats().capacity_frames - before.stats().capacity_frames;
            let held = before@.len() - aged;
            &&& loses_to_age(before@, aged, current_index, maximum_age_periods)
            &&& surplus == if held > maximum_frames {
                held - maximum_frames
            } else {
                0
            }
            &&& lost_its_front(before@, aged + surplus, after@)
            &&& after.maximum() == maximum_frames
            &&& after.maximum_age() == maximum_age_periods
        }),
{
    aged_by_periods(before@, current_index, maximum_age_periods);
    let fresh = without_aged(before@, current_index, maximum_age_periods);
    let aged = before@.len() - fresh.len();
    let surplus = fresh.len() - after@.len();
    assert forall|i: int| 0 <= i < after@.len() implies #[trigger] after@[i] == before@[aged
        + surplus + i] by {
        assert(after@[i] == fresh[surplus + i]);
        assert(fresh[surplus + i] == before@[aged + (surplus + i)]);
    }
}

/// A packet that was let in and is taken again, in whole, as long as it is no older than the maximum
/// age comes out as it went in, whatever the maximum age is; one period later it is gone.
pub proof fn a_packet_lives_for_the_maximum_age<T: Copy>(
    empty: JitterBuffer<T>,
    filled: JitterBuffer<T>,
    after: JitterBuffer<T>,
    samples: Seq<T>,
    insertion_index: u64,
    current_index: u64,
    taken: Option<TakenAudio<T>>,
)
    requires
        empty@.len() == 0,
        0 < samples.len() <= empty.maximum(),
        samples.len() <= usize::MAX,
        insertion_index <= current_index,
        filled.inserted_from(empty, samples, insertion_index),
        after.taken_from(filled, samples.len() as usize, current_index, taken),
    ensures
        current_index - insertion_index <= empty.maximum_age() <==> taken is Some,
        taken matches Some(audio) ==> audio.samples@ == samples
            && audio.oldest_insertion_index == insertion_index,
        after@.len() == 0,
{
    letting_in_keeps_what_is_within_the_limits(empty, filled, samples, insertion_index);
    assert(filled@.len() == samples.len());
    assert forall|i: int| 0 <= i < samples.len() implies #[trigger] filled@[i] == (
        samples[i],
        insertion_index,
    ) by {
        assert(filled@[0 + i] == (samples[i], insertion_index));
    }
    taking_hands_out_what_is_within_the_age(
        filled,
        after,
        samples.len() as usize,
        current_index,
        taken,
    );
    if let Some(audio) = taken {
        assert(audio.samples@ =~= samples);
    } else {
        let aged = after.stats().age_frames - filled.stats().age_frames;
        assert(filled@[0] == (samples[0], insertion_index));
        if aged < filled@.len() {
            assert(filled@[aged] == (samples[aged], insertion_index));
        }
    }
}

} // verus!
