//! A cyclic counter over an inclusive range of frames.

use crate::error::AnimationError;
use vstd::arithmetic::div_mod::{lemma_add_mod_noop_right, lemma_mod_self_0, lemma_small_mod};
use vstd::prelude::*;

verus! {

/// The state of a frame sequencer: an inclusive range of frames and the
/// offset of the current frame from the first.
pub struct Sequencer {
    pub first: nat,
    pub last: nat,
    pub offset: nat,
}

impl Sequencer {
    /// The range is not empty and the offset lies inside it.
    pub open spec fn wf(self) -> bool {
        self.first <= self.last && self.offset <= self.last - self.first
    }

    /// A sequencer on the first frame of `first..=last`.
    pub open spec fn start(first: nat, last: nat) -> Sequencer {
        Sequencer { first, last, offset: 0 }
    }

    /// The number of frames in the range.
    pub open spec fn length(self) -> nat {
        (self.last - self.first + 1) as nat
    }

    /// The index of the current frame.
    pub open spec fn current(self) -> nat {
        self.first + self.offset
    }

    /// Whether the current frame is the last of the range.
    pub open spec fn is_last_frame(self) -> bool {
        self.offset == self.length() - 1
    }

    /// The sequencer `steps` frames on, wrapping round at the end of the range.
    pub open spec fn advance(self, steps: nat) -> Sequencer {
        Sequencer { offset: (self.offset + steps) % self.length(), ..self }
    }

    /// The sequencer one frame on: on the first frame again after the last.
    pub open spec fn next(self) -> Sequencer {
        Sequencer {
            offset: if self.is_last_frame() {
                0
            } else {
                self.offset + 1
            },
            ..self
        }
    }

    /// The sequencer after `count` single steps.
    pub open spec fn step_times(self, count: nat) -> Sequencer
        decreases count,
    {
        if count == 0 {
            self
        } else {
            self.next().step_times((count - 1) as nat)
        }
    }

    /// A single step is an advance by one frame.
    pub proof fn lemma_next(self)
        requires
            self.wf(),
        ensures
            self.next() == self.advance(1),
            self.next().wf(),
    {
        if self.is_last_frame() {
            lemma_mod_self_0(self.length() as int);
        } else {
            lemma_small_mod(self.offset + 1, self.length());
        }
    }

    /// An advance that stays inside the range adds to the offset.
    pub proof fn lemma_advance_inside(self, steps: nat)
        requires
            self.wf(),
            self.offset + steps < self.length(),
        ensures
            self.advance(steps).offset == self.offset + steps,
    {
        lemma_small_mod(self.offset + steps, self.length());
    }

    /// Taking `count` single steps is advancing by `count`.
    pub proof fn lemma_step_times(self, count: nat)
        requires
            self.wf(),
        ensures
            self.step_times(count) == self.advance(count),
        decreases count,
    {
        let length = self.length() as int;
        let offset = self.offset as int;
        if count == 0 {
            lemma_small_mod(self.offset, self.length());
        } else {
            self.lemma_next();
            let next = self.next();
            next.lemma_step_times((count - 1) as nat);
            lemma_add_mod_noop_right(count - 1, offset + 1, length);
        }
    }

    /// The cycle closes: after as many single steps as the range has
    /// frames, the sequencer is back where it was.
    pub proof fn lemma_full_cycle(self)
        requires
            self.wf(),
        ensures
            self.step_times(self.length()) == self,
            self.step_times(self.length()).current() == self.current(),
    {
        let length = self.length() as int;
        self.lemma_step_times(self.length());
        lemma_add_mod_noop_right(self.offset as int, length, length);
        lemma_mod_self_0(length);
        lemma_small_mod(self.offset, self.length());
    }

    /// Within one cycle the last frame is reached exactly once: of the
    /// states after 0, 1, ... `length - 1` single steps, only the one after
    /// `length - 1 - offset` steps is on the last frame.
    pub proof fn lemma_last_frame_once_per_cycle(self, count: nat)
        requires
            self.wf(),
            count < self.length(),
        ensures
            self.step_times(count).is_last_frame() <==> count == self.length() - 1 - self.offset,
            self.step_times(count).is_last_frame() <==> self.step_times(count).offset
                == self.length() - 1,
    {
        let length = self.length() as int;
        self.lemma_step_times(count);
        let sum = self.offset + count;
        if sum < length {
            lemma_small_mod(sum, self.length());
        } else {
            lemma_add_mod_noop_right(sum - length, length, length);
            lemma_mod_self_0(length);
            lemma_small_mod((sum - length) as nat, self.length());
        }
    }

    /// A range of one frame has length 1 and is on its last frame from the start.
    pub proof fn lemma_single_frame(first: nat)
        ensures
            Sequencer::start(first, first).wf(),
            Sequencer::start(first, first).length() == 1,
            Sequencer::start(first, first).is_last_frame(),
    {
    }
}

/// A cyclic counter over the frames `first..=last` of a texture atlas.
pub struct TextureIterator {
    first: usize,
    last: usize,
    current: usize,
}

impl View for TextureIterator {
    type V = Sequencer;

    closed spec fn view(&self) -> Sequencer {
        Sequencer { first: self.first as nat, last: self.last as nat, offset: self.current as nat }
    }
}

impl TextureIterator {
    /// The range is not empty and the current frame lies inside it.
    pub open spec fn wf(&self) -> bool {
        self@.wf()
    }

    /// A counter on the first frame of `first..=last`, unless the range is
    /// empty.
    pub fn new(first: usize, last: usize) -> (created: Result<TextureIterator, AnimationError>)
        ensures
            match created {
                Ok(iterator) => first <= last && iterator.wf() && iterator@ == Sequencer::start(
                    first as nat,
                    last as nat,
                ),
                Err(error) => first > last && error == AnimationError::InvalidRange,
            },
    {
        if first > last {
            return Err(AnimationError::InvalidRange);
        }
        Ok(TextureIterator { first, last, current: 0 })
    }

    /// Moves `amount` frames on, wrapping round, and returns the new current frame.
    pub fn next_few(&mut self, amount: usize) -> (frame: usize)
        requires
            old(self).wf(),
        ensures
            final(self).wf(),
            final(self)@ == old(self)@.advance(amount as nat),
            frame == final(self)@.current(),
            old(self)@.offset + amount < old(self)@.length() ==> frame == old(self)@.current()
                + amount,
    {
        let length: u128 = (self.last - self.first) as u128 + 1;
        let sum: u128 = self.current as u128 + amount as u128;
        let offset: u128 = sum % length;
        proof {
            if sum < length {
                self@.lemma_advance_inside(amount as nat);
            }
        }
        self.current = offset as usize;
        self.current()
    }

    /// Moves one frame on, wrapping round, and returns the new current frame.
    pub fn next(&mut self) -> (frame: usize)
        requires
            old(self).wf(),
        ensures
            final(self).wf(),
            final(self)@ == old(self)@.next(),
            frame == final(self)@.current(),
    {
        proof {
            self@.lemma_next();
        }
        self.next_few(1)
    }

    /// The index of the current frame.
    pub fn current(&self) -> (frame: usize)
        requires
            self.wf(),
        ensures
            frame == self@.current(),
    {
        self.first + self.current
    }

    /// Whether the current frame is the last of the range.
    pub fn is_last_frame(&self) -> (last: bool)
        requires
            self.wf(),
        ensures
            last == self@.is_last_frame(),
    {
        self.current == self.last - self.first
    }

    /// The number of frames in the range.
    pub fn length(&self) -> (length: usize)
        requires
            self.wf(),
            self@.length() <= usize::MAX,
        ensures
            length == self@.length(),
    {
        self.last - self.first + 1
    }
}

} // verus!
