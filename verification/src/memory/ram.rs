//! Physical memory as the page tables see it: 64-bit words, 512 to a frame.
//!
//! The store is sparse.  A word that was never written reads as zero, so
//! every frame of the 64-bit physical address space can be read and written
//! without being set up first.

use vstd::prelude::*;
use std::collections::HashMap;
use crate::memory::Frame;

verus! {

broadcast use vstd::std_specs::hash::group_hash_axioms;

/// The words of physical memory by frame index and slot: a total map over
/// every frame and the slots 0 to 511.
pub type Words = Map<(u64, int), u64>;

/// Memory in which every word is zero.
pub open spec fn zeroed() -> Words {
    Map::new(|k: (u64, int)| 0 <= k.1 < 512, |k: (u64, int)| 0u64)
}

/// `words` with every slot of frame `frame` set to zero.
pub open spec fn cleared(words: Words, frame: u64) -> Words {
    Map::new(
        |k: (u64, int)| 0 <= k.1 < 512,
        |k: (u64, int)|
            if k.0 == frame {
                0u64
            } else {
                words[k]
            },
    )
}

/// Whether `words` is defined on every slot of every frame, and nowhere else.
pub open spec fn is_total(words: Words) -> bool {
    forall|k: (u64, int)| words.contains_key(k) <==> 0 <= k.1 < 512
}

spec fn key_of(frame: u64, index: int) -> u128 {
    (frame as int * 512 + index) as u128
}

/// Simulated physical memory.
pub struct PhysicalMemory {
    words: HashMap<u128, u64>,
    frames: Vec<u64>,
}

impl View for PhysicalMemory {
    type V = Words;

    closed spec fn view(&self) -> Words {
        Map::new(
            |k: (u64, int)| 0 <= k.1 < 512,
            |k: (u64, int)|
                if self.words@.contains_key(key_of(k.0, k.1)) {
                    self.words@[key_of(k.0, k.1)]
                } else {
                    0u64
                },
        )
    }
}

impl PhysicalMemory {
    #[verifier::type_invariant]
    spec fn listed(self) -> bool {
        forall|key: u128| #[trigger]
            self.words@.contains_key(key) ==> self.frames@.contains((key as int / 512) as u64)
                && key / 512 <= u64::MAX
    }

    /// The frames that were written to, with zeros or with anything else.
    pub closed spec fn written(&self) -> Set<u64> {
        self.frames@.to_set()
    }

    /// Memory in which every word is zero, and no frame was written to.
    pub fn new() -> (memory: PhysicalMemory)
        ensures
            memory@ == zeroed(),
            memory.written() == Set::<u64>::empty(),
    {
        let memory = PhysicalMemory { words: HashMap::new(), frames: Vec::new() };
        assert(memory@ =~= zeroed());
        assert(memory.written() =~= Set::<u64>::empty());
        memory
    }

    /// The frames that were written to, each at least once, and no others:
    /// every word that is not zero lies in one of them.
    #[verifier::rlimit(30)]
    pub fn written_frames(&self) -> (frames: Vec<Frame>)
        ensures
            forall|g: u64|
                self.written().contains(g) <==> exists|i: int|
                    0 <= i < frames@.len() && (#[trigger] frames@[i]).number == g,
            forall|k: (u64, int)|
                0 <= k.1 < 512 && #[trigger] self@[k] != 0 ==> self.written().contains(k.0),
            forall|k: (u64, int)|
                0 <= k.1 < 512 && #[trigger] self@[k] != 0 ==> exists|i: int|
                    0 <= i < frames@.len() && (#[trigger] frames@[i]).number == k.0,
    {
        proof {
            use_type_invariant(self);
        }
        let mut frames: Vec<Frame> = Vec::new();
        let mut i: usize = 0;
        while i < self.frames.len()
            invariant
                i <= self.frames@.len(),
                frames@.len() == i,
                forall|j: int| 0 <= j < i ==> (#[trigger] frames@[j]).number == self.frames@[j],
            decreases self.frames@.len() - i,
        {
            frames.push(Frame { number: self.frames[i] });
            i += 1;
        }
        assert forall|k: (u64, int)| 0 <= k.1 < 512 && #[trigger] self@[k] != 0 implies exists|
            i: int,
        | 0 <= i < frames@.len() && (#[trigger] frames@[i]).number == k.0 by {
            let key = key_of(k.0, k.1);
            assert(self.words@.contains_key(key));
            assert(key as int / 512 == k.0);
            let j = choose|j: int| 0 <= j < self.frames@.len() && self.frames@[j] == k.0;
            assert(frames@[j].number == k.0);
        }
        assert forall|g: u64| self.written().contains(g) <==> exists|i: int|
            0 <= i < frames@.len() && (#[trigger] frames@[i]).number == g by {
            if self.written().contains(g) {
                let j = choose|j: int| 0 <= j < self.frames@.len() && self.frames@[j] == g;
                assert(frames@[j].number == g);
            }
            if exists|i: int| 0 <= i < frames@.len() && (#[trigger] frames@[i]).number == g {
                let j = choose|i: int| 0 <= i < frames@.len() && (#[trigger] frames@[i]).number == g;
                assert(self.frames@[j] == g);
            }
        }
        assert forall|k: (u64, int)| 0 <= k.1 < 512 && #[trigger] self@[k] != 0 implies self.written().contains(
            k.0,
        ) by {
            let key = key_of(k.0, k.1);
            assert(self.words@.contains_key(key));
            assert(key as int / 512 == k.0);
        }
        frames
    }

    /// The view of a memory is defined on every slot of every frame.
    pub proof fn lemma_total(&self)
        ensures
            is_total(self@),
    {
    }

    /// The word in slot `index` of `frame`.
    pub fn read(&self, frame: &Frame, index: usize) -> (word: u64)
        requires
            index < 512,
        ensures
            word == self@[(frame.number, index as int)],
    {
        let key: u128 = frame.number as u128 * 512 + index as u128;
        assert(key == key_of(frame.number, index as int));
        match self.words.get(&key) {
            Some(word) => *word,
            None => 0,
        }
    }

    /// Stores `word` in slot `index` of `frame`.
    #[verifier::rlimit(30)]
    pub fn write(&mut self, frame: &Frame, index: usize, word: u64)
        requires
            index < 512,
        ensures
            final(self)@ == old(self)@.insert((frame.number, index as int), word),
            final(self).written() == old(self).written().insert(frame.number),
    {
        proof {
            use_type_invariant(&*self);
        }
        let key: u128 = frame.number as u128 * 512 + index as u128;
        assert(key == key_of(frame.number, index as int));
        let mut words: HashMap<u128, u64> = HashMap::new();
        core::mem::swap(&mut words, &mut self.words);
        let mut frames: Vec<u64> = Vec::new();
        core::mem::swap(&mut frames, &mut self.frames);
        let listed = frames.len() > 0 && frames[frames.len() - 1] == frame.number;
        if !listed {
            frames.push(frame.number);
        }
        assert(frames@.contains(frame.number)) by {
            assert(frames@[frames@.len() - 1] == frame.number);
        }
        assert forall|other: u64| old(self).frames@.contains(other) implies frames@.contains(
            other,
        ) by {
            let j = choose|j: int| 0 <= j < old(self).frames@.len() && old(self).frames@[j] == other;
            assert(frames@[j] == other);
        }
        core::mem::swap(&mut frames, &mut self.frames);
        words.insert(key, word);
        assert(key as int / 512 == frame.number);
        core::mem::swap(&mut words, &mut self.words);
        assert forall|k: (u64, int)| 0 <= k.1 < 512 implies #[trigger] self@[k] == old(self)@.insert((frame.number, index as int), word)[k] by {
            if k != (frame.number, index as int) {
                assert(key_of(k.0, k.1) != key);
            }
        }
        assert(self@ =~= old(self)@.insert((frame.number, index as int), word));
        assert(self.written() =~= old(self).written().insert(frame.number)) by {
            assert forall|g: u64| self.frames@.contains(g) implies old(self).frames@.contains(g)
                || g == frame.number by {
                let j = choose|j: int| 0 <= j < self.frames@.len() && self.frames@[j] == g;
                if j < old(self).frames@.len() {
                    assert(old(self).frames@[j] == g);
                }
            }
        }
    }

    /// Sets every word of `frame` to zero.
    #[verifier::rlimit(30)]
    pub fn clear_frame(&mut self, frame: &Frame)
        ensures
            final(self)@ == cleared(old(self)@, frame.number),
            final(self).written() == old(self).written().insert(frame.number),
    {
        let mut index: usize = 0;
        while index < 512
            invariant
                index <= 512,
                forall|k: (u64, int)|
                    0 <= k.1 < 512 ==> #[trigger] self@[k] == (if k.0 == frame.number && k.1
                        < index {
                        0u64
                    } else {
                        old(self)@[k]
                    }),
                self.written() == (if index == 0 {
                    old(self).written()
                } else {
                    old(self).written().insert(frame.number)
                }),
            decreases 512 - index,
        {
            self.write(frame, index, 0);
            assert(old(self).written().insert(frame.number).insert(frame.number) =~= old(
                self,
            ).written().insert(frame.number));
            index += 1;
        }
        assert(self@ =~= cleared(old(self)@, frame.number));
    }
}

} // verus!
