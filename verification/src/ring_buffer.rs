//! A fixed-capacity circular queue whose capacity is a power of two.
//!
//! Two cursors count pushes and pops modulo the machine word; masking a
//! cursor with the capacity less one gives the slot it stands for. The
//! queue's view is the sequence of the values pushed and not yet popped,
//! oldest first.

use vstd::prelude::*;
use vstd::arithmetic::power2::is_pow2;
use crate::defaults::is_default;
use crate::errors::{BufferOp, Error};
use crate::power::{folded, lemma_bit_test, lemma_count_distance, lemma_count_successor,
    lemma_masked_is_remainder, lemma_masked_successor, masked, word_modulus};

verus! {

/// How far the cursor `write` is ahead of the cursor `read`, both counting
/// modulo the machine word.
pub open spec fn cursor_distance(read: usize, write: usize) -> int {
    if write >= read {
        write - read
    } else {
        write - read + word_modulus()
    }
}

/// A queue of at most as many values as it has slots. The number of
/// slots is a power of two and never changes.
pub struct RingBuffer<T> {
    data: Vec<T>,
    read: usize,
    write: usize,
}

impl<T> View for RingBuffer<T> {
    type V = Seq<T>;

    /// The queued values, oldest first.
    closed spec fn view(&self) -> Seq<T> {
        Seq::new(
            cursor_distance(self.read, self.write) as nat,
            |k: int| self.data@[self.slot_after_read(1 + k)],
        )
    }
}

impl<T> RingBuffer<T> {
    /// The number of slots.
    pub closed spec fn capacity(&self) -> nat {
        self.data@.len()
    }

    /// The cursor that counts pops.
    pub closed spec fn read_cursor(&self) -> usize {
        self.read
    }

    /// The cursor that counts pushes.
    pub closed spec fn write_cursor(&self) -> usize {
        self.write
    }

    /// The slots, queued or not.
    pub closed spec fn storage(&self) -> Seq<T> {
        self.data@
    }

    /// The slot that a cursor stands for.
    pub open spec fn slot(&self, cursor: usize) -> int {
        masked(cursor, self.capacity() as usize) as int
    }

    spec fn slot_after_read(&self, steps: int) -> int {
        folded(masked(self.read, self.data@.len() as usize) + steps, self.data@.len() as int)
    }

    /// The capacity is a power of two, the write cursor is at most one lap
    /// ahead of the read cursor, and their slots are as far apart as they are.
    pub closed spec fn wf(&self) -> bool {
        &&& is_pow2(self.data@.len() as int)
        &&& cursor_distance(self.read, self.write) <= self.data@.len()
        &&& masked(self.write, self.data@.len() as usize) == self.slot_after_read(
            cursor_distance(self.read, self.write),
        )
    }

    /// How `push(val)` takes the buffer `self` to `after` and answers
    /// `result`: it appends and advances the write cursor while a slot is
    /// free, and refuses without a change when none is.
    pub open spec fn pushed(self, val: T, after: Self, result: Result<(), Error>) -> bool {
        &&& after.capacity() == self.capacity()
        &&& after.read_cursor() == self.read_cursor()
        &&& match result {
            Ok(_) => {
                &&& self@.len() < self.capacity()
                &&& after@ == self@.push(val)
                &&& after.write_cursor() == self.write_cursor().wrapping_add(1)
                &&& after.storage() == self.storage().update(
                    self.slot(after.write_cursor()),
                    val,
                )
            },
            Err(e) => {
                &&& e == Error::BufferOperation(BufferOp::Push)
                &&& self@.len() == self.capacity()
                &&& after == self
            },
        }
    }

    /// How `pop()` takes the buffer `self` to `after` and answers `result`:
    /// it hands out the oldest value, leaves a default value in its slot
    /// and advances the read cursor, or refuses without a change when the
    /// cursors coincide.
    pub open spec fn popped(self, after: Self, result: Result<T, Error>) -> bool where T: Default {
        &&& after.capacity() == self.capacity()
        &&& after.write_cursor() == self.write_cursor()
        &&& match result {
            Ok(value) => {
                &&& self@.len() > 0
                &&& value == self@[0]
                &&& after@ == self@.drop_first()
                &&& after.read_cursor() == self.read_cursor().wrapping_add(1)
                &&& value == self.storage()[self.slot(after.read_cursor())]
                &&& is_default(after.storage()[self.slot(after.read_cursor())])
                &&& after.storage() == self.storage().update(
                    self.slot(after.read_cursor()),
                    after.storage()[self.slot(after.read_cursor())],
                )
            },
            Err(e) => {
                &&& e == Error::BufferOperation(BufferOp::Pop)
                &&& self@.len() == 0
                &&& self.read_cursor() == self.write_cursor()
                &&& after == self
            },
        }
    }

    /// No buffer has a capacity that is not a power of two; zero is none.
    pub proof fn law_capacity_is_power_of_two(&self)
        requires
            self.wf(),
        ensures
            is_pow2(self.capacity() as int),
            self.capacity() > 0,
    {
        reveal(is_pow2);
    }

    /// What well-formedness means for the view and the cursors.
    pub proof fn lemma_wf(&self)
        requires
            self.wf(),
        ensures
            is_pow2(self.capacity() as int),
            self@.len() == cursor_distance(self.read_cursor(), self.write_cursor()),
            self@.len() <= self.capacity(),
            self.capacity() == self.storage().len(),
            self@.len() > 0 ==> self@[0] == self.storage()[self.slot(
                self.read_cursor().wrapping_add(1),
            )],
    {
        let capacity = self.data@.len() as usize;
        assert(capacity == self.data@.len()) by {
            reveal(is_pow2);
            assert(is_pow2(self.data@.len() as int));
            self.lemma_capacity_fits();
        }
        lemma_masked_successor(self.read, capacity);
    }

    proof fn lemma_capacity_fits(&self)
        ensures
            self.data@.len() <= usize::MAX,
    {
        broadcast use vstd::std_specs::vec::axiom_spec_len;
        assert(self.data.len() == self.data@.len());
    }
}

impl<T: Default + Clone> RingBuffer<T> {
    /// An empty buffer of `capacity` slots.
    pub fn new(capacity: usize) -> (buffer: RingBuffer<T>)
        requires
            is_pow2(capacity as int),
        ensures
            buffer.wf(),
            buffer.capacity() == capacity,
            buffer@ == Seq::<T>::empty(),
            buffer.read_cursor() == 0,
            buffer.write_cursor() == 0,
    {
        let buffer = RingBuffer { data: vec![T::default(); capacity], read: 0, write: 0 };
        proof {
            lemma_masked_is_remainder(0, capacity);
            assert(buffer@ =~= Seq::<T>::empty());
        }
        buffer
    }

    /// Appends `val` behind the queued values, unless the buffer is full.
    pub fn push(&mut self, val: T) -> (result: Result<(), Error>)
        requires
            old(self).wf(),
        ensures
            final(self).wf(),
            old(self).pushed(val, *final(self), result),
    {
        if self.full() {
            Err(Error::BufferOperation(BufferOp::Push))
        } else {
            proof {
                self.lemma_capacity_fits();
                lemma_masked_successor(self.write, self.data@.len() as usize);
                lemma_masked_is_remainder(self.read, self.data@.len() as usize);
            }
            self.write = self.write.wrapping_add(1);
            let idx: usize = self.mask(self.write);
            self.data[idx] = val;
            assert(final(self)@ =~= old(self)@.push(val));
            Ok(())
        }
    }

    /// Takes the oldest queued value out, unless the buffer is empty. The
    /// slot it leaves holds a default value.
    pub fn pop(&mut self) -> (result: Result<T, Error>)
        requires
            old(self).wf(),
        ensures
            final(self).wf(),
            old(self).popped(*final(self), result),
    {
        if self.empty() {
            Err(Error::BufferOperation(BufferOp::Pop))
        } else {
            proof {
                self.lemma_capacity_fits();
                lemma_masked_successor(self.read, self.data@.len() as usize);
                lemma_masked_is_remainder(self.read, self.data@.len() as usize);
            }
            self.read = self.read.wrapping_add(1);
            let idx: usize = self.mask(self.read);
            let mut taken = T::default();
            core::mem::swap(&mut self.data[idx], &mut taken);
            assert(final(self)@ =~= old(self)@.drop_first());
            Ok(taken)
        }
    }

    /// A clone of the value that the next `pop` would take out.
    pub fn top(&self) -> (result: Result<T, Error>)
        requires
            self.wf(),
        ensures
            match result {
                Ok(value) => self@.len() > 0 && cloned(self@[0], value),
                Err(e) => e == Error::BufferOperation(BufferOp::Pop) && self@.len() == 0,
            },
    {
        if self.empty() {
            Err(Error::BufferOperation(BufferOp::Pop))
        } else {
            proof {
                self.lemma_capacity_fits();
                lemma_masked_successor(self.read, self.data@.len() as usize);
                lemma_masked_is_remainder(self.read, self.data@.len() as usize);
            }
            let idx: usize = self.mask(self.read.wrapping_add(1));
            Ok(self.data[idx].clone())
        }
    }

    /// Whether every slot is taken.
    pub fn full(&self) -> (result: bool)
        requires
            self.wf(),
        ensures
            result == (self@.len() == self.capacity()),
    {
        self.size() == self.data.len()
    }

    /// Whether nothing is queued; the cursors then coincide.
    pub fn empty(&self) -> (result: bool)
        requires
            self.wf(),
        ensures
            result == (self@.len() == 0),
            result == (self.read_cursor() == self.write_cursor()),
    {
        self.read == self.write
    }

    /// The number of queued values.
    pub fn size(&self) -> (result: usize)
        requires
            self.wf(),
        ensures
            result == self@.len(),
            result == cursor_distance(self.read_cursor(), self.write_cursor()),
    {
        self.write.wrapping_sub(self.read)
    }

    fn mask(&self, val: usize) -> (slot: usize)
        requires
            self.wf(),
        ensures
            slot == masked(val, self.data@.len() as usize),
            slot < self.data@.len(),
    {
        proof {
            self.lemma_capacity_fits();
            lemma_masked_is_remainder(val, self.data@.len() as usize);
            reveal(is_pow2);
        }
        val & (self.data.len() - 1)
    }
}

impl<T: Default> RingBuffer<T> {
    /// The cursors of a buffer that has seen `pushes` accepted pushes and
    /// `pops` answered pops hold those counts modulo the word size.
    pub open spec fn counts(self, pushes: nat, pops: nat) -> bool {
        &&& self.write_cursor() == pushes % word_modulus() as nat
        &&& self.read_cursor() == pops % word_modulus() as nat
        &&& pops <= pushes <= pops + self.capacity()
    }

    /// A buffer whose cursors both stand at zero has seen no push and no
    /// pop.
    pub proof fn law_fresh_counts(self)
        requires
            self.wf(),
            self.read_cursor() == 0,
            self.write_cursor() == 0,
        ensures
            self.counts(0, 0),
    {
        lemma_count_distance(0, 0);
    }

    /// The size of a buffer is the number of accepted pushes less the
    /// number of answered pops, however often the cursors have wrapped.
    pub proof fn law_size_is_pushes_less_pops(self, pushes: nat, pops: nat)
        requires
            self.wf(),
            self.counts(pushes, pops),
        ensures
            self@.len() == pushes - pops,
            cursor_distance(self.read_cursor(), self.write_cursor()) == pushes - pops,
    {
        self.lemma_wf();
        self.lemma_capacity_fits();
        lemma_count_distance(pushes, pops);
    }

    /// A push that is accepted adds one to the count of pushes that the
    /// write cursor holds; a refused one leaves the counts.
    pub proof fn law_push_counts(
        self,
        val: T,
        after: Self,
        result: Result<(), Error>,
        pushes: nat,
        pops: nat,
    )
        requires
            self.wf(),
            self.counts(pushes, pops),
            self.pushed(val, after, result),
        ensures
            result is Ok ==> after.counts(pushes + 1, pops),
            result is Err ==> after.counts(pushes, pops),
    {
        self.law_size_is_pushes_less_pops(pushes, pops);
        lemma_count_successor(pushes);
    }

    /// A pop that is answered adds one to the count of pops that the read
    /// cursor holds; a refused one leaves the counts.
    pub proof fn law_pop_counts(
        self,
        after: Self,
        result: Result<T, Error>,
        pushes: nat,
        pops: nat,
    )
        requires
            self.wf(),
            self.counts(pushes, pops),
            self.popped(after, result),
        ensures
            result is Ok ==> after.counts(pushes, pops + 1),
            result is Err ==> after.counts(pushes, pops),
    {
        self.law_size_is_pushes_less_pops(pushes, pops);
        lemma_count_successor(pops);
    }

    /// Pushes into an empty buffer are accepted while fewer than the
    /// capacity went before, and the buffer then holds all that was pushed;
    /// every later push is refused and leaves the buffer as it was.
    pub proof fn law_push_until_full(
        states: Seq<Self>,
        values: Seq<T>,
        results: Seq<Result<(), Error>>,
    )
        requires
            states.len() == values.len() + 1,
            results.len() == values.len(),
            forall|i: int| 0 <= i < states.len() ==> (#[trigger] states[i]).wf(),
            states[0]@.len() == 0,
            forall|i: int|
                0 <= i < values.len() ==> (#[trigger] states[i]).pushed(
                    values[i],
                    states[i + 1],
                    results[i],
                ),
        ensures
            forall|i: int|
                0 <= i < values.len() && i < states[0].capacity() ==> {
                    &&& (#[trigger] results[i]) is Ok
                    &&& states[i + 1]@ == values.take(i + 1)
                    &&& states[i + 1]@.len() == i + 1
                },
            forall|i: int|
                0 <= i < values.len() && i >= states[0].capacity() ==> {
                    &&& (#[trigger] results[i]) == Err::<(), Error>(
                        Error::BufferOperation(BufferOp::Push),
                    )
                    &&& states[i + 1] == states[i]
                    &&& states[i + 1]@ == values.take(states[0].capacity() as int)
                },
    {
        let capacity = states[0].capacity() as int;
        assert forall|i: int| 0 <= i < values.len() implies {
            &&& i < capacity ==> {
                &&& (#[trigger] results[i]) is Ok
                &&& states[i + 1]@ == values.take(i + 1)
                &&& states[i + 1]@.len() == i + 1
            }
            &&& i >= capacity ==> {
                &&& results[i] == Err::<(), Error>(Error::BufferOperation(BufferOp::Push))
                &&& states[i + 1] == states[i]
                &&& states[i + 1]@ == values.take(capacity)
            }
        } by {
            Self::lemma_after_pushes(states, values, results, i);
            Self::lemma_after_pushes(states, values, results, i + 1);
            assert(states[i].pushed(values[i], states[i + 1], results[i]));
        }
    }

    proof fn lemma_after_pushes(
        states: Seq<Self>,
        values: Seq<T>,
        results: Seq<Result<(), Error>>,
        n: int,
    )
        requires
            states.len() == values.len() + 1,
            results.len() == values.len(),
            forall|i: int| 0 <= i < states.len() ==> (#[trigger] states[i]).wf(),
            states[0]@.len() == 0,
            forall|i: int|
                0 <= i < values.len() ==> (#[trigger] states[i]).pushed(
                    values[i],
                    states[i + 1],
                    results[i],
                ),
            0 <= n <= values.len(),
        ensures
            states[n].capacity() == states[0].capacity(),
            n <= states[0].capacity() ==> states[n]@ == values.take(n),
            n > states[0].capacity() ==> states[n]@ == values.take(states[0].capacity() as int),
        decreases n,
    {
        if n == 0 {
            assert(states[0]@ =~= values.take(0));
        } else {
            Self::lemma_after_pushes(states, values, results, n - 1);
            assert(states[n - 1].pushed(values[n - 1], states[n], results[n - 1]));
            states[n - 1].lemma_wf();
            if n <= states[0].capacity() {
                assert(values.take(n - 1).push(values[n - 1]) =~= values.take(n));
            }
        }
    }
}

/// Tells whether `val` is a power of two. Zero is none.
pub fn is_power_of_two(val: usize) -> (result: bool)
    ensures
        result == is_pow2(val as int),
{
    if val == 0 {
        proof {
            reveal(is_pow2);
        }
        false
    } else {
        proof {
            lemma_bit_test(val);
        }
        (val & (val - 1)) == 0
    }
}

} // verus!
