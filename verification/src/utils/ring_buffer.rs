//! A bounded first-in first-out ring buffer.
//!
//! The buffer keeps its items in a fixed array of slots. `start` is the slot of the
//! oldest item, `count` the number of items held, and `end` the slot that the next
//! push writes. Indices wrap around at the capacity.
use vstd::prelude::*;

verus! {

/// Wraps an index that lies below twice the capacity back into `0..cap`.
pub open spec fn wrap(x: int, cap: int) -> int {
    if x < cap {
        x
    } else {
        x - cap
    }
}

/// What a buffer that holds `q` and has room for `cap` items holds after a push of `v`.
pub open spec fn queue_after_push<T>(q: Seq<T>, cap: nat, v: T) -> Seq<T> {
    if q.len() < cap {
        q.push(v)
    } else {
        q
    }
}

/// What a buffer that holds `q` holds after a pop.
pub open spec fn queue_after_pop<T>(q: Seq<T>) -> Seq<T> {
    if q.len() > 0 {
        q.drop_first()
    } else {
        q
    }
}

/// What a pop from a buffer that holds `q` returns.
pub open spec fn popped_value<T>(q: Seq<T>) -> Option<T> {
    if q.len() > 0 {
        Some(q[0])
    } else {
        None
    }
}

/// What a buffer that holds `q` holds after pushing each item of `xs` in turn.
pub open spec fn queue_after_push_all<T>(q: Seq<T>, cap: nat, xs: Seq<T>) -> Seq<T>
    decreases xs.len(),
{
    if xs.len() == 0 {
        q
    } else {
        queue_after_push_all(queue_after_push(q, cap, xs[0]), cap, xs.drop_first())
    }
}

/// The values that `n` pops in a row return from a buffer that holds `q`, in order.
pub open spec fn values_of_pops<T>(q: Seq<T>, n: nat) -> Seq<Option<T>>
    decreases n,
{
    if n == 0 {
        Seq::empty()
    } else {
        seq![popped_value(q)] + values_of_pops(queue_after_pop(q), (n - 1) as nat)
    }
}

/// One call on a buffer, in a history of calls.
pub enum BufferOp<T> {
    Push(T),
    Pop,
}

/// What a buffer that holds `q` and has room for `cap` items holds after the calls `ops`.
pub open spec fn queue_after_ops<T>(q: Seq<T>, cap: nat, ops: Seq<BufferOp<T>>) -> Seq<T>
    decreases ops.len(),
{
    if ops.len() == 0 {
        q
    } else {
        match ops[0] {
            BufferOp::Push(v) => queue_after_ops(queue_after_push(q, cap, v), cap, ops.drop_first()),
            BufferOp::Pop => queue_after_ops(queue_after_pop(q), cap, ops.drop_first()),
        }
    }
}

/// How many of the calls `ops` are pushes that succeed, from a buffer holding `q`.
pub open spec fn accepted_pushes<T>(q: Seq<T>, cap: nat, ops: Seq<BufferOp<T>>) -> nat
    decreases ops.len(),
{
    if ops.len() == 0 {
        0
    } else {
        match ops[0] {
            BufferOp::Push(v) => (if q.len() < cap {
                1nat
            } else {
                0nat
            }) + accepted_pushes(queue_after_push(q, cap, v), cap, ops.drop_first()),
            BufferOp::Pop => accepted_pushes(queue_after_pop(q), cap, ops.drop_first()),
        }
    }
}

/// How many of the calls `ops` are pops that return an item, from a buffer holding `q`.
pub open spec fn returned_pops<T>(q: Seq<T>, cap: nat, ops: Seq<BufferOp<T>>) -> nat
    decreases ops.len(),
{
    if ops.len() == 0 {
        0
    } else {
        match ops[0] {
            BufferOp::Push(v) => returned_pops(queue_after_push(q, cap, v), cap, ops.drop_first()),
            BufferOp::Pop => (if q.len() > 0 {
                1nat
            } else {
                0nat
            }) + returned_pops(queue_after_pop(q), cap, ops.drop_first()),
        }
    }
}

/// Whether every push of `xs` in turn, from a buffer holding `q`, finds room.
pub open spec fn all_pushes_accepted<T>(q: Seq<T>, cap: nat, xs: Seq<T>) -> bool
    decreases xs.len(),
{
    xs.len() == 0 || (q.len() < cap && all_pushes_accepted(
        queue_after_push(q, cap, xs[0]),
        cap,
        xs.drop_first(),
    ))
}

/// A bounded FIFO queue over a fixed array of slots.
pub struct LockFreeBoundedRingBuffer<T> {
    buffer: Vec<Option<T>>,
    start: usize,
    end: usize,
    count: usize,
}

impl<T> LockFreeBoundedRingBuffer<T> {
    /// Number of slots of a buffer made by `default`.
    pub const DEFAULT_BUFFER_SIZE: usize = 1048576;

    /// The number of items the buffer can hold.
    pub closed spec fn spec_capacity(&self) -> nat {
        self.buffer@.len()
    }

    /// The position of slot `j` counted from the oldest item.
    spec fn offset(&self, j: int) -> int {
        if j >= self.start {
            j - self.start
        } else {
            j + self.buffer@.len() - self.start
        }
    }

    /// The items held, oldest first.
    pub closed spec fn view(&self) -> Seq<T> {
        Seq::new(
            self.count as nat,
            |i: int| self.buffer@[wrap(self.start + i, self.buffer@.len() as int)].unwrap(),
        )
    }

    /// Well-formedness: the indices agree with the count, and exactly the slots of the
    /// held items are filled.
    pub closed spec fn wf(&self) -> bool {
        let cap = self.buffer@.len() as int;
        &&& self.count <= cap
        &&& cap == 0 ==> self.start == 0 && self.end == 0
        &&& cap > 0 ==> {
            &&& self.start < cap
            &&& self.end < cap
            &&& self.end == wrap(self.start + self.count, cap)
        }
        &&& forall|j: int|
            0 <= j < cap ==> ((#[trigger] self.buffer@[j]) is Some <==> self.offset(j)
                < self.count)
    }

    /// A buffer with room for `bound` items, holding none.
    pub fn new(bound: usize) -> (r: Self)
        ensures
            r.wf(),
            r@ == Seq::<T>::empty(),
            r.spec_capacity() == bound,
    {
        let mut buffer: Vec<Option<T>> = Vec::new();
        let mut i: usize = 0;
        while i < bound
            invariant
                i <= bound,
                buffer@.len() == i,
                forall|j: int| 0 <= j < i ==> (#[trigger] buffer@[j]) is None,
            decreases bound - i,
        {
            buffer.push(None);
            i = i + 1;
        }
        Self { buffer, start: 0, end: 0, count: 0 }
    }

    /// Writes `value` into the empty slot `idx`.
    fn insert_value(&mut self, idx: usize, value: T)
        requires
            idx < old(self).buffer@.len(),
        ensures
            final(self).buffer@ == old(self).buffer@.update(idx as int, Some(value)),
            final(self).start == old(self).start,
            final(self).end == old(self).end,
            final(self).count == old(self).count,
    {
        self.buffer.set(idx, Some(value));
    }

    /// Takes the value out of the filled slot `idx`, leaving it empty.
    fn get_value(&mut self, idx: usize) -> (r: T)
        requires
            idx < old(self).buffer@.len(),
            old(self).buffer@[idx as int] is Some,
        ensures
            r == old(self).buffer@[idx as int].unwrap(),
            final(self).buffer@ == old(self).buffer@.update(idx as int, None),
            final(self).start == old(self).start,
            final(self).end == old(self).end,
            final(self).count == old(self).count,
    {
        let v = self.buffer[idx].take();
        v.unwrap()
    }

    /// The number of items the buffer can hold.
    pub fn capacity(&self) -> (r: usize)
        ensures
            r == self.spec_capacity(),
    {
        self.buffer.len()
    }

    /// The number of items held.
    pub fn len(&self) -> (r: usize)
        requires
            self.wf(),
        ensures
            r == self@.len(),
    {
        self.count
    }

    /// Whether the buffer holds no item.
    pub fn is_empty(&self) -> (r: bool)
        requires
            self.wf(),
        ensures
            r == (self@.len() == 0),
    {
        self.len() == 0
    }

    /// Appends `value` after the newest item; a full buffer refuses it with
    /// `"Buffer is full"` and stays as it was.
    #[verifier::rlimit(30)]
    pub fn push(&mut self, value: T) -> (r: Result<(), String>)
        requires
            old(self).wf(),
        ensures
            final(self).wf(),
            final(self).spec_capacity() == old(self).spec_capacity(),
            final(self)@ == queue_after_push(old(self)@, old(self).spec_capacity(), value),
            r is Ok <==> old(self)@.len() < old(self).spec_capacity(),
            r matches Err(e) ==> e@ == "Buffer is full"@,
    {
        if self.len() == self.capacity() {
            return Err("Buffer is full".to_owned());
        }
        let current_end = self.end;
        let new_end = if current_end + 1 < self.buffer.len() {
            current_end + 1
        } else {
            0
        };
        self.insert_value(current_end, value);
        self.count = self.count + 1;
        self.end = new_end;
        proof {
            let cap = self.buffer@.len() as int;
            assert(self.offset(current_end as int) == old(self).count);
            assert forall|j: int| 0 <= j < cap implies ((#[trigger] self.buffer@[j]) is Some
                <==> self.offset(j) < self.count) by {
                if j != current_end {
                    assert(old(self).buffer@[j] == self.buffer@[j]);
                }
            }
            assert forall|i: int| 0 <= i < old(self)@.len() implies #[trigger] self@[i] == old(
                self,
            )@[i] by {
                assert(old(self).offset(wrap(self.start + i, cap)) == i);
            }
            assert(self@ =~= old(self)@.push(value));
        }
        Ok(())
    }

    /// Removes and returns the oldest item, or `None` when the buffer is empty.
    #[verifier::rlimit(30)]
    pub fn pop(&mut self) -> (r: Option<T>)
        requires
            old(self).wf(),
        ensures
            final(self).wf(),
            final(self).spec_capacity() == old(self).spec_capacity(),
            r == popped_value(old(self)@),
            final(self)@ == queue_after_pop(old(self)@),
    {
        let current_start = self.start;
        let current_end = self.end;

        if current_start == current_end && self.count == 0 {
            return None;
        }
        proof {
            assert(self.offset(current_start as int) == 0);
            assert(current_start < self.buffer@.len());
        }
        let value = self.get_value(current_start);
        self.count = self.count - 1;

        let cap = self.buffer.len();
        let new_start = if current_start + 1 >= cap {
            0
        } else {
            current_start + 1
        };
        self.start = new_start;
        proof {
            let cap = self.buffer@.len() as int;
            assert(value == old(self)@[0]);
            assert forall|j: int| 0 <= j < cap implies ((#[trigger] self.buffer@[j]) is Some
                <==> self.offset(j) < self.count) by {
                if j != current_start {
                    assert(old(self).buffer@[j] == self.buffer@[j]);
                }
            }
            assert forall|i: int| 0 <= i < self@.len() implies #[trigger] self@[i] == old(
                self,
            )@[i + 1] by {
                assert(wrap(self.start + i, cap) == wrap(current_start + i + 1, cap));
                assert(old(self).offset(wrap(self.start + i, cap)) == i + 1);
            }
            assert(self@ =~= old(self)@.drop_first());
        }
        Some(value)
    }
}

impl<T> Default for LockFreeBoundedRingBuffer<T> {
    /// A buffer with `DEFAULT_BUFFER_SIZE` slots, holding none.
    fn default() -> (r: Self)
        ensures
            r.wf(),
            r@ == Seq::<T>::empty(),
            r.spec_capacity() == Self::DEFAULT_BUFFER_SIZE,
    {
        Self::new(Self::DEFAULT_BUFFER_SIZE)
    }
}

/// The buffer never holds more items than it has room for.
pub proof fn law_len_within_capacity<T>(b: LockFreeBoundedRingBuffer<T>)
    requires
        b.wf(),
    ensures
        b@.len() <= b.spec_capacity(),
{
}

/// A full buffer refuses a push and is left unchanged.
pub proof fn law_full_buffer_refuses_push<T>(q: Seq<T>, cap: nat, v: T)
    requires
        q.len() == cap,
    ensures
        queue_after_push(q, cap, v) == q,
{
}

/// On a buffer that holds items and has room, a push does not change what the next pop
/// returns, and pushing then popping leaves the same items as popping then pushing.
pub proof fn law_push_keeps_oldest<T>(q: Seq<T>, cap: nat, v: T)
    requires
        0 < q.len() < cap,
    ensures
        popped_value(queue_after_push(q, cap, v)) == popped_value(q),
        queue_after_pop(queue_after_push(q, cap, v)) == queue_after_push(
            queue_after_pop(q),
            cap,
            v,
        ),
{
    assert(queue_after_pop(queue_after_push(q, cap, v)) =~= queue_after_push(
        queue_after_pop(q),
        cap,
        v,
    ));
}

/// Pushing each of `xs` into a buffer whose room suffices keeps them all, in order.
proof fn lemma_push_all_appends<T>(q: Seq<T>, cap: nat, xs: Seq<T>)
    requires
        q.len() + xs.len() <= cap,
    ensures
        queue_after_push_all(q, cap, xs) == q + xs,
    decreases xs.len(),
{
    if xs.len() == 0 {
        assert(q + xs =~= q);
    } else {
        lemma_push_all_appends(q.push(xs[0]), cap, xs.drop_first());
        assert(q.push(xs[0]) + xs.drop_first() =~= q + xs);
    }
}

/// Popping as many times as there are items returns every item, oldest first.
proof fn lemma_pops_return_all<T>(q: Seq<T>)
    ensures
        values_of_pops(q, q.len()) == q.map_values(|x: T| Some(x)),
    decreases q.len(),
{
    if q.len() == 0 {
        assert(values_of_pops(q, 0) =~= q.map_values(|x: T| Some(x)));
    } else {
        lemma_pops_return_all(q.drop_first());
        assert(values_of_pops(q, q.len()) =~= q.map_values(|x: T| Some(x)));
    }
}

/// Pushes into room enough all succeed.
proof fn lemma_pushes_accepted<T>(q: Seq<T>, cap: nat, xs: Seq<T>)
    requires
        q.len() + xs.len() <= cap,
    ensures
        all_pushes_accepted(q, cap, xs),
    decreases xs.len(),
{
    if xs.len() > 0 {
        lemma_pushes_accepted(q.push(xs[0]), cap, xs.drop_first());
    }
}

/// Popping one time more than there are items returns every item, oldest first, and
/// then `None`.
proof fn lemma_pops_then_none<T>(q: Seq<T>)
    ensures
        values_of_pops(q, q.len() + 1) == q.map_values(|x: T| Some(x)).push(None),
    decreases q.len(),
{
    if q.len() == 0 {
        assert(values_of_pops(queue_after_pop(q), 0) =~= Seq::<Option<T>>::empty());
        assert(values_of_pops(q, 1) =~= seq![None::<T>]);
        assert(q.map_values(|x: T| Some(x)).push(None) =~= seq![None::<T>]);
    } else {
        lemma_pops_then_none(q.drop_first());
        assert(values_of_pops(q, q.len() + 1) =~= q.map_values(|x: T| Some(x)).push(None));
    }
}

/// First in, first out, across any wrap-around: from an empty buffer (whatever calls
/// emptied it), pushing the items of `xs`, as many as it has room for, succeeds for
/// every one; popping as many times then returns exactly those items in the order in
/// which they were pushed, and one more pop returns `None`.
pub proof fn law_fifo_order<T>(cap: nat, xs: Seq<T>)
    requires
        xs.len() <= cap,
    ensures
        all_pushes_accepted(Seq::empty(), cap, xs),
        queue_after_push_all(Seq::empty(), cap, xs) == xs,
        values_of_pops(queue_after_push_all(Seq::empty(), cap, xs), xs.len()) == xs.map_values(
            |x: T| Some(x),
        ),
        values_of_pops(queue_after_push_all(Seq::empty(), cap, xs), xs.len() + 1)
            == xs.map_values(|x: T| Some(x)).push(None),
{
    lemma_push_all_appends(Seq::empty(), cap, xs);
    assert(Seq::<T>::empty() + xs =~= xs);
    lemma_pops_return_all(xs);
    lemma_pops_then_none(xs);
    lemma_pushes_accepted(Seq::empty(), cap, xs);
}

/// Length over any history of calls on the items alone: from a buffer within its room,
/// the number of items held after any calls is the number held before, plus the pushes
/// that succeeded, minus the pops that returned an item, and never more than the room.
pub proof fn law_history_len<T>(q: Seq<T>, cap: nat, ops: Seq<BufferOp<T>>)
    requires
        q.len() <= cap,
    ensures
        queue_after_ops(q, cap, ops).len() + returned_pops(q, cap, ops) == q.len()
            + accepted_pushes(q, cap, ops),
        queue_after_ops(q, cap, ops).len() <= cap,
    decreases ops.len(),
{
    if ops.len() > 0 {
        match ops[0] {
            BufferOp::Push(v) => law_history_len(queue_after_push(q, cap, v), cap, ops.drop_first()),
            BufferOp::Pop => law_history_len(queue_after_pop(q), cap, ops.drop_first()),
        }
    }
}

/// `after` is what `push(v)` leaves of `before`, as `push` ensures.
pub open spec fn is_push_step<T>(
    before: LockFreeBoundedRingBuffer<T>,
    v: T,
    after: LockFreeBoundedRingBuffer<T>,
) -> bool {
    &&& after.wf()
    &&& after.spec_capacity() == before.spec_capacity()
    &&& after@ == queue_after_push(before@, before.spec_capacity(), v)
}

/// `after` is what `pop()` leaves of `before`, as `pop` ensures.
pub open spec fn is_pop_step<T>(
    before: LockFreeBoundedRingBuffer<T>,
    after: LockFreeBoundedRingBuffer<T>,
) -> bool {
    &&& after.wf()
    &&& after.spec_capacity() == before.spec_capacity()
    &&& after@ == queue_after_pop(before@)
}

/// `bs` is the sequence of states of one buffer through the calls `ops`: each state is
/// what the call leaves of the one before.
pub open spec fn is_history<T>(bs: Seq<LockFreeBoundedRingBuffer<T>>, ops: Seq<BufferOp<T>>) -> bool {
    &&& bs.len() == ops.len() + 1
    &&& forall|i: int|
        0 <= i < ops.len() ==> match #[trigger] ops[i] {
            BufferOp::Push(v) => is_push_step(bs[i], v, bs[i + 1]),
            BufferOp::Pop => is_pop_step(bs[i], bs[i + 1]),
        }
}

/// Over any history of pushes and pops on a well-formed buffer, successful or not: the
/// capacity never changes; the items held are those the calls leave of the first
/// state's; and their number is the first state's, plus the pushes that succeeded,
/// minus the pops that returned an item, never more than the capacity.
pub proof fn law_history<T>(bs: Seq<LockFreeBoundedRingBuffer<T>>, ops: Seq<BufferOp<T>>)
    requires
        is_history(bs, ops),
        bs[0].wf(),
    ensures
        bs.last().spec_capacity() == bs[0].spec_capacity(),
        bs.last()@ == queue_after_ops(bs[0]@, bs[0].spec_capacity(), ops),
        bs.last()@.len() + returned_pops(bs[0]@, bs[0].spec_capacity(), ops) == bs[0]@.len()
            + accepted_pushes(bs[0]@, bs[0].spec_capacity(), ops),
        bs.last()@.len() <= bs.last().spec_capacity(),
    decreases ops.len(),
{
    law_len_within_capacity(bs[0]);
    law_history_len(bs[0]@, bs[0].spec_capacity(), ops);
    if ops.len() > 0 {
        let rest_bs = bs.drop_first();
        let rest_ops = ops.drop_first();
        assert forall|i: int| 0 <= i < rest_ops.len() implies match #[trigger] rest_ops[i] {
            BufferOp::Push(v) => is_push_step(rest_bs[i], v, rest_bs[i + 1]),
            BufferOp::Pop => is_pop_step(rest_bs[i], rest_bs[i + 1]),
        } by {
            assert(rest_ops[i] == ops[i + 1]);
            assert(rest_bs[i] == bs[i + 1]);
            assert(rest_bs[i + 1] == bs[i + 2]);
        }
        let o = ops[0];
        assert(match o {
            BufferOp::Push(v) => is_push_step(bs[0], v, bs[1]),
            BufferOp::Pop => is_pop_step(bs[0], bs[1]),
        });
        law_history(rest_bs, rest_ops);
        assert(rest_bs.last() == bs.last());
    }
}

} // verus!
