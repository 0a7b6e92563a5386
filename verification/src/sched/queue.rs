//! A queue in a ring buffer, with a fixed capacity.

use crate::sync::WellFormed;
use vstd::prelude::*;

verus! {

/// How many slots the kernel's tables have.
pub const CAPACITY: usize = 256;

/// An empty slot.
fn empty_slot<T>(_index: usize) -> (slot: Option<T>)
    ensures
        slot is None,
{
    None
}

/// Calls `core::array::from_fn` with `empty_slot`. The function makes an array whose elements are
/// the results of the calls, so every slot is empty.
#[verifier::external_body]
pub(crate) fn empty_slots<T>() -> (slots: [Option<T>; CAPACITY])
    ensures
        forall|i: int| 0 <= i < CAPACITY ==> slots@[i] is None,
{
    core::array::from_fn(empty_slot::<T>)
}

/// A first-in, first-out queue of at most `CAPACITY` items.
pub struct Queue<T> {
    data: [Option<T>; CAPACITY],
    head: usize,
    tail: usize,
    len: usize,
}

/// The slot that lies `i` slots past slot `head` in the ring.
spec fn slot(head: int, i: int) -> int {
    if head + i < CAPACITY {
        head + i
    } else {
        head + i - CAPACITY
    }
}

impl<T> View for Queue<T> {
    type V = Seq<T>;

    /// The items, the one that came first at the front.
    closed spec fn view(&self) -> Seq<T> {
        Seq::new(self.len as nat, |i: int| self.data@[slot(self.head as int, i)]->0)
    }
}

impl<T> WellFormed for Queue<T> {
    /// The items fill the slots from `head` up to `tail`, around the end of the ring.
    closed spec fn wf(&self) -> bool {
        &&& self.head < CAPACITY
        &&& self.len <= CAPACITY
        &&& self.tail == slot(self.head as int, self.len as int) % CAPACITY as int
        &&& forall|i: int|
            0 <= i < self.len ==> (#[trigger] self.data@[slot(self.head as int, i)]) is Some
    }
}

impl<T> Queue<T> {
    pub fn new() -> (queue: Self)
        ensures
            queue.wf(),
            queue@ == Seq::<T>::empty(),
    {
        let queue = Queue { data: empty_slots(), head: 0, tail: 0, len: 0 };
        assert(queue@ =~= Seq::<T>::empty());
        queue
    }

    pub fn len(&self) -> (len: usize)
        requires
            self.wf(),
        ensures
            len == self@.len(),
            len <= CAPACITY,
    {
        self.len
    }

    /// Appends `item`, or hands it back where the queue is full.
    pub fn push(&mut self, item: T) -> (r: Result<(), T>)
        requires
            old(self).wf(),
        ensures
            final(self).wf(),
            if old(self)@.len() == CAPACITY {
                r == Err::<(), T>(item) && final(self)@ == old(self)@
            } else {
                r == Ok::<(), T>(()) && final(self)@ == old(self)@.push(item)
            },
            old(self)@.len() <= CAPACITY,
    {
        if self.len == CAPACITY {
            return Err(item);  // full
        }
        self.data[self.tail] = Some(item);
        self.tail = (self.tail + 1) % CAPACITY;
        self.len = self.len + 1;
        assert(self@ =~= old(self)@.push(item));
        Ok(())
    }

    /// Takes the item that came first, if there is one.
    pub fn pop(&mut self) -> (r: Option<T>)
        requires
            old(self).wf(),
        ensures
            final(self).wf(),
            if old(self)@.len() == 0 {
                r is None && final(self)@ == old(self)@
            } else {
                r == Some(old(self)@.first()) && final(self)@ == old(self)@.drop_first()
            },
            old(self)@.len() <= CAPACITY,
    {
        if self.len == 0 {
            return None;
        }
        assert(self.data@[slot(self.head as int, 0)] is Some);
        let item: Option<T> = self.data[self.head].take();
        self.head = (self.head + 1) % CAPACITY;
        self.len = self.len - 1;
        assert forall|i: int| 0 <= i < self.len implies (#[trigger] self.data@[slot(
            self.head as int,
            i,
        )]) == old(self).data@[slot(old(self).head as int, i + 1)] by {}
        assert(self@ =~= old(self)@.drop_first());
        item
    }
}

/// Items come out in the order in which they went in: what is pushed does not change what is
/// popped before it, and an item that is pushed to an empty queue is the next to be popped.
pub proof fn first_in_first_out<T>(items: Seq<T>, item: T)
    ensures
        items.len() > 0 ==> items.push(item).first() == items.first(),
        items.len() > 0 ==> items.push(item).drop_first() == items.drop_first().push(item),
        items.len() == 0 ==> items.push(item).first() == item,
        items.len() == 0 ==> items.push(item).drop_first() == items,
{
    if items.len() > 0 {
        assert(items.push(item).drop_first() =~= items.drop_first().push(item));
    } else {
        assert(items.push(item).drop_first() =~= items);
    }
}

/// A call of `push` or `pop`.
pub enum QueueCall<T> {
    Push(T),
    Pop,
}

/// What became of a queue that held `items` after `calls`: what it holds then, what was pushed
/// and not handed back, and what was popped, in order.
pub open spec fn called<T>(items: Seq<T>, calls: Seq<QueueCall<T>>) -> (Seq<T>, Seq<T>, Seq<T>)
    decreases calls.len(),
{
    if calls.len() == 0 {
        (items, Seq::empty(), Seq::empty())
    } else {
        let (held, pushed, popped) = called(items, calls.drop_last());
        match calls.last() {
            QueueCall::Push(item) => if held.len() == CAPACITY {
                (held, pushed, popped)
            } else {
                (held.push(item), pushed.push(item), popped)
            },
            QueueCall::Pop => if held.len() == 0 {
                (held, pushed, popped)
            } else {
                (held.drop_first(), pushed, popped.push(held.first()))
            },
        }
    }
}

/// Over any calls, the items come out in the order in which they went in, each of them once: what
/// was popped and what is left is what was there and what was pushed.
pub proof fn queue_keeps_the_order<T>(items: Seq<T>, calls: Seq<QueueCall<T>>)
    requires
        items.len() <= CAPACITY,
    ensures
        ({
            let (held, pushed, popped) = called(items, calls);
            &&& popped + held == items + pushed
            &&& held.len() <= CAPACITY
        }),
    decreases calls.len(),
{
    let (held, pushed, popped) = called(items, calls);
    if calls.len() == 0 {
        assert(popped + held =~= items + pushed);
    } else {
        queue_keeps_the_order(items, calls.drop_last());
        let (held_before, pushed_before, popped_before) = called(items, calls.drop_last());
        match calls.last() {
            QueueCall::Push(item) => {
                assert((popped_before + held_before).push(item) =~= popped_before
                    + held_before.push(item));
                assert((items + pushed_before).push(item) =~= items + pushed_before.push(item));
            },
            QueueCall::Pop => {
                if held_before.len() > 0 {
                    assert(popped + held =~= popped_before + held_before);
                }
            },
        }
    }
}

} // verus!
