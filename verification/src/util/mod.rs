use vstd::prelude::*;

pub mod pickle_asset_loader;

verus! {

/// A fixed-size ring of packed inputs, newest entry at `head`.
pub struct Buffer {
    pub vec: Vec<u32>,
    head: usize,
}

impl Default for Buffer {
    fn default() -> (b: Self)
        ensures
            b.ring().len() == 0,
            b.head_index() == 0,
    {
        Buffer { vec: Vec::new(), head: 0 }
    }
}

impl Buffer {
    /// Position of the newest entry.
    pub closed spec fn head_index(&self) -> nat {
        self.head as nat
    }

    /// The slots of the ring, in storage order.
    pub closed spec fn ring(&self) -> Seq<u32> {
        self.vec@
    }

    /// Slot that `get(index)` reads: `head + index` when it lies inside the ring, slot 0 otherwise.
    pub open spec fn slot(&self, index: int) -> int {
        if self.head_index() + index > self.ring().len() - 1 {
            0
        } else {
            self.head_index() + index
        }
    }

    /// The number of slots.
    pub(crate) fn ring_len(&self) -> (n: usize)
        ensures
            n == self.ring().len(),
    {
        self.vec.len()
    }

    pub fn with_capacity(capacity: usize) -> (b: Buffer)
        ensures
            b.ring() == Seq::new(capacity as nat, |i: int| 0u32),
            b.head_index() == 0,
    {
        Buffer { vec: vec![0; capacity], head: 0 }
    }

    pub fn get(&self, index: usize) -> (r: Option<&u32>)
        requires
            self.ring().len() > 0,
            self.head_index() + index <= usize::MAX,
        ensures
            0 <= self.slot(index as int) < self.ring().len() ==> r == Some(&self.ring()[self.slot(index as int)]),
            self.slot(index as int) >= self.ring().len() ==> r is None,
            self.wf() && self.head_index() + index < self.ring().len() ==> r == Some(
                &self.newest_first()[index as int],
            ),
    {
        let raw = self.head + index;
        let new_index = if raw > (self.vec.len() - 1) { 0 } else { raw };
        self.vec.as_slice().get(new_index)
    }

    pub fn get_mut(&mut self, index: usize) -> (r: Option<&mut u32>)
        requires
            old(self).ring().len() > 0,
            old(self).head_index() + index <= usize::MAX,
        ensures
            0 <= old(self).slot(index as int) < old(self).ring().len() ==> r is Some,
            old(self).slot(index as int) >= old(self).ring().len() ==> r is None && *final(self) == *old(self),
            r matches Some(x) ==> *x == old(self).ring()[old(self).slot(index as int)]
                && final(self).ring() == old(self).ring().update(old(self).slot(index as int), *final(x))
                && final(self).head_index() == old(self).head_index(),
    {
        let raw = self.head + index;
        let new_index = if raw > (self.vec.len() - 1) { 0 } else { raw };
        if new_index < self.vec.len() {
            Some(&mut self.vec[new_index])
        } else {
            None
        }
    }


    /// The ring read newest first: position `i` holds the entry inserted `i` insertions ago.
    pub open spec fn newest_first(&self) -> Seq<u32> {
        Seq::new(self.ring().len(), |i: int| self.ring()[self.ring_pos(i)])
    }

    /// Storage slot of the entry `i` positions after the head, wrapping once past the end.
    pub open spec fn ring_pos(&self, i: int) -> int {
        if self.head_index() + i < self.ring().len() {
            self.head_index() + i
        } else {
            self.head_index() + i - self.ring().len()
        }
    }

    /// What iterating the buffer gives: its entries newest first, or nothing when the head is
    /// outside the ring.
    pub open spec fn iter_items(&self) -> Seq<u32> {
        if self.wf() {
            self.newest_first()
        } else {
            Seq::empty()
        }
    }

    /// The head points inside a non-empty ring.
    pub open spec fn wf(&self) -> bool {
        self.ring().len() > 0 && self.head_index() < self.ring().len()
    }

    /// Head position after one more insertion: one slot back, wrapping to the last slot.
    pub open spec fn next_head(&self) -> int {
        if self.head_index() == 0 {
            self.ring().len() - 1
        } else {
            self.head_index() - 1
        }
    }

    pub fn insert(&mut self, value: u32)
        requires
            old(self).ring().len() > 0,
        ensures
            final(self).head_index() == old(self).next_head(),
            final(self).ring() == old(self).ring().update(
                if old(self).next_head() > old(self).ring().len() - 1 { 0 } else { old(self).next_head() },
                value,
            ),
            old(self).wf() ==> final(self).wf()
                && final(self).newest_first() == seq![value] + old(self).newest_first().drop_last(),
    {
        let ghost before = *self;
        self.head = self.head.checked_sub(1).unwrap_or(self.vec.len() - 1);
        if let Some(head) = self.get_mut(0) {
            *head = value;
        } else {
            proof {
                assert(false);
            }
        }
        proof {
            if before.wf() {
                let n = before.ring().len() as int;
                assert(self.newest_first() =~= seq![value] + before.newest_first().drop_last()) by {
                    assert forall|i: int| 1 <= i < n implies self.ring_pos(i) == before.ring_pos(i - 1)
                        && self.ring_pos(i) != self.head_index() by {}
                }
            }
        }
    }

    pub fn iter(&self) -> (it: BufferIter<'_>)
        requires
            self.ring().len() > 0,
        ensures
            it.ring_seq() == self.ring(),
            it.head_pos() == self.head_index(),
            it.tail_pos() == self.next_head(),
            !it.done(),
    {
        let ring = self.vec.as_slice();
        let head = self.head;
        let tail = self.head.checked_sub(1).unwrap_or(self.vec.len() - 1);

        BufferIter::new(ring, tail, head)
    }
}

/// Walks a ring from `head` forward, wrapping at the end, and stops after yielding `tail`.
pub struct BufferIter<'a> {
    ring: &'a [u32],
    tail: usize,
    head: usize,
    check: bool,
}

impl<'a> BufferIter<'a> {
    pub closed spec fn ring_seq(&self) -> Seq<u32> {
        self.ring@
    }

    pub closed spec fn tail_pos(&self) -> nat {
        self.tail as nat
    }

    pub closed spec fn head_pos(&self) -> nat {
        self.head as nat
    }

    /// The walk has yielded `tail` and is finished.
    pub closed spec fn done(&self) -> bool {
        self.check
    }

    /// The item that the next call of `next` gives back.
    pub open spec fn next_item(&self) -> Option<u32> {
        if self.done() || self.head_pos() >= self.ring_seq().len() {
            None
        } else {
            Some(self.ring_seq()[self.head_pos() as int])
        }
    }

    /// Where `head` moves after one call of `next`.
    pub open spec fn advanced_head(&self) -> nat {
        if self.head_pos() < self.ring_seq().len() - 1 {
            (self.head_pos() + 1) as nat
        } else {
            0
        }
    }

    /// The walk after one call of `next`.
    pub closed spec fn stepped(self) -> Self {
        if self.check {
            self
        } else {
            BufferIter {
                ring: self.ring,
                tail: self.tail,
                head: self.advanced_head() as usize,
                check: self.tail == self.head,
            }
        }
    }

    /// The walk after `k` calls of `next`.
    pub open spec fn steps(self, k: nat) -> Self
        decreases k,
    {
        if k == 0 {
            self
        } else {
            self.steps((k - 1) as nat).stepped()
        }
    }

    /// What the call of `next` numbered `k` (counting from 0) gives back.
    pub open spec fn yield_at(self, k: nat) -> Option<u32> {
        self.steps(k).next_item()
    }

    pub fn new(ring: &'a [u32], tail: usize, head: usize) -> (it: Self)
        ensures
            it.ring_seq() == ring@,
            it.tail_pos() == tail,
            it.head_pos() == head,
            !it.done(),
    {
        BufferIter { ring, tail, head, check: false }
    }

    pub fn next(&mut self) -> (r: Option<&'a u32>)
        requires
            old(self).done() || old(self).ring_seq().len() > 0,
        ensures
            r is Some <==> old(self).next_item() is Some,
            r matches Some(x) ==> old(self).next_item() == Some(*x),
            *final(self) == old(self).stepped(),
            old(self).done() ==> *final(self) == *old(self),
            !old(self).done() ==> final(self).ring_seq() == old(self).ring_seq() && final(self).tail_pos()
                == old(self).tail_pos() && final(self).head_pos() == old(self).advanced_head()
                && final(self).done() == (old(self).tail_pos() == old(self).head_pos()),
    {
        proof {
            lemma_stepped(*self);
        }
        if self.check {
            return None;
        }
        if self.tail == self.head {
            self.check = true;
        }
        let head = self.head;
        self.head = if self.head < self.ring.len() - 1 { self.head + 1 } else { 0 };
        self.ring.get(head)
    }
}


/// A buffer's ring and head position fit a `usize`, as any value in memory does; with this, a
/// caller that knows `head_index() + index < ring().len()` meets the bound of `get` and
/// `get_mut`.
pub proof fn lemma_buffer_fits(b: Buffer)
    ensures
        b.ring().len() <= usize::MAX,
        b.head_index() <= usize::MAX,
{
    assert(b.vec.len() == b.vec@.len());
}

/// One call of `next`: a finished walk stays as it is; otherwise the walk keeps its ring and
/// tail, moves its head one slot on (wrapping to slot 0), and is finished once the slot it left
/// was the tail.
pub proof fn lemma_stepped(it: BufferIter)
    requires
        it.done() || it.ring_seq().len() > 0,
    ensures
        it.done() ==> it.stepped() == it,
        !it.done() ==> it.stepped().ring_seq() == it.ring_seq() && it.stepped().tail_pos()
            == it.tail_pos() && it.stepped().head_pos() == it.advanced_head() && it.stepped().done()
            == (it.tail_pos() == it.head_pos()),
{
    if !it.done() {
        assert(it.ring.len() == it.ring@.len());
    }
}

/// Iterating a well-formed buffer gives its entries newest first, each exactly once, and then
/// nothing more.
pub proof fn lemma_iter_newest_first(b: Buffer, it: BufferIter)
    requires
        b.wf(),
        it.ring_seq() == b.ring(),
        it.head_pos() == b.head_index(),
        it.tail_pos() == b.next_head(),
        !it.done(),
    ensures
        forall|k: nat| k < b.ring().len() ==> #[trigger] it.yield_at(k) == Some(b.newest_first()[k as int]),
        forall|k: nat| k >= b.ring().len() ==> #[trigger] it.yield_at(k) is None,
{
    assert forall|k: nat| k < b.ring().len() implies #[trigger] it.yield_at(k) == Some(
        b.newest_first()[k as int],
    ) by {
        lemma_steps(b, it, k);
    }
    assert forall|k: nat| k >= b.ring().len() implies #[trigger] it.yield_at(k) is None by {
        lemma_steps_done(b, it, k);
    }
}

/// A read of the newest entry after an insertion into a well-formed buffer gives the inserted
/// value, and the buffer stays well formed.
pub proof fn lemma_read_after_insert(before: Buffer, after: Buffer, value: u32)
    requires
        before.wf(),
        after.head_index() == before.next_head(),
        after.ring() == before.ring().update(
            if before.next_head() > before.ring().len() - 1 { 0 } else { before.next_head() },
            value,
        ),
    ensures
        after.wf(),
        after.slot(0) == after.head_index(),
        after.ring()[after.slot(0)] == value,
        after.newest_first()[0] == value,
{
}

/// Walking never changes the ring being walked.
pub proof fn lemma_steps_keep_ring(it: BufferIter, k: nat)
    ensures
        it.steps(k).ring_seq() == it.ring_seq(),
    decreases k,
{
    if k > 0 {
        lemma_steps_keep_ring(it, (k - 1) as nat);
    }
}

proof fn lemma_steps(b: Buffer, it: BufferIter, k: nat)
    requires
        b.wf(),
        it.ring_seq() == b.ring(),
        it.head_pos() == b.head_index(),
        it.tail_pos() == b.next_head(),
        !it.done(),
        k <= b.ring().len(),
    ensures
        it.steps(k).ring_seq() == b.ring(),
        it.steps(k).tail_pos() == b.next_head(),
        it.steps(k).done() == (k == b.ring().len()),
        k < b.ring().len() ==> it.steps(k).head_pos() == b.ring_pos(k as int),
    decreases k,
{
    if k > 0 {
        lemma_steps(b, it, (k - 1) as nat);
        let prev = it.steps((k - 1) as nat);
        assert(it.steps(k) == prev.stepped());
        assert(prev.head_pos() == b.ring_pos(k - 1));
        assert(prev.ring_seq().len() == b.ring().len());
        assert(b.ring().len() == b.vec.len());
        assert(!prev.done());
        if k < b.ring().len() {
            assert(prev.head_pos() != prev.tail_pos());
            assert(prev.stepped().head_pos() == prev.advanced_head());
        }
    }
}

proof fn lemma_steps_done(b: Buffer, it: BufferIter, k: nat)
    requires
        b.wf(),
        it.ring_seq() == b.ring(),
        it.head_pos() == b.head_index(),
        it.tail_pos() == b.next_head(),
        !it.done(),
        k >= b.ring().len(),
    ensures
        it.steps(k).done(),
    decreases k,
{
    if k == b.ring().len() {
        lemma_steps(b, it, k);
    } else {
        lemma_steps_done(b, it, (k - 1) as nat);
    }
}

} // verus!
