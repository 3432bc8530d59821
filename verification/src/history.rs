//! A fixed-capacity log that keeps the newest entries and overwrites the
//! oldest one once it is full.

use vstd::prelude::*;

verus! {

/// What a log of the given capacity retains of `entries`: the newest
/// `capacity` of them, oldest first.
pub open spec fn recent<T>(entries: Seq<T>, capacity: nat) -> Seq<T> {
    if entries.len() <= capacity {
        entries
    } else {
        entries.subrange(entries.len() - capacity, entries.len() as int)
    }
}

/// What a log of the given capacity holds after the entries of `pushed`
/// were pushed into it one by one, starting from an empty log.
pub open spec fn after_pushes<T>(capacity: nat, pushed: Seq<T>) -> Seq<T>
    decreases pushed.len(),
{
    if pushed.len() == 0 {
        Seq::empty()
    } else {
        recent(after_pushes(capacity, pushed.drop_last()).push(pushed.last()), capacity)
    }
}

/// A ring of at most `size` entries. While the ring is not full the cursor
/// `index` rests at 0 and entries are appended; once it is full the cursor
/// marks the oldest entry, which is the next one to be overwritten.
pub struct History<T> {
    items: Vec<T>,
    size: usize,
    index: usize,
}

impl<T> View for History<T> {
    type V = Seq<T>;

    /// The retained entries, oldest first.
    closed spec fn view(&self) -> Seq<T> {
        self.items@.subrange(self.index as int, self.items@.len() as int)
            + self.items@.subrange(0, self.index as int)
    }
}

impl<T> History<T> {
    /// The ring is within its capacity, and its cursor has left 0 only if
    /// the ring is full. `new` establishes this and every method keeps it.
    pub closed spec fn wf(&self) -> bool {
        &&& self.items@.len() <= self.size
        &&& self.index == 0 || (self.items@.len() == self.size && self.index < self.size)
    }

    /// The fixed number of entries that the log can retain.
    pub closed spec fn capacity(&self) -> nat {
        self.size as nat
    }

    /// A log never holds more entries than its capacity.
    pub proof fn lemma_within_capacity(&self)
        requires
            self.wf(),
        ensures
            self@.len() <= self.capacity(),
    {
    }

    /// An empty log that retains up to `max_size` entries.
    pub fn new(max_size: usize) -> (log: Self)
        ensures
            log.wf(),
            log@ == Seq::<T>::empty(),
            log.capacity() == max_size,
    {
        Self { items: Vec::with_capacity(max_size), index: 0, size: max_size }
    }

    /// Appends `item` as the newest entry. A full log gives up its oldest
    /// entry for it; a log of capacity 0 retains nothing.
    pub fn push(&mut self, item: T)
        requires
            old(self).wf(),
        ensures
            final(self).wf(),
            final(self).capacity() == old(self).capacity(),
            final(self)@ == recent(old(self)@.push(item), old(self).capacity()),
            final(self)@.len() <= final(self).capacity(),
    {
        if self.items.len() < self.size {
            self.items.push(item);
            assert(self@ =~= old(self)@.push(item));
        } else if self.size > 0 {
            let cursor: usize = self.index;
            self.items.set(cursor, item);
            self.index = (cursor + 1) % self.size;
            assert(self.index == if cursor + 1 == self.size {
                0
            } else {
                cursor + 1
            }) by {
                if cursor + 1 < self.size {
                    vstd::arithmetic::div_mod::lemma_small_mod(
                        (cursor + 1) as nat,
                        self.size as nat,
                    );
                } else {
                    vstd::arithmetic::div_mod::lemma_mod_self_0(self.size as int);
                }
            }
            assert(self@ =~= recent(old(self)@.push(item), old(self).capacity()));
        } else {
            assert(self@ =~= recent(old(self)@.push(item), old(self).capacity()));
        }
    }

    /// Takes the newest entry back out, leaving the log as it was before
    /// that entry was pushed, except that an entry which it overwrote
    /// stays lost. Returns `None` on an empty log.
    pub fn pop(&mut self) -> (taken: Option<T>)
        requires
            old(self).wf(),
        ensures
            final(self).wf(),
            final(self).capacity() == old(self).capacity(),
            final(self)@.len() <= final(self).capacity(),
            match taken {
                Some(item) => old(self)@.len() > 0 && item == old(self)@.last() && final(self)@
                    == old(self)@.drop_last(),
                None => old(self)@.len() == 0 && final(self)@ == old(self)@,
            },
    {
        if self.items.is_empty() {
            None
        } else {
            let cursor: usize = self.index;
            self.index = 0;
            let mut ordered: Vec<T> = self.items.split_off(cursor);
            ordered.append(&mut self.items);
            assert(ordered@ =~= old(self)@);
            let taken = ordered.pop();
            self.items = ordered;
            assert(self@ =~= old(self)@.drop_last());
            taken
        }
    }

    /// The retained entries by reference, oldest first.
    pub fn iter(&self) -> (entries: Vec<&T>)
        requires
            self.wf(),
        ensures
            entries@.len() == self@.len(),
            forall|i: int| 0 <= i < self@.len() ==> *(#[trigger] entries@[i]) == self@[i],
    {
        let cursor: usize = self.index;
        let count: usize = self.items.len();
        let mut entries: Vec<&T> = Vec::with_capacity(count);
        let mut at: usize = cursor;
        while at < count
            invariant
                cursor <= at <= count,
                count == self.items@.len(),
                cursor == self.index,
                entries@.len() == at - cursor,
                forall|i: int| 0 <= i < entries@.len() ==> *(#[trigger] entries@[i]) == self@[i],
            decreases count - at,
        {
            entries.push(&self.items[at]);
            at += 1;
        }
        at = 0;
        while at < cursor
            invariant
                at <= cursor <= count,
                count == self.items@.len(),
                cursor == self.index,
                entries@.len() == count - cursor + at,
                forall|i: int| 0 <= i < entries@.len() ==> *(#[trigger] entries@[i]) == self@[i],
            decreases cursor - at,
        {
            entries.push(&self.items[at]);
            at += 1;
        }
        entries
    }

    /// A copy of the retained entries, oldest first.
    pub fn to_vec(&self) -> (entries: Vec<T>) where T: Clone
        requires
            self.wf(),
        ensures
            entries@.len() == self@.len(),
            forall|i: int| 0 <= i < self@.len() ==> cloned::<T>(self@[i], #[trigger] entries@[i]),
    {
        let cursor: usize = self.index;
        let count: usize = self.items.len();
        let mut entries: Vec<T> = Vec::with_capacity(self.size);
        let mut at: usize = cursor;
        while at < count
            invariant
                cursor <= at <= count,
                count == self.items@.len(),
                cursor == self.index,
                entries@.len() == at - cursor,
                forall|i: int|
                    0 <= i < entries@.len() ==> cloned::<T>(self@[i], #[trigger] entries@[i]),
            decreases count - at,
        {
            entries.push(self.items[at].clone());
            at += 1;
        }
        at = 0;
        while at < cursor
            invariant
                at <= cursor <= count,
                count == self.items@.len(),
                cursor == self.index,
                entries@.len() == count - cursor + at,
                forall|i: int|
                    0 <= i < entries@.len() ==> cloned::<T>(self@[i], #[trigger] entries@[i]),
            decreases cursor - at,
        {
            entries.push(self.items[at].clone());
            at += 1;
        }
        entries
    }
}

impl<T: Clone> Clone for History<T> {
    /// A log of the same capacity whose entries are clones of this one's,
    /// in the same order.
    fn clone(&self) -> (copy: Self)
        ensures
            copy.wf() == self.wf(),
            copy.capacity() == self.capacity(),
            self.wf() ==> copy@.len() == self@.len(),
            self.wf() ==> forall|i: int|
                0 <= i < self@.len() ==> cloned::<T>(self@[i], #[trigger] copy@[i]),
    {
        let items = self.items.clone();
        History { items, size: self.size, index: self.index }
    }
}

/// However many entries are pushed into an empty log, it holds the newest
/// of them, as many as its capacity allows, oldest first, and never more
/// than its capacity.
pub proof fn lemma_pushes_keep_recent<T>(capacity: nat, pushed: Seq<T>)
    ensures
        after_pushes(capacity, pushed) == recent(pushed, capacity),
        after_pushes(capacity, pushed).len() == if pushed.len() <= capacity {
            pushed.len()
        } else {
            capacity
        },
        after_pushes(capacity, pushed).len() <= capacity,
    decreases pushed.len(),
{
    if pushed.len() > 0 {
        lemma_pushes_keep_recent(capacity, pushed.drop_last());
        let before = recent(pushed.drop_last(), capacity);
        assert(recent(before.push(pushed.last()), capacity) =~= recent(pushed, capacity));
    } else {
        assert(after_pushes(capacity, pushed) =~= recent(pushed, capacity));
    }
}

} // verus!
