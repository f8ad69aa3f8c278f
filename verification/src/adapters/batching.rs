use vstd::prelude::*;

verus! {

/// The batch size that is used where none is asked for.
pub const DEFAULT_BATCH_SIZE: usize = 512;

/// A batcher gathers single items into batches: a batch is released when
/// it has reached its full size, or earlier when the batcher is flushed
/// because the wait has been long enough.
///
/// No item is lost and none overtakes another: the batches released so
/// far, one after the other, and then the items still held are the items
/// that were pushed, in their order.
pub struct Batcher<T> {
    held: Vec<T>,
    size: usize,
}

impl<T> Batcher<T> {
    /// The items that are held for the next batch, oldest first.
    pub closed spec fn pending(&self) -> Seq<T> {
        self.held@
    }

    /// The number of items that make a batch full. A batcher that was
    /// asked for batches of no item releases every item alone.
    pub closed spec fn batch_size(&self) -> nat {
        if self.size == 0 {
            1
        } else {
            self.size as nat
        }
    }

    /// A batcher that holds nothing and releases batches of `size` items.
    pub fn new(size: usize) -> (batcher: Self)
        ensures
            batcher.pending() == Seq::<T>::empty(),
            batcher.batch_size() == if size == 0 {
                1
            } else {
                size as nat
            },
    {
        Batcher { held: Vec::new(), size }
    }

    /// Takes in one item, and releases the batch that it completes, if it
    /// completes one.
    pub fn push(&mut self, item: T) -> (released: Option<Vec<T>>)
        ensures
            final(self).batch_size() == old(self).batch_size(),
            ({
                let held = old(self).pending().push(item);
                if held.len() >= old(self).batch_size() {
                    &&& released matches Some(batch)
                    &&& batch@ == held
                    &&& final(self).pending() == Seq::<T>::empty()
                } else {
                    &&& released is None
                    &&& final(self).pending() == held
                }
            }),
    {
        self.held.push(item);
        if self.held.len() >= self.size {
            let mut batch: Vec<T> = Vec::new();
            std::mem::swap(&mut batch, &mut self.held);
            Some(batch)
        } else {
            None
        }
    }

    /// Releases what is held, if anything is, whether or not it makes a
    /// full batch: for when the wait is over or the source has closed.
    pub fn flush(&mut self) -> (released: Option<Vec<T>>)
        ensures
            final(self).batch_size() == old(self).batch_size(),
            final(self).pending() == Seq::<T>::empty(),
            old(self).pending().len() == 0 ==> released is None,
            old(self).pending().len() > 0 ==> {
                &&& released matches Some(batch)
                &&& batch@ == old(self).pending()
            },
    {
        if self.held.len() == 0 {
            None
        } else {
            let mut batch: Vec<T> = Vec::new();
            std::mem::swap(&mut batch, &mut self.held);
            Some(batch)
        }
    }

    /// The number of items that are held for the next batch.
    pub fn len(&self) -> (held: usize)
        ensures
            held == self.pending().len(),
    {
        self.held.len()
    }
}

/// The items that a batcher for batches of `size` still holds after it was
/// given `items`, one by one, and nothing before.
pub open spec fn held_after<T>(items: Seq<T>, size: nat) -> Seq<T>
    decreases items.len(),
{
    if items.len() == 0 {
        Seq::empty()
    } else {
        let held = held_after(items.drop_last(), size).push(items.last());
        if held.len() >= size {
            Seq::empty()
        } else {
            held
        }
    }
}

/// The batches that a batcher for batches of `size` has released after it
/// was given `items`, one by one, and nothing before.
pub open spec fn released_after<T>(items: Seq<T>, size: nat) -> Seq<Seq<T>>
    decreases items.len(),
{
    if items.len() == 0 {
        Seq::empty()
    } else {
        let held = held_after(items.drop_last(), size).push(items.last());
        if held.len() >= size {
            released_after(items.drop_last(), size).push(held)
        } else {
            released_after(items.drop_last(), size)
        }
    }
}

/// The items of `batches`, batch after batch.
pub open spec fn joined<T>(batches: Seq<Seq<T>>) -> Seq<T>
    decreases batches.len(),
{
    if batches.len() == 0 {
        Seq::empty()
    } else {
        joined(batches.drop_last()) + batches.last()
    }
}

/// Batching drops nothing and reorders nothing: the batches released, one
/// after the other, and then the items still held are the items given.
/// Every batch released is full and no larger, and fewer items are held
/// than fill a batch.
pub proof fn lemma_batching_keeps_every_item<T>(items: Seq<T>, size: nat)
    requires
        size >= 1,
    ensures
        joined(released_after(items, size)) + held_after(items, size) == items,
        held_after(items, size).len() < size,
        forall|i: int|
            0 <= i < released_after(items, size).len() ==> (#[trigger] released_after(
                items,
                size,
            )[i]).len() == size,
    decreases items.len(),
{
    if items.len() > 0 {
        let init = items.drop_last();
        lemma_batching_keeps_every_item(init, size);
        let held = held_after(init, size).push(items.last());
        assert(joined(released_after(init, size)) + held =~= items) by {
            assert(init.push(items.last()) =~= items);
        }
        if held.len() >= size {
            let batches = released_after(init, size).push(held);
            assert(batches.drop_last() =~= released_after(init, size));
            assert(joined(batches) + Seq::<T>::empty() =~= joined(batches));
        }
    } else {
        assert(joined(released_after(items, size)) + held_after(items, size) =~= items);
    }
}

} // verus!
