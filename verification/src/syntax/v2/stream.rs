//! A queue that is filled once and then read from its front.

use vstd::prelude::*;

verus! {

/// A collection with push- and pop-front methods that reuses existing
/// storage: it never holds more items than it was made with, so an item
/// can be put in front only in the place of one that was taken.
pub struct Stream<T> {
    /// What is left, last item first.
    storage: Vec<T>,
    /// The number of items that the stream was made with.
    made_with: usize,
}

impl<T> Stream<T> {
    /// The items that are left, the front one first.
    pub closed spec fn view(&self) -> Seq<T> {
        Seq::new(self.storage@.len(), |i: int| self.storage@[self.storage@.len() - 1 - i])
    }

    /// The number of items that the stream was made with, which is the
    /// most that it can hold.
    pub closed spec fn capacity(&self) -> nat {
        self.made_with as nat
    }

    pub fn new(data: Vec<T>) -> (s: Stream<T>)
        ensures
            s@ == data@,
            s.capacity() == data@.len(),
    {
        let mut data = data;
        let ghost all = data@;
        let mut storage: Vec<T> = Vec::new();
        while data.len() > 0
            invariant
                data@.len() + storage@.len() == all.len(),
                data@ == all.take(data@.len() as int),
                forall|i: int|
                    0 <= i < storage@.len() ==> #[trigger] storage@[i] == all[all.len() - 1 - i],
            decreases data@.len(),
        {
            let ghost before = data@;
            match data.pop() {
                Some(item) => {
                    assert(item == all[all.len() - 1 - storage@.len()]);
                    storage.push(item);
                    assert(data@ =~= all.take(data@.len() as int));
                },
                None => {},
            }
        }
        let s = Stream { made_with: storage.len(), storage };
        assert(s@ =~= all);
        s
    }

    /// The number of items that are left.
    pub fn len(&self) -> (n: usize)
        ensures
            n == self@.len(),
    {
        self.storage.len()
    }

    /// Whether an item can be put in front: one more was taken than was
    /// put back.
    pub fn has_room(&self) -> (r: bool)
        ensures
            r == (self@.len() < self.capacity()),
    {
        self.storage.len() < self.made_with
    }

    /// The front item, which stays where it is.
    pub fn peek(&self) -> (r: Option<&T>)
        ensures
            self@.len() == 0 ==> r is None,
            self@.len() > 0 ==> r == Some(&self@[0]),
    {
        let n = self.storage.len();
        if n == 0 {
            None
        } else {
            Some(&self.storage[n - 1])
        }
    }

    pub fn pop_front(&mut self) -> (r: Option<T>)
        ensures
            final(self).capacity() == old(self).capacity(),
            old(self)@.len() == 0 ==> r is None && final(self)@ == old(self)@,
            old(self)@.len() > 0 ==> r == Some(old(self)@[0]) && final(self)@ == old(
                self,
            )@.drop_first(),
    {
        let ghost before = self@;
        if self.storage.len() == 0 {
            return None;
        }
        let item = self.storage.pop();
        assert(self@ =~= before.drop_first());
        item
    }

    /// Puts `val` in front of the others, in the place of an item that was
    /// taken from the front before.
    pub fn push_front(&mut self, val: T)
        requires
            old(self)@.len() < old(self).capacity(),
        ensures
            final(self)@ == seq![val] + old(self)@,
            final(self).capacity() == old(self).capacity(),
    {
        let ghost before = self@;
        self.storage.push(val);
        assert(self@ =~= seq![val] + before);
    }
}

} // verus!
