use vstd::prelude::*;

verus! {

/// A queue of items consumed from the front, as the optimizer walks a token
/// sequence. Its view is the sequence of items still to come.
pub struct Stream<T> {
    items: Vec<T>,
}

impl<T> View for Stream<T> {
    type V = Seq<T>;

    closed spec fn view(&self) -> Seq<T> {
        self.items@
    }
}

impl<T> Stream<T> {
    /// The next item, without consuming it.
    pub fn peek(&self) -> (r: Option<&T>)
        ensures
            match r {
                Some(t) => self@.len() > 0 && *t == self@[0],
                None => self@.len() == 0,
            },
    {
        if self.items.len() > 0 {
            Some(&self.items[0])
        } else {
            None
        }
    }

    pub fn new(items: Vec<T>) -> (s: Self)
        ensures
            s@ == items@,
    {
        Self { items }
    }

    /// The item `n` places ahead, without consuming anything.
    pub fn peekn(&self, n: usize) -> (r: Option<&T>)
        ensures
            match r {
                Some(t) => self@.len() > n && *t == self@[n as int],
                None => self@.len() <= n,
            },
    {
        if self.items.len() > n {
            Some(&self.items[n])
        } else {
            None
        }
    }

    /// How many items are still to come.
    pub fn len(&self) -> (n: usize)
        ensures
            n == self@.len(),
    {
        self.items.len()
    }

    /// Consumes and returns the next item.
    pub fn next(&mut self) -> (r: Option<T>)
        ensures
            match r {
                Some(t) => old(self)@.len() > 0 && t == old(self)@[0] && final(self)@ == old(
                    self,
                )@.drop_first(),
                None => old(self)@.len() == 0 && final(self)@ == old(self)@,
            },
    {
        if self.items.len() > 0 {
            Some(self.items.remove(0))
        } else {
            None
        }
    }
}

} // verus!
