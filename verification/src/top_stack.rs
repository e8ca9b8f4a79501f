//! A stack that always has a top entry.

use vstd::prelude::*;

verus! {

pub struct TopStack<T> {
    pub top: T,
    pub lower: Vec<T>,
}

impl<T> View for TopStack<T> {
    type V = Seq<T>;

    /// The entries from the bottom of the stack to its top.
    open spec fn view(&self) -> Seq<T> {
        self.lower@.push(self.top)
    }
}

impl<T> TopStack<T> {
    pub fn new(top: T) -> (r: TopStack<T>)
        ensures
            r@ == seq![top],
            r.top == top,
            r.lower@.len() == 0,
    {
        let r = TopStack { top, lower: Vec::new() };
        assert(r@ =~= seq![top]);
        r
    }

    pub fn push(&mut self, t: T)
        ensures
            final(self)@ == old(self)@.push(t),
            final(self).top == t,
            final(self).lower@ == old(self)@,
    {
        let mut t = t;
        std::mem::swap(&mut self.top, &mut t);
        self.lower.push(t);
    }

    /// Removes the top entry and returns it. The bottom entry cannot be
    /// removed.
    pub fn pop(&mut self) -> (r: T)
        requires
            old(self)@.len() > 1,
        ensures
            r == old(self)@.last(),
            r == old(self).top,
            final(self)@ == old(self)@.drop_last(),
            final(self)@ == old(self).lower@,
    {
        let mut t = self.lower.pop().unwrap();
        std::mem::swap(&mut self.top, &mut t);
        assert(self@ =~= old(self)@.drop_last());
        t
    }

    pub fn len(&self) -> (r: usize)
        requires
            self@.len() <= usize::MAX,
        ensures
            r == self@.len(),
            r >= 1,
    {
        self.lower.len() + 1
    }

    pub fn get(&self, i: usize) -> (r: &T)
        requires
            i < self@.len(),
        ensures
            *r == self@[i as int],
    {
        let lower_len = self.lower.len();
        if i < lower_len {
            &self.lower[i]
        } else {
            &self.top
        }
    }

    pub fn get_mut(&mut self, i: usize) -> (r: &mut T)
        requires
            i < old(self)@.len(),
        ensures
            *r == old(self)@[i as int],
            final(self)@ == old(self)@.update(i as int, *final(r)),
    {
        let lower_len = self.lower.len();
        if i < lower_len {
            let r = vstd::std_specs::vec::vec_index_mut(&mut self.lower, i);
            r
        } else {
            &mut self.top
        }
    }
}

} // verus!
