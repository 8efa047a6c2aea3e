//! A forward walk over a list that keeps hold of the most recently
//! yielded item, so a consumer can treat the last element differently
//! from the rest without looking ahead.

use vstd::prelude::*;

verus! {

/// Walks `items` in order; `stored` holds the most recent item.
pub struct IterBuffer<T> {
    pub items: Vec<T>,
    pub pos: usize,
    pub stored: Option<T>,
}

/// One or two items, in order.
pub enum OneOrTwo<T> {
    One([T; 1]),
    Two([T; 2]),
}

impl<T> OneOrTwo<T> {
    /// The held items as a slice.
    pub fn as_slice(&self) -> (r: &[T])
        ensures
            match self {
                OneOrTwo::One(a) => r@ == a@,
                OneOrTwo::Two(a) => r@ == a@,
            },
    {
        match self {
            OneOrTwo::One(x) => x.as_slice(),
            OneOrTwo::Two(x) => x.as_slice(),
        }
    }
}

impl<T: Copy> IterBuffer<T> {
    pub open spec fn wf(self) -> bool {
        self.pos <= self.items@.len()
    }

    pub fn from_vec(items: Vec<T>) -> (r: Self)
        ensures
            r.wf(),
            r.items@ == items@,
            r.pos == 0,
            r.stored is None,
    {
        IterBuffer { items, pos: 0, stored: None }
    }

    /// The next item, also remembered in `stored`; past the end, nothing,
    /// with `stored` untouched.
    pub fn next(&mut self) -> (r: Option<T>)
        requires
            old(self).wf(),
        ensures
            final(self).wf(),
            final(self).items@ == old(self).items@,
            if old(self).pos < old(self).items@.len() {
                r == Some(old(self).items@[old(self).pos as int]) && final(self).stored == r
                    && final(self).pos == old(self).pos + 1
            } else {
                r is None && final(self).stored == old(self).stored && final(self).pos == old(self).pos
            },
    {
        if self.pos < self.items.len() {
            let v = self.items[self.pos];
            self.pos = self.pos + 1;
            self.stored = Some(v);
            Some(v)
        } else {
            None
        }
    }

    /// Returns the stored last value, if any, and voids it.
    pub fn take_stored(&mut self) -> (r: Option<T>)
        ensures
            r == old(self).stored,
            final(self).stored is None,
            final(self).items@ == old(self).items@,
            final(self).pos == old(self).pos,
    {
        self.stored.take()
    }

    /// Whether nothing is stored and nothing remains; pulls the next item
    /// into `stored` to decide.
    pub fn is_empty(&mut self) -> (r: bool)
        requires
            old(self).wf(),
        ensures
            final(self).wf(),
            final(self).items@ == old(self).items@,
            r == (old(self).stored is None && old(self).pos >= old(self).items@.len()),
            old(self).stored is Some ==> *final(self) == *old(self),
            (old(self).stored is None && old(self).pos < old(self).items@.len()) ==> final(self).stored == Some(old(self).items@[old(self).pos as int]) && final(self).pos == old(self).pos + 1,
    {
        if self.stored.is_some() {
            false
        } else if self.pos < self.items.len() {
            let v = self.items[self.pos];
            self.pos = self.pos + 1;
            self.stored = Some(v);
            false
        } else {
            true
        }
    }

    /// How many items remain to be yielded, the stored one included only
    /// while the walk has not reached the end.
    pub fn len(&self) -> (r: usize)
        requires
            self.wf(),
            self.items@.len() < usize::MAX,
        ensures
            r == if self.items@.len() - self.pos > 0 && self.stored is Some {
                self.items@.len() - self.pos + 1
            } else {
                self.items@.len() - self.pos
            },
    {
        let underlying_len = self.items.len() - self.pos;
        if underlying_len > 0 && self.stored.is_some() {
            underlying_len + 1
        } else {
            underlying_len
        }
    }

    /// Combines `next` and `take_stored`: only yields when a next item
    /// exists, handing back the displaced stored item with it.
    pub fn take_stored_and_next(&mut self) -> (r: Option<OneOrTwo<T>>)
        requires
            old(self).wf(),
        ensures
            final(self).wf(),
            final(self).items@ == old(self).items@,
            if old(self).pos < old(self).items@.len() {
                {
                    let nv = old(self).items@[old(self).pos as int];
                    final(self).pos == old(self).pos + 1 && final(self).stored == Some(nv)
                        && (match old(self).stored {
                        Some(b) => (match r {
                            Some(OneOrTwo::Two(a)) => a@.len() == 2 && a@[0] == b && a@[1] == nv,
                            _ => false,
                        }),
                        None => (match r {
                            Some(OneOrTwo::One(a)) => a@.len() == 1 && a@[0] == nv,
                            _ => false,
                        }),
                    })
                }
            } else {
                r is None && *final(self) == *old(self)
            },
    {
        if self.pos < self.items.len() {
            let nv = self.items[self.pos];
            self.pos = self.pos + 1;
            let prev = self.stored;
            self.stored = Some(nv);
            match prev {
                Some(b) => Some(OneOrTwo::Two([b, nv])),
                None => Some(OneOrTwo::One([nv])),
            }
        } else {
            None
        }
    }
}

} // verus!
