//! Cursors over the values of a container.
//!
//! A cursor knows the positions it has yet to visit, `front` up to `back`, and
//! gives the values from either end. It can be put aside and taken up again:
//! all it holds is the two positions.

use crate::sequence::DynSequence;
use vstd::prelude::*;

verus! {

/// A cursor over the values of a container, from either end.
pub struct DynSeqIter<'l, M> {
    /// The container.
    pub seq: &'l DynSequence<M>,
    /// The position of the next value from the front.
    pub front: usize,
    /// The position after the next value from the back.
    pub back: usize,
}

/// A cursor over the values of a container, from either end, that lets each
/// value be written in place. It never changes the order of the values, their
/// number or their metadata.
pub struct DynSeqIterMut<'l, M> {
    /// The container.
    pub seq: &'l mut DynSequence<M>,
    /// The position of the next value from the front.
    pub front: usize,
    /// The position after the next value from the back.
    pub back: usize,
}

impl<'l, M> DynSeqIter<'l, M> {
    /// The invariant of a cursor: its positions lie in its container.
    pub open spec fn wf(&self) -> bool {
        &&& self.seq.wf()
        &&& self.front <= self.back <= self.seq@.len()
    }

    /// The values that the cursor has yet to give, in order.
    pub open spec fn remaining(&self) -> Seq<(Seq<u8>, M)> {
        self.seq@.subrange(self.front as int, self.back as int)
    }

    /// Gives the first remaining value, or `None` where none remains.
    pub fn next(&mut self) -> (r: Option<(&'l [u8], &'l M)>)
        requires
            old(self).wf(),
        ensures
            final(self).wf(),
            final(self).seq == old(self).seq,
            final(self).back == old(self).back,
            r.is_some() == (old(self).remaining().len() > 0),
            r.is_none() ==> final(self).front == old(self).front,
            r.is_some() ==> {
                &&& r.unwrap().0@ == old(self).remaining().first().0
                &&& *r.unwrap().1 == old(self).remaining().first().1
                &&& final(self).front == old(self).front + 1
                &&& final(self).remaining() == old(self).remaining().drop_first()
            },
    {
        if self.front < self.back {
            let r = self.seq.index(self.front);
            self.front = self.front + 1;
            Some(r)
        } else {
            None
        }
    }

    /// Gives the last remaining value, or `None` where none remains.
    pub fn next_back(&mut self) -> (r: Option<(&'l [u8], &'l M)>)
        requires
            old(self).wf(),
        ensures
            final(self).wf(),
            final(self).seq == old(self).seq,
            final(self).front == old(self).front,
            r.is_some() == (old(self).remaining().len() > 0),
            r.is_none() ==> final(self).back == old(self).back,
            r.is_some() ==> {
                &&& r.unwrap().0@ == old(self).remaining().last().0
                &&& *r.unwrap().1 == old(self).remaining().last().1
                &&& final(self).back == old(self).back - 1
                &&& final(self).remaining() == old(self).remaining().drop_last()
            },
    {
        if self.front < self.back {
            self.back = self.back - 1;
            let r = self.seq.index(self.back);
            Some(r)
        } else {
            None
        }
    }

    /// Passes over `n` values and gives the one after them. Where no more than
    /// `n` remain, the result is `None` and nothing remains.
    pub fn nth(&mut self, n: usize) -> (r: Option<(&'l [u8], &'l M)>)
        requires
            old(self).wf(),
        ensures
            final(self).wf(),
            final(self).seq == old(self).seq,
            final(self).back == old(self).back,
            r.is_some() == (n < old(self).remaining().len()),
            r.is_none() ==> final(self).front == old(self).back,
            r.is_some() ==> {
                &&& r.unwrap().0@ == old(self).remaining()[n as int].0
                &&& *r.unwrap().1 == old(self).remaining()[n as int].1
                &&& final(self).front == old(self).front + n + 1
                &&& final(self).remaining() == old(self).remaining().skip(n + 1)
            },
    {
        if n < self.back - self.front {
            let at = self.front + n;
            let r = self.seq.index(at);
            self.front = at + 1;
            Some(r)
        } else {
            self.front = self.back;
            None
        }
    }

    /// The last remaining value, or `None` where none remains.
    pub fn last(self) -> (r: Option<(&'l [u8], &'l M)>)
        requires
            self.wf(),
        ensures
            r.is_some() == (self.remaining().len() > 0),
            r.is_some() ==> r.unwrap().0@ == self.remaining().last().0 && *r.unwrap().1
                == self.remaining().last().1,
    {
        if self.front < self.back {
            Some(self.seq.index(self.back - 1))
        } else {
            None
        }
    }

    /// The number of remaining values.
    pub fn count(self) -> (n: usize)
        requires
            self.wf(),
        ensures
            n == self.remaining().len(),
    {
        self.back - self.front
    }

    /// The number of remaining values.
    pub fn len(&self) -> (n: usize)
        requires
            self.wf(),
        ensures
            n == self.remaining().len(),
    {
        self.back - self.front
    }

    /// The number of remaining values, as the lower and the upper bound of
    /// what the cursor will give.
    pub fn size_hint(&self) -> (r: (usize, Option<usize>))
        requires
            self.wf(),
        ensures
            r.0 == self.remaining().len(),
            r.1 == Some(r.0),
    {
        let n = self.back - self.front;
        (n, Some(n))
    }
}

impl<'l, M> DynSeqIterMut<'l, M> {
    /// The invariant of a cursor: its positions lie in its container.
    pub open spec fn wf(&self) -> bool {
        &&& self.seq.wf()
        &&& self.front <= self.back <= self.seq@.len()
    }

    /// The values that the cursor has yet to give, in order.
    pub open spec fn remaining(&self) -> Seq<(Seq<u8>, M)> {
        self.seq@.subrange(self.front as int, self.back as int)
    }

    /// Gives the first remaining value for writing in place, or `None` where
    /// none remains. What is written is the value at that position of the
    /// container afterwards.
    pub fn next(&mut self) -> (r: Option<(&mut [u8], &M)>)
        requires
            old(self).wf(),
        ensures
            final(self).wf(),
            *final(final(self).seq) == *final(old(self).seq),
            final(self).back == old(self).back,
            r.is_some() == (old(self).remaining().len() > 0),
            r.is_none() ==> final(self).front == old(self).front && *final(self).seq == *old(
                self,
            ).seq,
            r.is_some() ==> {
                &&& r.unwrap().0@ == old(self).remaining().first().0
                &&& *r.unwrap().1 == old(self).remaining().first().1
                &&& final(r.unwrap().0)@.len() == r.unwrap().0@.len()
                &&& final(self).front == old(self).front + 1
                &&& final(self).seq@ == old(self).seq@.update(
                    old(self).front as int,
                    (final(r.unwrap().0)@, old(self).remaining().first().1),
                )
                &&& final(self).seq.slots() == old(self).seq.slots()
                &&& final(self).seq.arena() == old(self).seq.arena().write(
                    old(self).seq.slots()[old(self).front as int],
                    final(r.unwrap().0)@,
                )
            },
    {
        if self.front < self.back {
            let at = self.front;
            self.front = at + 1;
            Some(self.seq.index_mut(at))
        } else {
            None
        }
    }

    /// Gives the last remaining value for writing in place, or `None` where
    /// none remains. What is written is the value at that position of the
    /// container afterwards.
    pub fn next_back(&mut self) -> (r: Option<(&mut [u8], &M)>)
        requires
            old(self).wf(),
        ensures
            final(self).wf(),
            *final(final(self).seq) == *final(old(self).seq),
            final(self).front == old(self).front,
            r.is_some() == (old(self).remaining().len() > 0),
            r.is_none() ==> final(self).back == old(self).back && *final(self).seq == *old(
                self,
            ).seq,
            r.is_some() ==> {
                &&& r.unwrap().0@ == old(self).remaining().last().0
                &&& *r.unwrap().1 == old(self).remaining().last().1
                &&& final(r.unwrap().0)@.len() == r.unwrap().0@.len()
                &&& final(self).back == old(self).back - 1
                &&& final(self).seq@ == old(self).seq@.update(
                    old(self).back - 1,
                    (final(r.unwrap().0)@, old(self).remaining().last().1),
                )
                &&& final(self).seq.slots() == old(self).seq.slots()
                &&& final(self).seq.arena() == old(self).seq.arena().write(
                    old(self).seq.slots()[old(self).back - 1],
                    final(r.unwrap().0)@,
                )
            },
    {
        if self.front < self.back {
            let at = self.back - 1;
            self.back = at;
            Some(self.seq.index_mut(at))
        } else {
            None
        }
    }

    /// Passes over `n` values and gives the one after them for writing in
    /// place. Where no more than `n` remain, the result is `None` and nothing
    /// remains.
    pub fn nth(&mut self, n: usize) -> (r: Option<(&mut [u8], &M)>)
        requires
            old(self).wf(),
        ensures
            final(self).wf(),
            *final(final(self).seq) == *final(old(self).seq),
            final(self).back == old(self).back,
            r.is_some() == (n < old(self).remaining().len()),
            r.is_none() ==> final(self).front == old(self).back && *final(self).seq == *old(
                self,
            ).seq,
            r.is_some() ==> {
                &&& r.unwrap().0@ == old(self).remaining()[n as int].0
                &&& *r.unwrap().1 == old(self).remaining()[n as int].1
                &&& final(r.unwrap().0)@.len() == r.unwrap().0@.len()
                &&& final(self).front == old(self).front + n + 1
                &&& final(self).seq@ == old(self).seq@.update(
                    old(self).front + n,
                    (final(r.unwrap().0)@, old(self).remaining()[n as int].1),
                )
                &&& final(self).seq.slots() == old(self).seq.slots()
                &&& final(self).seq.arena() == old(self).seq.arena().write(
                    old(self).seq.slots()[old(self).front + n],
                    final(r.unwrap().0)@,
                )
            },
    {
        if n < self.back - self.front {
            let at = self.front + n;
            self.front = at + 1;
            Some(self.seq.index_mut(at))
        } else {
            self.front = self.back;
            None
        }
    }

    /// The last remaining value for writing in place, or `None` where none
    /// remains.
    pub fn last(self) -> (r: Option<(&'l mut [u8], &'l M)>)
        requires
            self.wf(),
        ensures
            r.is_some() == (self.remaining().len() > 0),
            r.is_none() ==> *final(self.seq) == *old(self.seq),
            r.is_some() ==> {
                &&& r.unwrap().0@ == self.remaining().last().0
                &&& *r.unwrap().1 == self.remaining().last().1
                &&& final(r.unwrap().0)@.len() == r.unwrap().0@.len()
                &&& final(self.seq)@ == old(self.seq)@.update(
                    self.back - 1,
                    (final(r.unwrap().0)@, self.remaining().last().1),
                )
                &&& final(self.seq).slots() == old(self.seq).slots()
                &&& final(self.seq).arena() == old(self.seq).arena().write(
                    old(self.seq).slots()[self.back - 1],
                    final(r.unwrap().0)@,
                )
                &&& final(self.seq).wf()
            },
    {
        if self.front < self.back {
            Some(self.seq.index_mut(self.back - 1))
        } else {
            None
        }
    }

    /// The number of remaining values. The container stays as it is.
    pub fn count(self) -> (n: usize)
        requires
            self.wf(),
        ensures
            n == self.remaining().len(),
            *final(self.seq) == *old(self.seq),
    {
        self.back - self.front
    }

    /// The number of remaining values.
    pub fn len(&self) -> (n: usize)
        requires
            self.wf(),
        ensures
            n == self.remaining().len(),
    {
        self.back - self.front
    }

    /// The number of remaining values, as the lower and the upper bound of
    /// what the cursor will give.
    pub fn size_hint(&self) -> (r: (usize, Option<usize>))
        requires
            self.wf(),
        ensures
            r.0 == self.remaining().len(),
            r.1 == Some(r.0),
    {
        let n = self.back - self.front;
        (n, Some(n))
    }
}

} // verus!
