use vstd::prelude::*;
use vstd::std_specs::iter::IteratorSpec;
use crate::long_peekable::{
    coherent, ends_with_none, filled_len, nth_of, padded, stream_of, unwrap_all, buffer_wf,
    LongPeekableIterator,
};

verus! {

/// An iterator adapter with unbounded look-ahead (the first form of
/// `LongPeekableIterator`, without the end-marker-aware drain).
pub struct LongPeekable<I: Iterator> {
    buffer: LongPeekableIterator<I>,
}

impl<I: Iterator> LongPeekable<I> {
    /// The buffered (peeked) values, in order.
    pub closed spec fn peeked(&self) -> Seq<Option<I::Item>> {
        self.buffer.peeked()
    }

    /// The underlying iterator.
    pub closed spec fn inner(&self) -> I {
        self.buffer.inner()
    }

    /// Only the last buffer slot may hold `None`.
    pub open spec fn wf(&self) -> bool {
        buffer_wf(self.peeked())
    }

    /// Whether the underlying iterator follows vstd's iterator laws.
    pub open spec fn obeys(&self) -> bool {
        self.inner().obeys_prophetic_iter_laws()
    }

    /// Wraps `iter`, with nothing peeked yet.
    pub fn new(iter: I) -> (r: Self)
        ensures
            r.peeked() == Seq::<Option<I::Item>>::empty(),
            r.inner() == iter,
            r.wf(),
    {
        Self { buffer: LongPeekableIterator::new(iter) }
    }

    /// Looks at the next item without consuming it.
    ///
    /// Every call to `peek()` returns the same value until `next()` is
    /// called (directly or indirectly).
    pub fn peek(&mut self) -> (r: Option<&I::Item>)
        requires
            old(self).wf(),
            old(self).obeys() ==> coherent(old(self).peeked(), old(self).inner().remaining()),
        ensures
            final(self).wf(),
            final(self).obeys() == old(self).obeys(),
            final(self).peeked().take(old(self).peeked().len() as int) == old(self).peeked(),
            r matches Some(v) ==> 0 < final(self).peeked().len() && final(self).peeked()[0] == Some(*v),
            r is None ==> final(self).peeked().len() == 0 || final(self).peeked()[0] is None,
            0 < old(self).peeked().len() ==> *final(self) == *old(self),
            final(self).obeys() ==> {
                &&& coherent(final(self).peeked(), final(self).inner().remaining())
                &&& stream_of(final(self).peeked(), final(self).inner().remaining())
                    == stream_of(old(self).peeked(), old(self).inner().remaining())
                &&& final(self).peeked().len() == filled_len(
                    old(self).peeked().len() as int,
                    1,
                    stream_of(old(self).peeked(), old(self).inner().remaining()).len() as int,
                )
                &&& (r is Some <==> stream_of(old(self).peeked(), old(self).inner().remaining()).len() > 0)
                &&& (r matches Some(v) ==> *v == stream_of(old(self).peeked(), old(self).inner().remaining())[0])
            },
    {
        self.buffer.peek()
    }

    /// Looks `n` items ahead (zero-indexed) without consuming anything.
    ///
    /// `peek_nth(0)` is equivalent to `peek()`.
    pub fn peek_nth(&mut self, n: usize) -> (r: Option<&I::Item>)
        requires
            old(self).wf(),
            old(self).obeys() ==> coherent(old(self).peeked(), old(self).inner().remaining()),
            n < usize::MAX,
        ensures
            final(self).wf(),
            final(self).obeys() == old(self).obeys(),
            final(self).peeked().take(old(self).peeked().len() as int) == old(self).peeked(),
            r matches Some(v) ==> n < final(self).peeked().len() && final(self).peeked()[n as int] == Some(*v),
            r is None ==> n >= final(self).peeked().len() || final(self).peeked()[n as int] is None,
            n < old(self).peeked().len() ==> *final(self) == *old(self),
            final(self).obeys() ==> {
                &&& coherent(final(self).peeked(), final(self).inner().remaining())
                &&& stream_of(final(self).peeked(), final(self).inner().remaining())
                    == stream_of(old(self).peeked(), old(self).inner().remaining())
                &&& final(self).peeked().len() == filled_len(
                    old(self).peeked().len() as int,
                    n + 1,
                    stream_of(old(self).peeked(), old(self).inner().remaining()).len() as int,
                )
                &&& (r is Some <==> n < stream_of(old(self).peeked(), old(self).inner().remaining()).len())
                &&& (r matches Some(v) ==> *v == stream_of(old(self).peeked(), old(self).inner().remaining())[n as int])
            },
    {
        self.buffer.peek_nth(n)
    }

    /// Returns the peeked values from `start` (inclusive) to `end`
    /// (exclusive), peeking as far as needed.
    pub fn peek_range(&mut self, start: usize, end: usize) -> (r: &[Option<I::Item>])
        requires
            old(self).wf(),
            old(self).obeys() ==> coherent(old(self).peeked(), old(self).inner().remaining()),
            start <= end,
            end <= old(self).peeked().len() || (old(self).obeys() && end <= stream_of(
                old(self).peeked(),
                old(self).inner().remaining(),
            ).len() + 1),
        ensures
            final(self).wf(),
            final(self).obeys() == old(self).obeys(),
            final(self).peeked().take(old(self).peeked().len() as int) == old(self).peeked(),
            r@ == final(self).peeked().subrange(start as int, end as int),
            final(self).obeys() ==> {
                &&& coherent(final(self).peeked(), final(self).inner().remaining())
                &&& stream_of(final(self).peeked(), final(self).inner().remaining())
                    == stream_of(old(self).peeked(), old(self).inner().remaining())
                &&& final(self).peeked().len() == filled_len(
                    old(self).peeked().len() as int,
                    end as int,
                    stream_of(old(self).peeked(), old(self).inner().remaining()).len() as int,
                )
                &&& r@ == padded(stream_of(old(self).peeked(), old(self).inner().remaining())).subrange(
                    start as int,
                    end as int,
                )
            },
    {
        self.buffer.peek_range(start, end)
    }

    /// Returns the first `amount` peeked values (see `peek_range`).
    pub fn peek_amount(&mut self, amount: usize) -> (r: &[Option<I::Item>])
        requires
            old(self).wf(),
            old(self).obeys() ==> coherent(old(self).peeked(), old(self).inner().remaining()),
            amount <= old(self).peeked().len() || (old(self).obeys() && amount <= stream_of(
                old(self).peeked(),
                old(self).inner().remaining(),
            ).len() + 1),
        ensures
            final(self).wf(),
            final(self).obeys() == old(self).obeys(),
            final(self).peeked().take(old(self).peeked().len() as int) == old(self).peeked(),
            r@ == final(self).peeked().take(amount as int),
            final(self).obeys() ==> {
                &&& coherent(final(self).peeked(), final(self).inner().remaining())
                &&& stream_of(final(self).peeked(), final(self).inner().remaining())
                    == stream_of(old(self).peeked(), old(self).inner().remaining())
                &&& final(self).peeked().len() == filled_len(
                    old(self).peeked().len() as int,
                    amount as int,
                    stream_of(old(self).peeked(), old(self).inner().remaining()).len() as int,
                )
                &&& r@ == padded(stream_of(old(self).peeked(), old(self).inner().remaining())).take(amount as int)
            },
    {
        self.buffer.peek_amount(amount)
    }

    /// Removes and returns all the currently buffered items, which must all
    /// be `Some`.
    pub fn drain_all_peeked(&mut self) -> (r: std::vec::IntoIter<I::Item>)
        requires
            old(self).wf(),
            old(self).obeys() ==> coherent(old(self).peeked(), old(self).inner().remaining()),
            !ends_with_none(old(self).peeked()),
        ensures
            final(self).wf(),
            final(self).peeked() == Seq::<Option<I::Item>>::empty(),
            final(self).inner() == old(self).inner(),
            r.remaining() == unwrap_all(old(self).peeked()),
            final(self).obeys() ==> stream_of(old(self).peeked(), old(self).inner().remaining())
                == r.remaining() + stream_of(final(self).peeked(), final(self).inner().remaining()),
    {
        self.buffer.drain_all_peeked()
    }

    /// Returns the count of currently stored peeked values.
    pub fn count_peeked(&self) -> (r: usize)
        ensures
            r == self.peeked().len(),
    {
        self.buffer.count_peeked()
    }

    /// Advances the iterator and returns the next value: the first buffered
    /// value if there is one, otherwise the next value of the underlying
    /// iterator.
    pub fn next(&mut self) -> (r: Option<I::Item>)
        requires
            old(self).wf(),
            old(self).obeys() ==> coherent(old(self).peeked(), old(self).inner().remaining()),
        ensures
            final(self).wf(),
            final(self).obeys() == old(self).obeys(),
            old(self).peeked().len() > 0 ==> {
                &&& r == old(self).peeked()[0]
                &&& final(self).peeked() == old(self).peeked().drop_first()
                &&& final(self).inner() == old(self).inner()
            },
            old(self).peeked().len() == 0 ==> final(self).peeked().len() == 0,
            final(self).obeys() ==> {
                &&& coherent(final(self).peeked(), final(self).inner().remaining())
                &&& r == nth_of(stream_of(old(self).peeked(), old(self).inner().remaining()), 0)
                &&& stream_of(final(self).peeked(), final(self).inner().remaining()) == (if stream_of(
                    old(self).peeked(),
                    old(self).inner().remaining(),
                ).len() > 0 {
                    stream_of(old(self).peeked(), old(self).inner().remaining()).drop_first()
                } else {
                    stream_of(old(self).peeked(), old(self).inner().remaining())
                })
            },
    {
        self.buffer.next()
    }

    /// Consumes `n` items and returns the one after them; stops early, with
    /// `None`, when the iterator runs out first.
    pub fn nth(&mut self, n: usize) -> (r: Option<I::Item>)
        requires
            old(self).wf(),
            old(self).obeys() ==> coherent(old(self).peeked(), old(self).inner().remaining()),
        ensures
            final(self).wf(),
            final(self).obeys() == old(self).obeys(),
            final(self).obeys() ==> {
                &&& coherent(final(self).peeked(), final(self).inner().remaining())
                &&& r == nth_of(stream_of(old(self).peeked(), old(self).inner().remaining()), n as int)
                &&& stream_of(final(self).peeked(), final(self).inner().remaining()) == (if n < stream_of(
                    old(self).peeked(),
                    old(self).inner().remaining(),
                ).len() {
                    stream_of(old(self).peeked(), old(self).inner().remaining()).skip(n + 1)
                } else {
                    Seq::<I::Item>::empty()
                })
            },
    {
        self.buffer.nth(n)
    }
}

/// Turns any iterator into a `LongPeekable`.
pub trait LongPeek: Iterator + Sized {
    fn long_peekable(self) -> (r: LongPeekable<Self>)
        ensures
            r.peeked() == Seq::<Option<Self::Item>>::empty(),
            r.inner() == self,
            r.wf(),
    ;
}

impl<I: Iterator> LongPeek for I {
    fn long_peekable(self) -> (r: LongPeekable<Self>) {
        LongPeekable::new(self)
    }
}

} // verus!
