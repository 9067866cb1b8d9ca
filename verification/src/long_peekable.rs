use vstd::prelude::*;
use vstd::std_specs::iter::IteratorSpec;
use std::collections::VecDeque;

verus! {

/// The values held in the `Some`s of `q`.
pub open spec fn unwrap_all<T>(q: Seq<Option<T>>) -> Seq<T> {
    q.map_values(|x: Option<T>| x->0)
}

/// Whether `q` ends with the `None` that marks an exhausted iterator.
pub open spec fn ends_with_none<T>(q: Seq<Option<T>>) -> bool {
    q.len() > 0 && q.last() is None
}

/// The items buffered in `q` (its `Some`s, without the end marker).
pub open spec fn buffered_items<T>(q: Seq<Option<T>>) -> Seq<T> {
    if ends_with_none(q) {
        unwrap_all(q.drop_last())
    } else {
        unwrap_all(q)
    }
}

/// The items still to be yielded by a peeking adapter whose buffer is `q`
/// and whose underlying iterator still holds `rem`.
pub open spec fn stream_of<T>(q: Seq<Option<T>>, rem: Seq<T>) -> Seq<T> {
    if ends_with_none(q) {
        buffered_items(q)
    } else {
        buffered_items(q) + rem
    }
}

/// A buffer that holds the end marker belongs to an exhausted iterator.
pub open spec fn coherent<T>(q: Seq<Option<T>>, rem: Seq<T>) -> bool {
    ends_with_none(q) ==> rem.len() == 0
}

/// The items of `s`, each wrapped in `Some`, followed by a single `None`:
/// what pulling repeatedly from an iterator that yields `s` produces.
pub open spec fn padded<T>(s: Seq<T>) -> Seq<Option<T>> {
    s.map_values(|x: T| Some(x)).push(None)
}

/// The `n`-th item of `s`, if there is one.
pub open spec fn nth_of<T>(s: Seq<T>, n: int) -> Option<T> {
    if 0 <= n < s.len() {
        Some(s[n])
    } else {
        None
    }
}

/// The number of buffered slots after filling a buffer of `len` slots up to
/// `required` slots, when the stream holds `s_len` items (plus the end
/// marker).
pub open spec fn filled_len(len: int, required: int, s_len: int) -> int {
    if len >= required {
        len
    } else if required <= s_len + 1 {
        required
    } else {
        s_len + 1
    }
}

/// Only the last slot of a buffer may hold `None`.
pub open spec fn buffer_wf<T>(q: Seq<Option<T>>) -> bool {
    forall|i: int| 0 <= i < q.len() - 1 ==> (#[trigger] q[i]) is Some
}

proof fn lemma_buffer_is_prefix<T>(q: Seq<Option<T>>, rem: Seq<T>)
    requires
        buffer_wf(q),
        coherent(q, rem),
    ensures
        q.len() <= stream_of(q, rem).len() + 1,
        q == padded(stream_of(q, rem)).take(q.len() as int),
        stream_of(q, rem) == buffered_items(q) + rem,
        ends_with_none(q) <==> q.len() == stream_of(q, rem).len() + 1,
{
    let s = stream_of(q, rem);
    let p = padded(s);
    if ends_with_none(q) {
        assert(buffered_items(q) + rem =~= buffered_items(q));
        assert(q =~= p.take(q.len() as int));
    } else {
        assert forall|i: int| 0 <= i < q.len() implies #[trigger] q[i] is Some by {
            if i == q.len() - 1 {
            }
        }
        assert(q =~= p.take(q.len() as int));
        if q.len() == s.len() + 1 {
            assert(p[q.len() - 1] is None);
        }
    }
}

/// For every coherent remainder of the underlying iterator, a well-formed
/// buffer is a prefix of the padded stream.
pub proof fn lemma_buffer_prefix_all<T>(q: Seq<Option<T>>)
    requires
        buffer_wf(q),
    ensures
        forall|rem: Seq<T>| #![trigger stream_of(q, rem)] coherent(q, rem) ==> {
            &&& q.len() <= stream_of(q, rem).len() + 1
            &&& q == padded(stream_of(q, rem)).take(q.len() as int)
            &&& stream_of(q, rem) == buffered_items(q) + rem
            &&& (ends_with_none(q) <==> q.len() == stream_of(q, rem).len() + 1)
        },
{
    assert forall|rem: Seq<T>| #![trigger stream_of(q, rem)] coherent(q, rem) implies {
        &&& q.len() <= stream_of(q, rem).len() + 1
        &&& q == padded(stream_of(q, rem)).take(q.len() as int)
        &&& stream_of(q, rem) == buffered_items(q) + rem
        &&& (ends_with_none(q) <==> q.len() == stream_of(q, rem).len() + 1)
    } by {
        lemma_buffer_is_prefix(q, rem);
    }
}

/// Moving the next item of the underlying iterator into the buffer leaves
/// the stream unchanged.
proof fn lemma_push_keeps_stream<T>(q: Seq<Option<T>>)
    requires
        buffer_wf(q),
        !ends_with_none(q),
    ensures
        forall|rem: Seq<T>| #![trigger stream_of(q, rem)] rem.len() > 0 ==> {
            &&& stream_of(q.push(Some(rem[0])), rem.drop_first()) == stream_of(q, rem)
            &&& coherent(q.push(Some(rem[0])), rem.drop_first())
        },
        forall|rem: Seq<T>| #![trigger stream_of(q, rem)] rem.len() == 0 ==> {
            &&& stream_of(q.push(None), rem) == stream_of(q, rem)
            &&& coherent(q.push(None), rem)
        },
        forall|x: Option<T>| #[trigger] buffer_wf(q.push(x)),
{
    assert forall|rem: Seq<T>| #![trigger stream_of(q, rem)] rem.len() > 0 implies {
        &&& stream_of(q.push(Some(rem[0])), rem.drop_first()) == stream_of(q, rem)
        &&& coherent(q.push(Some(rem[0])), rem.drop_first())
    } by {
        let q2 = q.push(Some(rem[0]));
        assert(buffered_items(q) =~= unwrap_all(q));
        assert(buffered_items(q2) =~= unwrap_all(q).push(rem[0]));
        assert(buffered_items(q2) + rem.drop_first() =~= unwrap_all(q) + rem);
    }
    assert forall|rem: Seq<T>| #![trigger stream_of(q, rem)] rem.len() == 0 implies {
        &&& stream_of(q.push(None), rem) == stream_of(q, rem)
        &&& coherent(q.push(None), rem)
    } by {
        let q2 = q.push(None);
        assert(q2.drop_last() =~= q);
        assert(unwrap_all(q) + rem =~= unwrap_all(q));
    }
    assert forall|x: Option<T>| #[trigger] buffer_wf(q.push(x)) by {
        assert forall|i: int| 0 <= i < q.push(x).len() - 1 implies (#[trigger] q.push(x)[i]) is Some by {
            if i == q.len() - 1 {
            } else {
                assert(q[i] is Some);
            }
        }
    }
}

/// Taking the first buffered slot takes the first item of the stream.
proof fn lemma_pop_front<T>(q: Seq<Option<T>>)
    requires
        buffer_wf(q),
        q.len() > 0,
    ensures
        buffer_wf(q.drop_first()),
        forall|rem: Seq<T>| #![trigger stream_of(q, rem)] coherent(q, rem) ==> {
            &&& q[0] == nth_of(stream_of(q, rem), 0)
            &&& coherent(q.drop_first(), rem)
            &&& stream_of(q.drop_first(), rem) == (if stream_of(q, rem).len() > 0 {
                stream_of(q, rem).drop_first()
            } else {
                stream_of(q, rem)
            })
        },
{
    let q2 = q.drop_first();
    assert(buffer_wf(q2)) by {
        assert forall|i: int| 0 <= i < q2.len() - 1 implies (#[trigger] q2[i]) is Some by {
            assert(q[i + 1] is Some);
        }
    }
    assert forall|rem: Seq<T>| #![trigger stream_of(q, rem)] coherent(q, rem) implies {
        &&& q[0] == nth_of(stream_of(q, rem), 0)
        &&& coherent(q.drop_first(), rem)
        &&& stream_of(q.drop_first(), rem) == (if stream_of(q, rem).len() > 0 {
            stream_of(q, rem).drop_first()
        } else {
            stream_of(q, rem)
        })
    } by {
        lemma_buffer_is_prefix(q, rem);
        if ends_with_none(q) && q.len() == 1 {
            assert(q2 =~= Seq::<Option<T>>::empty());
            assert(buffered_items(q) =~= Seq::<T>::empty());
            assert(stream_of(q2, rem) =~= rem);
        } else {
            assert(q[0] is Some);
            if q.len() == 1 {
                assert(q2 =~= Seq::<Option<T>>::empty());
                assert(stream_of(q2, rem) =~= rem);
                assert(stream_of(q, rem).drop_first() =~= rem);
            } else {
                assert(q2[q2.len() - 1] == q[q.len() - 1]);
                if ends_with_none(q) {
                    assert(q2.drop_last() =~= q.drop_last().drop_first());
                }
                assert(stream_of(q2, rem) =~= stream_of(q, rem).drop_first());
            }
        }
    }
}

/// With an empty buffer, the stream is what the underlying iterator holds.
proof fn lemma_empty_buffer<T>()
    ensures
        forall|rem: Seq<T>| #[trigger] stream_of(Seq::<Option<T>>::empty(), rem) == rem,
        buffer_wf(Seq::<Option<T>>::empty()),
{
    assert forall|rem: Seq<T>| #[trigger] stream_of(Seq::<Option<T>>::empty(), rem) == rem by {
        assert(stream_of(Seq::<Option<T>>::empty(), rem) =~= rem);
    }
}

/// `VecDeque::make_contiguous`: rearranges the deque's storage into one
/// slice and hands it out. The items and their order stay as they were,
/// and the slice holds all of them in that order.
#[verifier::external_body]
fn contiguous<'a, T>(q: &'a mut VecDeque<T>) -> (r: &'a [T])
    ensures
        r@ == old(q)@,
        final(q)@ == old(q)@,
{
    q.make_contiguous()
}

/// An iterator adapter that can look arbitrarily far ahead of the
/// underlying iterator without consuming the looked-at items.
///
/// Peeked values are buffered in `queue`; every slot holds a `Some`, except
/// possibly the last one, which holds the `None` that ended the underlying
/// iterator.
pub struct LongPeekableIterator<I: Iterator> {
    iter: I,
    queue: VecDeque<Option<I::Item>>,
}

impl<I: Iterator> LongPeekableIterator<I> {
    /// The buffered (peeked) values, in order.
    pub closed spec fn peeked(&self) -> Seq<Option<I::Item>> {
        self.queue@
    }

    /// The underlying iterator.
    pub closed spec fn inner(&self) -> I {
        self.iter
    }

    /// Only the last buffer slot may hold `None`.
    pub open spec fn wf(&self) -> bool {
        buffer_wf(self.peeked())
    }

    /// Whether the underlying iterator follows vstd's iterator laws.
    pub open spec fn obeys(&self) -> bool {
        self.inner().obeys_prophetic_iter_laws()
    }

    /// Wraps `iter`, with nothing peeked yet.
    pub fn new(iter: I) -> (r: Self)
        ensures
            r.peeked() == Seq::<Option<I::Item>>::empty(),
            r.inner() == iter,
            r.wf(),
    {
        Self { iter, queue: VecDeque::new() }
    }

    fn push_next_to_queue(&mut self)
        requires
            old(self).wf(),
            old(self).obeys() ==> coherent(old(self).peeked(), old(self).inner().remaining()),
        ensures
            final(self).wf(),
            final(self).obeys() == old(self).obeys(),
            final(self).peeked().take(old(self).peeked().len() as int) == old(self).peeked(),
            ends_with_none(old(self).peeked()) ==> *final(self) == *old(self),
            !ends_with_none(old(self).peeked()) ==> final(self).peeked().len() == old(self).peeked().len() + 1,
            final(self).obeys() ==> {
                &&& coherent(final(self).peeked(), final(self).inner().remaining())
                &&& stream_of(final(self).peeked(), final(self).inner().remaining())
                    == stream_of(old(self).peeked(), old(self).inner().remaining())
                &&& final(self).peeked() == padded(stream_of(old(self).peeked(), old(self).inner().remaining())).take(
                    final(self).peeked().len() as int,
                )
                &&& old(self).peeked().len() <= stream_of(old(self).peeked(), old(self).inner().remaining()).len() + 1
                &&& final(self).peeked().len() == (if old(self).peeked().len() == stream_of(
                    old(self).peeked(),
                    old(self).inner().remaining(),
                ).len() + 1 {
                    old(self).peeked().len() as int
                } else {
                    old(self).peeked().len() + 1int
                })
            },
    {
        proof {
            lemma_buffer_prefix_all(self.queue@);
        }
        let n = self.queue.len();
        if n > 0 && self.queue[n - 1].is_none() {
            return;
        }
        let ghost old_q = self.queue@;
        proof {
            lemma_push_keeps_stream(old_q);
        }
        let item = self.iter.next();
        self.queue.push_back(item);
        proof {
            assert(self.queue@.take(n as int) =~= old_q);
            lemma_buffer_prefix_all(self.queue@);
        }
    }

    fn fill_queue(&mut self, required_elements: usize)
        requires
            old(self).wf(),
            old(self).obeys() ==> coherent(old(self).peeked(), old(self).inner().remaining()),
        ensures
            final(self).wf(),
            final(self).obeys() == old(self).obeys(),
            final(self).peeked().take(old(self).peeked().len() as int) == old(self).peeked(),
            old(self).peeked().len() >= required_elements ==> *final(self) == *old(self),
            final(self).obeys() ==> {
                &&& coherent(final(self).peeked(), final(self).inner().remaining())
                &&& stream_of(final(self).peeked(), final(self).inner().remaining())
                    == stream_of(old(self).peeked(), old(self).inner().remaining())
                &&& final(self).peeked().len() == filled_len(
                    old(self).peeked().len() as int,
                    required_elements as int,
                    stream_of(old(self).peeked(), old(self).inner().remaining()).len() as int,
                )
                &&& final(self).peeked() == padded(stream_of(old(self).peeked(), old(self).inner().remaining())).take(
                    final(self).peeked().len() as int,
                )
            },
            !final(self).obeys() ==> (final(self).peeked().len() >= required_elements || ends_with_none(final(self).peeked())),
    {
        proof {
            lemma_buffer_prefix_all(self.queue@);
        }
        let start_len = self.queue.len();
        let mut i = start_len;
        while i < required_elements
            invariant
                self.wf(),
                self.obeys() == old(self).obeys(),
                start_len == old(self).peeked().len(),
                start_len <= i,
                i > start_len ==> i <= required_elements,
                self.peeked().take(start_len as int) == old(self).peeked(),
                self.peeked().len() >= start_len,
                self.obeys() ==> {
                    &&& coherent(self.peeked(), self.inner().remaining())
                    &&& stream_of(self.peeked(), self.inner().remaining())
                        == stream_of(old(self).peeked(), old(self).inner().remaining())
                    &&& start_len <= stream_of(old(self).peeked(), old(self).inner().remaining()).len() + 1
                    &&& self.peeked().len() == filled_len(
                        start_len as int,
                        i as int,
                        stream_of(old(self).peeked(), old(self).inner().remaining()).len() as int,
                    )
                    &&& self.peeked() == padded(stream_of(old(self).peeked(), old(self).inner().remaining())).take(
                        self.peeked().len() as int,
                    )
                },
                !self.obeys() ==> (self.peeked().len() == i || ends_with_none(self.peeked())),
                i == start_len ==> *self == *old(self),
            decreases required_elements - i,
        {
            let ghost before = self.queue@;
            self.push_next_to_queue();
            proof {
                assert(self.queue@.take(start_len as int) =~= old(self).peeked()) by {
                    assert(self.queue@.take(before.len() as int) == before);
                    assert(before.take(start_len as int) == old(self).peeked());
                }
            }
            i = i + 1;
        }
    }

    /// Looks at the next item without consuming it.
    ///
    /// Every call to `peek()` returns the same value until `next()` is
    /// called (directly or indirectly).
    pub fn peek(&mut self) -> (r: Option<&I::Item>)
        requires
            old(self).wf(),
            old(self).obeys() ==> coherent(old(self).peeked(), old(self).inner().remaining()),
        ensures
            final(self).wf(),
            final(self).obeys() == old(self).obeys(),
            final(self).peeked().take(old(self).peeked().len() as int) == old(self).peeked(),
            r matches Some(v) ==> 0 < final(self).peeked().len() && final(self).peeked()[0] == Some(*v),
            r is None ==> final(self).peeked().len() == 0 || final(self).peeked()[0] is None,
            0 < old(self).peeked().len() ==> *final(self) == *old(self),
            final(self).obeys() ==> {
                &&& coherent(final(self).peeked(), final(self).inner().remaining())
                &&& stream_of(final(self).peeked(), final(self).inner().remaining())
                    == stream_of(old(self).peeked(), old(self).inner().remaining())
                &&& final(self).peeked().len() == filled_len(
                    old(self).peeked().len() as int,
                    1,
                    stream_of(old(self).peeked(), old(self).inner().remaining()).len() as int,
                )
                &&& (r is Some <==> stream_of(old(self).peeked(), old(self).inner().remaining()).len() > 0)
                &&& (r matches Some(v) ==> *v == stream_of(old(self).peeked(), old(self).inner().remaining())[0])
            },
    {
        self.peek_nth(0)
    }

    /// Looks `n` items ahead (zero-indexed) without consuming anything.
    ///
    /// `peek_nth(0)` is equivalent to `peek()`.
    pub fn peek_nth(&mut self, n: usize) -> (r: Option<&I::Item>)
        requires
            old(self).wf(),
            old(self).obeys() ==> coherent(old(self).peeked(), old(self).inner().remaining()),
            n < usize::MAX,
        ensures
            final(self).wf(),
            final(self).obeys() == old(self).obeys(),
            final(self).peeked().take(old(self).peeked().len() as int) == old(self).peeked(),
            r matches Some(v) ==> n < final(self).peeked().len() && final(self).peeked()[n as int] == Some(*v),
            r is None ==> n >= final(self).peeked().len() || final(self).peeked()[n as int] is None,
            n < old(self).peeked().len() ==> *final(self) == *old(self),
            final(self).obeys() ==> {
                &&& coherent(final(self).peeked(), final(self).inner().remaining())
                &&& stream_of(final(self).peeked(), final(self).inner().remaining())
                    == stream_of(old(self).peeked(), old(self).inner().remaining())
                &&& final(self).peeked().len() == filled_len(
                    old(self).peeked().len() as int,
                    n + 1,
                    stream_of(old(self).peeked(), old(self).inner().remaining()).len() as int,
                )
                &&& (r is Some <==> n < stream_of(old(self).peeked(), old(self).inner().remaining()).len())
                &&& (r matches Some(v) ==> *v == stream_of(old(self).peeked(), old(self).inner().remaining())[n as int])
            },
    {
        self.fill_queue(n + 1);
        proof {
            lemma_buffer_prefix_all(self.queue@);
        }
        if n < self.queue.len() {
            match &self.queue[n] {
                Some(v) => Some(v),
                None => None,
            }
        } else {
            None
        }
    }

    /// Returns the peeked values from `start` (inclusive) to `end`
    /// (exclusive), peeking as far as needed.
    pub fn peek_range(&mut self, start: usize, end: usize) -> (r: &[Option<I::Item>])
        requires
            old(self).wf(),
            old(self).obeys() ==> coherent(old(self).peeked(), old(self).inner().remaining()),
            start <= end,
            end <= old(self).peeked().len() || (old(self).obeys() && end <= stream_of(
                old(self).peeked(),
                old(self).inner().remaining(),
            ).len() + 1),
        ensures
            final(self).wf(),
            final(self).obeys() == old(self).obeys(),
            final(self).peeked().take(old(self).peeked().len() as int) == old(self).peeked(),
            r@ == final(self).peeked().subrange(start as int, end as int),
            final(self).obeys() ==> {
                &&& coherent(final(self).peeked(), final(self).inner().remaining())
                &&& stream_of(final(self).peeked(), final(self).inner().remaining())
                    == stream_of(old(self).peeked(), old(self).inner().remaining())
                &&& final(self).peeked().len() == filled_len(
                    old(self).peeked().len() as int,
                    end as int,
                    stream_of(old(self).peeked(), old(self).inner().remaining()).len() as int,
                )
                &&& r@ == padded(stream_of(old(self).peeked(), old(self).inner().remaining())).subrange(
                    start as int,
                    end as int,
                )
            },
    {
        self.fill_queue(end);
        let all = contiguous(&mut self.queue);
        &all[start..end]
    }

    /// Returns the first `amount` peeked values (see `peek_range`).
    pub fn peek_amount(&mut self, amount: usize) -> (r: &[Option<I::Item>])
        requires
            old(self).wf(),
            old(self).obeys() ==> coherent(old(self).peeked(), old(self).inner().remaining()),
            amount <= old(self).peeked().len() || (old(self).obeys() && amount <= stream_of(
                old(self).peeked(),
                old(self).inner().remaining(),
            ).len() + 1),
        ensures
            final(self).wf(),
            final(self).obeys() == old(self).obeys(),
            final(self).peeked().take(old(self).peeked().len() as int) == old(self).peeked(),
            r@ == final(self).peeked().take(amount as int),
            final(self).obeys() ==> {
                &&& coherent(final(self).peeked(), final(self).inner().remaining())
                &&& stream_of(final(self).peeked(), final(self).inner().remaining())
                    == stream_of(old(self).peeked(), old(self).inner().remaining())
                &&& final(self).peeked().len() == filled_len(
                    old(self).peeked().len() as int,
                    amount as int,
                    stream_of(old(self).peeked(), old(self).inner().remaining()).len() as int,
                )
                &&& r@ == padded(stream_of(old(self).peeked(), old(self).inner().remaining())).take(amount as int)
            },
    {
        self.peek_range(0, amount)
    }

    /// Removes and returns all the currently buffered items; a buffered end
    /// marker is dropped as well.
    fn take_all_peeked(&mut self) -> (r: Vec<I::Item>)
        requires
            old(self).wf(),
            old(self).obeys() ==> coherent(old(self).peeked(), old(self).inner().remaining()),
        ensures
            final(self).wf(),
            final(self).peeked() == Seq::<Option<I::Item>>::empty(),
            final(self).inner() == old(self).inner(),
            r@ == buffered_items(old(self).peeked()),
            final(self).obeys() ==> stream_of(old(self).peeked(), old(self).inner().remaining())
                == r@ + stream_of(final(self).peeked(), final(self).inner().remaining()),
    {
        proof {
            lemma_buffer_prefix_all(self.queue@);
            lemma_empty_buffer::<I::Item>();
        }
        let ghost q = self.queue@;
        let mut rest: VecDeque<Option<I::Item>> = VecDeque::new();
        std::mem::swap(&mut rest, &mut self.queue);
        let mut out: Vec<I::Item> = Vec::new();
        let mut idx: usize = 0;
        let len = rest.len();
        while idx < len
            invariant
                len == q.len(),
                idx <= len,
                buffer_wf(q),
                rest@ == q.skip(idx as int),
                out@ == buffered_items(q.take(idx as int)),
            decreases len - idx,
        {
            let x = match rest.pop_front() {
                Some(x) => x,
                None => None,
            };
            proof {
                assert(x == q[idx as int]);
                assert(rest@ =~= q.skip(idx + 1));
                if idx > 0 {
                    assert(q[idx - 1] is Some);
                    assert(q.take(idx as int).last() == q[idx - 1]);
                }
            }
            match x {
                Some(v) => {
                    out.push(v);
                    proof {
                        assert(buffered_items(q.take(idx + 1)) =~= buffered_items(q.take(idx as int)).push(v));
                    }
                },
                None => {
                    proof {
                        assert(q.take(idx + 1).drop_last() =~= q.take(idx as int));
                        assert(buffered_items(q.take(idx + 1)) =~= buffered_items(q.take(idx as int)));
                    }
                },
            }
            idx = idx + 1;
        }
        proof {
            assert(q.take(len as int) =~= q);
        }
        out
    }

    /// Removes all the currently buffered items and returns an iterator
    /// over them; a buffered end marker is dropped as well.
    pub fn drain_all_peeked(&mut self) -> (r: std::vec::IntoIter<I::Item>)
        requires
            old(self).wf(),
            old(self).obeys() ==> coherent(old(self).peeked(), old(self).inner().remaining()),
        ensures
            final(self).wf(),
            final(self).peeked() == Seq::<Option<I::Item>>::empty(),
            final(self).inner() == old(self).inner(),
            r.remaining() == buffered_items(old(self).peeked()),
            final(self).obeys() ==> stream_of(old(self).peeked(), old(self).inner().remaining())
                == r.remaining() + stream_of(final(self).peeked(), final(self).inner().remaining()),
    {
        let v = self.take_all_peeked();
        proof {
            vstd::std_specs::vec::axiom_spec_into_iter(v);
        }
        v.into_iter()
    }

    /// Returns the count of currently stored peeked values.
    pub fn count_peeked(&self) -> (r: usize)
        ensures
            r == self.peeked().len(),
    {
        self.queue.len()
    }

    /// Advances the iterator and returns the next value: the first buffered
    /// value if there is one, otherwise the next value of the underlying
    /// iterator.
    pub fn next(&mut self) -> (r: Option<I::Item>)
        requires
            old(self).wf(),
            old(self).obeys() ==> coherent(old(self).peeked(), old(self).inner().remaining()),
        ensures
            final(self).wf(),
            final(self).obeys() == old(self).obeys(),
            old(self).peeked().len() > 0 ==> {
                &&& r == old(self).peeked()[0]
                &&& final(self).peeked() == old(self).peeked().drop_first()
                &&& final(self).inner() == old(self).inner()
            },
            old(self).peeked().len() == 0 ==> final(self).peeked().len() == 0,
            final(self).obeys() ==> {
                &&& coherent(final(self).peeked(), final(self).inner().remaining())
                &&& r == nth_of(stream_of(old(self).peeked(), old(self).inner().remaining()), 0)
                &&& stream_of(final(self).peeked(), final(self).inner().remaining()) == (if stream_of(
                    old(self).peeked(),
                    old(self).inner().remaining(),
                ).len() > 0 {
                    stream_of(old(self).peeked(), old(self).inner().remaining()).drop_first()
                } else {
                    stream_of(old(self).peeked(), old(self).inner().remaining())
                })
            },
    {
        proof {
            lemma_empty_buffer::<I::Item>();
        }
        if self.queue.len() > 0 {
            proof {
                lemma_pop_front(self.queue@);
            }
            let ghost q = self.queue@;
            let r = match self.queue.pop_front() {
                Some(x) => x,
                None => None,
            };
            proof {
                assert(self.queue@ =~= q.drop_first());
            }
            r
        } else {
            self.iter.next()
        }
    }

    /// Consumes `n` items and returns the one after them; stops early, with
    /// `None`, when the iterator runs out first.
    pub fn nth(&mut self, n: usize) -> (r: Option<I::Item>)
        requires
            old(self).wf(),
            old(self).obeys() ==> coherent(old(self).peeked(), old(self).inner().remaining()),
        ensures
            final(self).wf(),
            final(self).obeys() == old(self).obeys(),
            final(self).obeys() ==> {
                &&& coherent(final(self).peeked(), final(self).inner().remaining())
                &&& r == nth_of(stream_of(old(self).peeked(), old(self).inner().remaining()), n as int)
                &&& stream_of(final(self).peeked(), final(self).inner().remaining()) == (if n < stream_of(
                    old(self).peeked(),
                    old(self).inner().remaining(),
                ).len() {
                    stream_of(old(self).peeked(), old(self).inner().remaining()).skip(n + 1)
                } else {
                    Seq::<I::Item>::empty()
                })
            },
    {
        let mut i: usize = 0;
        while i < n
            invariant
                self.wf(),
                self.obeys() == old(self).obeys(),
                i <= n,
                self.obeys() ==> coherent(self.peeked(), self.inner().remaining()),
                self.obeys() ==> i <= stream_of(old(self).peeked(), old(self).inner().remaining()).len(),
                self.obeys() ==> stream_of(self.peeked(), self.inner().remaining())
                    == stream_of(old(self).peeked(), old(self).inner().remaining()).skip(i as int),
            decreases n - i,
        {
            let x = self.next();
            if x.is_none() {
                return None;
            }
            i = i + 1;
        }
        self.next()
    }
}

/// Turns any iterator into a `LongPeekableIterator`.
pub trait LongPeek: Iterator + Sized {
    fn long_peekable(self) -> (r: LongPeekableIterator<Self>)
        ensures
            r.peeked() == Seq::<Option<Self::Item>>::empty(),
            r.inner() == self,
            r.wf(),
    ;
}

impl<I: Iterator> LongPeek for I {
    fn long_peekable(self) -> (r: LongPeekableIterator<Self>) {
        LongPeekableIterator::new(self)
    }
}

/// The items an adapter hands out over any run of calls, in the order of
/// the calls, are those it had ahead of it: where each call took the
/// adapter from `its[i]` to `its[i + 1]` and handed out `outs[i]` (the item
/// `next` or `nth` gave, the items a drain gave, nothing for a peek), as
/// each call's contract says where the underlying iterator follows vstd's
/// iterator laws, the items ahead at the start are all that was handed
/// out, in order, followed by the items ahead at the end.
pub proof fn law_items_kept_over_calls<I: Iterator>(its: Seq<LongPeekableIterator<I>>, outs: Seq<Seq<I::Item>>)
    requires
        its.len() == outs.len() + 1,
        forall|i: int| 0 <= i < outs.len() ==> stream_of((#[trigger] its[i]).peeked(), its[i].inner().remaining())
            == outs[i] + stream_of(its[i + 1].peeked(), its[i + 1].inner().remaining()),
    ensures
        stream_of(its[0].peeked(), its[0].inner().remaining())
            == outs.flatten() + stream_of(its.last().peeked(), its.last().inner().remaining()),
    decreases outs.len(),
{
    if outs.len() > 0 {
        let its2 = its.drop_first();
        let outs2 = outs.drop_first();
        assert forall|i: int| 0 <= i < outs2.len() implies stream_of((#[trigger] its2[i]).peeked(), its2[i].inner().remaining())
            == outs2[i] + stream_of(its2[i + 1].peeked(), its2[i + 1].inner().remaining()) by {
            assert(its2[i] == its[i + 1]);
            assert(its2[i + 1] == its[i + 2]);
            assert(outs2[i] == outs[i + 1]);
        }
        law_items_kept_over_calls(its2, outs2);
        assert(its2.last() == its.last());
        assert(its2[0] == its[1]);
        assert(stream_of(its[0].peeked(), its[0].inner().remaining()) == outs[0] + stream_of(its[1].peeked(), its[1].inner().remaining()));
        assert(outs.flatten() == outs[0] + outs2.flatten());
        assert(outs[0] + (outs2.flatten() + stream_of(its.last().peeked(), its.last().inner().remaining()))
            =~= (outs[0] + outs2.flatten()) + stream_of(its.last().peeked(), its.last().inner().remaining()));
    }
}

} // verus!
