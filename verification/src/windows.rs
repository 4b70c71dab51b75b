//! Overlapping fixed-size windows of consecutive elements, drawn lazily
//! from a single-pass source of items.

use vstd::prelude::*;
use vstd::slice::slice_index_get;

verus! {

/// A single-pass source of items: each call to `next` either hands out
/// the next item or signals exhaustion, never re-reading an item.
pub trait Producer<T>: Sized {
    /// The items the source will still yield, in order.
    spec fn remaining(&self) -> Seq<T>;

    /// Draws the next item, or signals exhaustion when none is left.
    fn next(&mut self) -> (r: Option<T>)
        ensures
            match r {
                Some(x) => old(self).remaining().len() > 0 && x == old(self).remaining()[0]
                    && final(self).remaining() == old(self).remaining().drop_first(),
                None => old(self).remaining().len() == 0 && final(self).remaining() == old(
                    self,
                ).remaining(),
            },
    ;
}

/// A producer that walks a slice front to back, handing out one copy of
/// each element in turn.
pub struct SliceSource<'a, T> {
    items: &'a [T],
    pos: usize,
}

impl<'a, T: Copy> SliceSource<'a, T> {
    /// Builds a source that will yield every element of the slice in order.
    pub fn new(items: &'a [T]) -> (s: Self)
        ensures
            s.remaining() == items@,
    {
        Self { items, pos: 0 }
    }
}

impl<'a, T: Copy> Producer<T> for SliceSource<'a, T> {
    closed spec fn remaining(&self) -> Seq<T> {
        if self.pos <= self.items@.len() {
            self.items@.skip(self.pos as int)
        } else {
            Seq::empty()
        }
    }

    fn next(&mut self) -> (r: Option<T>) {
        if self.pos < self.items.len() {
            let x: T = *slice_index_get(self.items, self.pos);
            self.pos = self.pos + 1;
            proof {
                assert(final(self).remaining() =~= old(self).remaining().drop_first());
            }
            Some(x)
        } else {
            None
        }
    }
}

/// The error for a requested window size of zero: no window of that size
/// is meaningful, so construction fails fast instead of coercing the size.
#[derive(Clone, Copy, Debug, PartialEq, Eq, Structural)]
pub struct InvalidSize;

/// How many windows of `size` consecutive elements a sequence of `len`
/// elements yields: `len - size + 1` when that is positive, else none.
pub open spec fn max_windows(len: int, size: int) -> int {
    if len + 1 >= size {
        len - size + 1
    } else {
        0
    }
}

/// The windowing adapter's retained state: either the pending buffer of
/// the `size - 1` elements most recently drawn from the source, or the
/// terminal, permanently exhausted state.
enum WindowState<T> {
    Active(Vec<T>),
    Exhausted,
}

/// Lazy producer of the overlapping windows of `size` consecutive
/// elements of a source sequence. Elements must be cheap shared handles
/// (`Copy`, e.g. references), since up to `size` windows and the pending
/// buffer hold each of them at once. The adapter draws each element from
/// the source exactly once and advances one element per window produced.
pub struct Cons<T, P> {
    size: usize,
    state: WindowState<T>,
    source: P,
    orig: Ghost<Seq<T>>,
    served: Ghost<int>,
}

impl<T, P: Producer<T>> Cons<T, P> {
    /// The requested window size.
    pub closed spec fn size(&self) -> int {
        self.size as int
    }

    /// The full sequence the source held when the adapter was built.
    pub closed spec fn orig(&self) -> Seq<T> {
        self.orig@
    }

    /// How many windows the adapter has produced so far.
    pub closed spec fn served(&self) -> int {
        self.served@
    }

    /// Whether the adapter has reached its terminal state: from then on
    /// every call signals exhaustion and the source is never re-polled.
    pub closed spec fn exhausted(&self) -> bool {
        self.state is Exhausted
    }

    /// The adapter's invariant: while active, the pending buffer holds
    /// exactly the `size - 1` elements that precede the next element to
    /// be drawn, and the source holds the rest; once exhausted, every
    /// window the sequence had to give has been served.
    pub closed spec fn wf(&self) -> bool {
        &&& self.size >= 1
        &&& 0 <= self.served@
        &&& match self.state {
            WindowState::Active(pending) => {
                &&& pending@.len() == self.size - 1
                &&& self.served@ + self.size - 1 <= self.orig@.len()
                &&& pending@ == self.orig@.subrange(self.served@, self.served@ + self.size - 1)
                &&& self.source.remaining() == self.orig@.skip(self.served@ + self.size - 1)
            },
            WindowState::Exhausted => self.served@ == max_windows(
                self.orig@.len() as int,
                self.size as int,
            ),
        }
    }
}

impl<T: Copy, P: Producer<T>> Cons<T, P> {
    /// Produces the next window, or signals exhaustion. A produced window
    /// holds exactly the `size` consecutive elements of the original
    /// sequence starting at the position of this window — the pending
    /// buffer followed by one freshly drawn element — so window `i` is
    /// `orig[i .. i + size]`. A window is owed precisely while the
    /// original sequence still has `size` elements from the current
    /// position on; otherwise the adapter becomes permanently exhausted.
    pub fn next(&mut self) -> (r: Option<Vec<T>>)
        requires
            old(self).wf(),
        ensures
            final(self).wf(),
            final(self).size() == old(self).size(),
            final(self).orig() == old(self).orig(),
            r is Some <==> !old(self).exhausted() && old(self).served() + old(self).size() <= old(
                self,
            ).orig().len(),
            match r {
                Some(w) => {
                    &&& w@.len() == old(self).size()
                    &&& w@ == old(self).orig().subrange(
                        old(self).served(),
                        old(self).served() + old(self).size(),
                    )
                    &&& final(self).served() == old(self).served() + 1
                    &&& !final(self).exhausted()
                },
                None => {
                    &&& final(self).exhausted()
                    &&& final(self).served() == old(self).served()
                },
            },
    {
        let mut st = WindowState::Exhausted;
        core::mem::swap(&mut st, &mut self.state);
        match st {
            WindowState::Exhausted => None,
            WindowState::Active(pending) => {
                let ghost before = self.source.remaining();
                match self.source.next() {
                    None => None,
                    Some(x) => {
                        let mut w: Vec<T> = Vec::new();
                        let mut j: usize = 0;
                        while j < pending.len()
                            invariant
                                j <= pending@.len(),
                                w@ == pending@.subrange(0, j as int),
                            decreases pending@.len() - j,
                        {
                            let e: T = pending[j];
                            w.push(e);
                            proof {
                                assert(w@ =~= pending@.subrange(0, j as int + 1));
                            }
                            j = j + 1;
                        }
                        proof {
                            assert(w@ =~= pending@);
                        }
                        w.push(x);
                        let mut nb: Vec<T> = Vec::new();
                        let mut j2: usize = 1;
                        while j2 < w.len()
                            invariant
                                1 <= j2 <= w@.len(),
                                nb@ == w@.subrange(1, j2 as int),
                            decreases w@.len() - j2,
                        {
                            let e: T = w[j2];
                            nb.push(e);
                            proof {
                                assert(nb@ =~= w@.subrange(1, j2 as int + 1));
                            }
                            j2 = j2 + 1;
                        }
                        self.state = WindowState::Active(nb);
                        self.served = Ghost(self.served@ + 1);
                        proof {
                            let ghost k = old(self).served();
                            let ghost n = old(self).size();
                            let ghost s = old(self).orig();
                            assert(before[0] == s[k + n - 1]);
                            assert(w@ =~= s.subrange(k, k + n));
                            assert(nb@ =~= s.subrange(k + 1, k + 1 + n - 1));
                            assert(self.source.remaining() =~= s.skip(k + 1 + n - 1));
                        }
                        Some(w)
                    },
                }
            },
        }
    }

    /// Drains the adapter and collects every remaining window. Law: an
    /// adapter over a sequence of `len` elements produces exactly
    /// `max_windows(len, size)` windows in all — `len - size + 1` when
    /// that is positive, none otherwise — and the window at position `i`
    /// is exactly `orig[i .. i + size]`.
    pub fn collect_windows(self) -> (ws: Vec<Vec<T>>)
        requires
            self.wf(),
        ensures
            ws@.len() == max_windows(self.orig().len() as int, self.size()) - self.served(),
            forall|i: int|
                0 <= i < ws@.len() ==> #[trigger] ws@[i]@ == self.orig().subrange(
                    self.served() + i,
                    self.served() + i + self.size(),
                ),
    {
        let ghost s = self.orig();
        let ghost n = self.size();
        let ghost base = self.served();
        let mut a = self;
        let mut ws: Vec<Vec<T>> = Vec::new();
        let mut done = false;
        while !done
            invariant
                a.wf(),
                a.size() == n,
                a.orig() == s,
                a.served() == base + ws@.len(),
                forall|i: int|
                    0 <= i < ws@.len() ==> #[trigger] ws@[i]@ == s.subrange(base + i, base + i + n),
                done ==> ws@.len() == max_windows(s.len() as int, n) - base,
            decreases (if done {
                0int
            } else {
                max_windows(s.len() as int, n) - a.served() + 1
            }),
        {
            match a.next() {
                Some(w) => {
                    ws.push(w);
                },
                None => {
                    done = true;
                },
            }
        }
        ws
    }
}

/// Builds a windowing adapter of the given window size over a source
/// sequence, rejecting a size of zero. Construction eagerly draws the
/// first `size - 1` elements into the pending buffer; a source with
/// fewer elements than that leaves the adapter permanently exhausted.
pub fn each_cons<T: Copy, P: Producer<T>>(size: usize, source: P) -> (r: Result<
    Cons<T, P>,
    InvalidSize,
>)
    ensures
        r is Ok <==> size >= 1,
        match r {
            Ok(a) => {
                &&& a.wf()
                &&& a.size() == size
                &&& a.orig() == source.remaining()
                &&& a.served() == 0
            },
            Err(_) => size == 0,
        },
{
    if size == 0 {
        return Err(InvalidSize);
    }
    let mut src = source;
    let ghost orig = src.remaining();
    let mut pending: Vec<T> = Vec::new();
    let mut short = false;
    while !short && pending.len() + 1 < size
        invariant
            size >= 1,
            pending@.len() <= size - 1,
            pending@.len() <= orig.len(),
            pending@ == orig.subrange(0, pending@.len() as int),
            src.remaining() == orig.skip(pending@.len() as int),
            short ==> orig.len() == pending@.len() && pending@.len() + 1 < size,
        decreases (if short {
            0int
        } else {
            size - pending.len()
        }),
    {
        let ghost before = src.remaining();
        match src.next() {
            Some(x) => {
                proof {
                    assert(before.drop_first() =~= orig.skip(pending@.len() as int + 1));
                    assert(pending@.push(before[0]) =~= orig.subrange(
                        0,
                        pending@.len() as int + 1,
                    ));
                }
                pending.push(x);
            },
            None => {
                short = true;
            },
        }
    }
    if short {
        Ok(
            Cons {
                size,
                state: WindowState::Exhausted,
                source: src,
                orig: Ghost(orig),
                served: Ghost(0int),
            },
        )
    } else {
        Ok(
            Cons {
                size,
                state: WindowState::Active(pending),
                source: src,
                orig: Ghost(orig),
                served: Ghost(0int),
            },
        )
    }
}

/// Brings the fluent `each_cons` form into scope: any slice of `Copy`
/// elements (for shared non-`Copy` data, a slice of references) can be
/// walked in overlapping windows of consecutive elements.
pub trait EachConsExt<T: Copy>: View<V = Seq<T>> {
    /// Builds a windowing adapter of the given window size over all the
    /// elements, in order, rejecting a size of zero.
    fn each_cons(&self, size: usize) -> (r: Result<Cons<T, SliceSource<'_, T>>, InvalidSize>)
        ensures
            r is Ok <==> size >= 1,
            match r {
                Ok(a) => {
                    &&& a.wf()
                    &&& a.size() == size
                    &&& a.orig() == self@
                    &&& a.served() == 0
                },
                Err(_) => size == 0,
            },
    ;
}

impl<T: Copy> EachConsExt<T> for [T] {
    fn each_cons(&self, size: usize) -> (r: Result<Cons<T, SliceSource<'_, T>>, InvalidSize>) {
        each_cons(size, SliceSource::new(self))
    }
}

} // verus!
