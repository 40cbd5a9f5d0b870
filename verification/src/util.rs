//! Seeded random generators and the skip-step walk over a list of frames.

use vstd::prelude::*;
use vstd::std_specs::iter::IteratorSpec;

verus! {

/// The standard generator of the `rand` crate, carried through as an opaque value.
#[verifier::external_type_specification]
#[verifier::external_body]
pub struct ExStdRng(rand::rngs::StdRng);

/// The `k`-th byte that a generator made from thirty-two copies of `seed`
/// yields when bytes are drawn from it one after another.
pub uninterp spec fn seeded_byte(seed: u8, k: nat) -> u8;

/// The byte that the `k`-th next single-byte draw from `rng` yields
/// (`k == 0` is the very next draw).
pub uninterp spec fn upcoming_byte(rng: rand::rngs::StdRng, k: nat) -> u8;

/// Makes a generator whose 32-byte seed repeats `seed`.
///
/// Trusted: calls `rand::SeedableRng::from_seed` for `StdRng`. The generator is
/// a deterministic function of its seed, so the bytes it is going to yield are
/// those named by [`seeded_byte`].
#[verifier::external_body]
pub fn rng_by_seed(seed: u8) -> (rng: rand::rngs::StdRng)
    ensures
        forall|k: nat| #[trigger] upcoming_byte(rng, k) == seeded_byte(seed, k),
{
    rand::SeedableRng::from_seed([seed; 32])
}

/// Draws one byte.
///
/// Trusted: calls `rand::Rng::gen::<u8>` on `StdRng`, which takes the next
/// 32-bit word of the stream and keeps its low byte. The draw returns the next
/// upcoming byte and moves every later one a place forward.
#[verifier::external_body]
pub(crate) fn draw_byte(rng: &mut rand::rngs::StdRng) -> (byte: u8)
    ensures
        byte == upcoming_byte(*old(rng), 0),
        forall|k: nat| #[trigger] upcoming_byte(*final(rng), k) == upcoming_byte(*old(rng), k + 1),
{
    rand::Rng::gen(rng)
}

/// Walks an iterator and hands out its first item and then every item that
/// lies `skip_step + 1` places after the one handed out before.
pub struct SkipStepIterator<I> {
    iter: I,
    skip_step: usize,
    idx: usize,
}

/// The items of `items` at the places `first`, `first + stride`,
/// `first + 2 * stride` and so on.
pub open spec fn every_nth<T>(items: Seq<T>, first: nat, stride: nat) -> Seq<T>
    decreases items.len(),
{
    if items.len() <= first || stride == 0 {
        Seq::empty()
    } else {
        seq![items[first as int]] + every_nth(items.skip(first as int + 1), (stride - 1) as nat, stride)
    }
}

impl<I: Iterator> SkipStepIterator<I> {
    /// The iterator that is walked.
    pub closed spec fn inner(&self) -> I {
        self.iter
    }

    /// Distance between two items that are handed out.
    pub closed spec fn stride(&self) -> nat {
        (self.skip_step + 1) as nat
    }

    /// Number of items that are passed over before the next one is handed out.
    pub closed spec fn gap(&self) -> nat {
        if self.idx == 0 {
            0
        } else {
            (self.skip_step + 1 - self.idx) as nat
        }
    }

    /// The counters are in step with one another.
    pub closed spec fn wf(&self) -> bool {
        self.skip_step < usize::MAX && self.idx <= self.skip_step
    }

    /// Hands out the next item: passes over the items of the gap, then takes
    /// one, and leaves a gap of `skip_step` items behind it. Of an iterator that
    /// keeps the laws of iterators, the item handed out is the one that stands
    /// `gap` places from its front; at the end of the iterator it is `None`.
    pub fn next(&mut self) -> (item: Option<I::Item>)
        requires
            old(self).wf(),
        ensures
            final(self).wf(),
            final(self).stride() == old(self).stride(),
            final(self).gap() == old(self).stride() - 1,
            final(self).inner().obeys_prophetic_iter_laws() == old(
                self,
            ).inner().obeys_prophetic_iter_laws(),
            old(self).inner().obeys_prophetic_iter_laws() && old(self).inner().remaining().len()
                > old(self).gap() ==> {
                &&& item == Some(old(self).inner().remaining()[old(self).gap() as int])
                &&& final(self).inner().remaining() == old(self).inner().remaining().skip(
                    old(self).gap() as int + 1,
                )
            },
            old(self).inner().obeys_prophetic_iter_laws() && old(self).inner().remaining().len()
                <= old(self).gap() ==> {
                &&& item is None
                &&& final(self).inner().remaining().len() == 0
            },
            old(self).inner().obeys_prophetic_iter_laws() ==> every_nth(
                old(self).inner().remaining(),
                old(self).gap(),
                old(self).stride(),
            ) == (match item {
                Some(first) => seq![first] + every_nth(
                    final(self).inner().remaining(),
                    final(self).gap(),
                    final(self).stride(),
                ),
                None => Seq::empty(),
            }),
    {
        let ghost start = self.iter.remaining();
        let ghost lawful = self.iter.obeys_prophetic_iter_laws();
        let ghost gap = self.gap();
        let ghost mut passed: nat = 0;
        while self.idx != 0
            invariant
                self.skip_step == old(self).skip_step,
                self.skip_step < usize::MAX,
                self.idx <= self.skip_step,
                self.iter.obeys_prophetic_iter_laws() == lawful,
                passed + self.gap() == gap,
                lawful && start.len() >= passed ==> self.iter.remaining() == start.skip(
                    passed as int,
                ),
                lawful && start.len() < passed ==> self.iter.remaining().len() == 0,
            decreases self.gap(),
        {
            let ghost before = self.iter.remaining();
            let _ = self.iter.next();
            assert(lawful && start.len() > passed ==> before.drop_first() =~= start.skip(
                passed as int + 1,
            ));
            proof {
                passed = passed + 1;
            }
            if self.idx == self.skip_step {
                self.idx = 0;
            } else {
                self.idx += 1;
            }
        }
        let ghost before = self.iter.remaining();
        let next = self.iter.next();
        assert(lawful && start.len() > gap ==> before.drop_first() =~= start.skip(gap as int + 1));
        if self.skip_step == 0 {
            self.idx = 0;
        } else {
            self.idx = 1;
        }
        next
    }
}

/// Starts a walk over `iter` that hands out its first item and passes over
/// `skip_step` items after every item handed out.
pub fn skip_by_step<I: Iterator>(iter: I, skip_step: usize) -> (walk: SkipStepIterator<I>)
    requires
        skip_step < usize::MAX,
    ensures
        walk.wf(),
        walk.inner() == iter,
        walk.stride() == skip_step + 1,
        walk.gap() == 0,
{
    SkipStepIterator { iter, skip_step, idx: 0 }
}

/// What `every_nth` holds, place by place: item `k` of the result is item
/// `first + k * stride` of `items`, and the result goes on for as long as such
/// a place lies inside `items`.
pub proof fn lemma_every_nth<T>(items: Seq<T>, first: nat, stride: nat)
    requires
        stride > 0,
    ensures
        every_nth(items, first, stride).len() == (if items.len() > first {
            (items.len() - first - 1) / (stride as int) + 1
        } else {
            0
        }),
        every_nth(items, first, stride).len() > 0 ==> first + (every_nth(
            items,
            first,
            stride,
        ).len() - 1) * stride < items.len(),
        first + every_nth(items, first, stride).len() * stride >= items.len(),
        forall|k: int|
            0 <= k < every_nth(items, first, stride).len() ==> #[trigger] every_nth(
                items,
                first,
                stride,
            )[k] == items[first + k * stride],
    decreases items.len(),
{
    if items.len() > first {
        let rest = items.skip(first as int + 1);
        let tail = every_nth(rest, (stride - 1) as nat, stride);
        lemma_every_nth(rest, (stride - 1) as nat, stride);
        let n = items.len() - first - 1;
        let d = stride as int;
        let count = every_nth(items, first, stride).len() as int;
        assert(rest.len() == n);
        assert(count == tail.len() + 1);
        if n >= d {
            assert((n - d) / d + 1 == n / d) by (nonlinear_arith)
                requires
                    d > 0,
                    n >= d,
            ;
        } else {
            assert(n / d == 0) by (nonlinear_arith)
                requires
                    d > 0,
                    0 <= n < d,
            ;
        }
        assert((count - 1) * d == (count - 2) * d + d) by (nonlinear_arith);
        assert(count * d == (count - 1) * d + d) by (nonlinear_arith);
        assert forall|k: int| 0 <= k < count implies #[trigger] every_nth(items, first, stride)[k]
            == items[first + k * stride] by {
            if k > 0 {
                let j = (stride - 1) + (k - 1) * stride;
                assert(0 <= (k - 1) * d <= (count - 2) * d) by (nonlinear_arith)
                    requires
                        1 <= k <= count - 1,
                        d > 0,
                ;
                assert(j == k * stride - 1) by (nonlinear_arith)
                    requires
                        j == (stride - 1) + (k - 1) * stride,
                ;
                assert(0 <= j < rest.len());
                assert(tail[k - 1] == rest[j]);
                assert(rest[j] == items[first + 1 + j]);
            } else {
                assert(k * stride == 0) by (nonlinear_arith)
                    requires
                        k == 0,
                ;
            }
        }
    } else {
        assert(every_nth(items, first, stride).len() * stride == 0) by (nonlinear_arith)
            requires
                every_nth(items, first, stride).len() == 0,
        ;
    }
}

} // verus!
