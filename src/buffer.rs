//! Per-pixel accumulation of radiance over repeated full-frame passes.
//!
//! A buffer holds three running sums per pixel (row-major, channel-interleaved)
//! and the number of passes that completed since it was last drained. A zero
//! count marks the sums as stale: the next pass overwrites each pixel on first
//! touch instead of adding to it, so draining a buffer never costs a clearing
//! pass of its own.
//!
//! The buffer is generic over the sample type; the arithmetic on samples is
//! handed in as a closure that returns the same sum for the same operands.
use vstd::prelude::*;

verus! {

/// The value that `sum` gives for `a` and `b`.
pub open spec fn sum_by<T, A: Fn(T, T) -> T>(sum: A, a: T, b: T) -> T {
    choose|r: T| sum.ensures((a, b), r)
}

/// `sum` can be called on any operands and always gives the same sum for the same operands.
pub open spec fn is_adder<T, A: Fn(T, T) -> T>(sum: A) -> bool {
    &&& forall|a: T, b: T| #[trigger] sum.requires((a, b))
    &&& forall|a: T, b: T, r: T| #[trigger] sum.ensures((a, b), r) ==> r == sum_by(sum, a, b)
}

/// Channel `c` (0 red, 1 green, 2 blue) of a sample triple.
pub open spec fn channel<T>(t: (T, T, T), c: int) -> T {
    if c == 0 {
        t.0
    } else if c == 1 {
        t.1
    } else {
        t.2
    }
}

/// Channel `c` of `base` with every sample of `samples` added to it in order.
pub open spec fn fold_channel<T, A: Fn(T, T) -> T>(
    sum: A,
    base: T,
    samples: Seq<(T, T, T)>,
    c: int,
) -> T
    decreases samples.len(),
{
    if samples.len() == 0 {
        base
    } else {
        sum_by(sum, fold_channel(sum, base, samples.drop_last(), c), channel(samples.last(), c))
    }
}

/// What a pass starts from at data index `k`: `zero` when the sums are stale
/// (no completed pass since the last drain), else the running sum.
pub open spec fn start_value<T>(data: Seq<T>, sample_count: nat, k: int, zero: T) -> T {
    if sample_count == 0 {
        zero
    } else {
        data[k]
    }
}

/// Pixel `p` of `after` holds what one pass with `samples` makes of the same
/// pixel of a buffer with contents `before` and count `sample_count`.
pub open spec fn traced_pixel<T, A: Fn(T, T) -> T>(
    before: Seq<T>,
    sample_count: nat,
    after: Seq<T>,
    p: int,
    zero: T,
    sum: A,
    samples: Seq<(T, T, T)>,
) -> bool {
    forall|c: int|
        0 <= c < 3 ==> #[trigger] after[3 * p + c] == fold_channel(
            sum,
            start_value(before, sample_count, 3 * p + c, zero),
            samples,
            c,
        )
}

/// Pixel `p` of `after` holds what one pass makes of it, with the samples
/// that `sample` gave for its row and column in an image `width` pixels wide.
pub open spec fn pixel_of_pass<T, A: Fn(T, T) -> T, S: Fn(usize, usize) -> Vec<(T, T, T)>>(
    sample: S,
    width: int,
    before: Seq<T>,
    sample_count: nat,
    after: Seq<T>,
    p: int,
    zero: T,
    sum: A,
) -> bool {
    exists|s: Vec<(T, T, T)>|
        #[trigger] sample.ensures(((p / width) as usize, (p % width) as usize), s)
            && traced_pixel(before, sample_count, after, p, zero, sum, s@)
}

/// Index of the channel that output byte `c` of a pixel takes: the same
/// channel, or the opposite one when the order is reversed (BGR).
pub open spec fn source_channel(reverse: bool, c: int) -> int {
    if reverse {
        2 - c
    } else {
        c
    }
}

/// The sums of `a` and `b`, index by index.
pub open spec fn merged_values<T, A: Fn(T, T) -> T>(a: Seq<T>, b: Seq<T>, sum: A) -> Seq<T> {
    Seq::new(a.len(), |k: int| sum_by(sum, a[k], b[k]))
}

/// `sum` gives the same result however three operands are grouped.
pub open spec fn is_associative<T, A: Fn(T, T) -> T>(sum: A) -> bool {
    forall|x: T, y: T, z: T|
        #[trigger] sum_by(sum, sum_by(sum, x, y), z) == sum_by(sum, x, sum_by(sum, y, z))
}

/// Merging `b` and then `c` into `a` gives the same sums as merging into `a`
/// the sums of `b` and `c`, for a `sum` that does not depend on grouping.
pub proof fn lemma_merge_regroups<T, A: Fn(T, T) -> T>(a: Seq<T>, b: Seq<T>, c: Seq<T>, sum: A)
    requires
        a.len() == b.len(),
        b.len() == c.len(),
        is_associative(sum),
    ensures
        merged_values(merged_values(a, b, sum), c, sum) == merged_values(
            a,
            merged_values(b, c, sum),
            sum,
        ),
{
    let left = merged_values(merged_values(a, b, sum), c, sum);
    let right = merged_values(a, merged_values(b, c, sum), sum);
    assert forall|k: int| 0 <= k < a.len() implies #[trigger] left[k] == right[k] by {
        assert(sum_by(sum, sum_by(sum, a[k], b[k]), c[k]) == sum_by(
            sum,
            a[k],
            sum_by(sum, b[k], c[k]),
        ));
    }
    assert(left =~= right);
}

/// A pass on a stale buffer (count 0, as after a cancelled pass) gives each
/// pixel the same sums whatever the stale data held: the pixel starts from
/// `zero` either way, as it would on a stale buffer whose pass was never cut short.
pub proof fn lemma_stale_pass_ignores_data<T, A: Fn(T, T) -> T>(
    stale: Seq<T>,
    other: Seq<T>,
    after_stale: Seq<T>,
    after_other: Seq<T>,
    p: int,
    zero: T,
    sum: A,
    samples: Seq<(T, T, T)>,
)
    requires
        traced_pixel(stale, 0, after_stale, p, zero, sum, samples),
        traced_pixel(other, 0, after_other, p, zero, sum, samples),
    ensures
        forall|c: int| 0 <= c < 3 ==> #[trigger] after_stale[3 * p + c] == after_other[3 * p + c],
{
    assert forall|c: int| 0 <= c < 3 implies #[trigger] after_stale[3 * p + c] == after_other[3 * p
        + c] by {
        assert(start_value(stale, 0, 3 * p + c, zero) == zero);
        assert(start_value(other, 0, 3 * p + c, zero) == zero);
    }
}

/// The first `done` pixels of `after` hold what one pass made of them (see
/// `pixel_of_pass`), and every sum after them is as in `before`.
pub open spec fn passed_until<T, A: Fn(T, T) -> T, S: Fn(usize, usize) -> Vec<(T, T, T)>>(
    sample: S,
    width: int,
    before: Seq<T>,
    sample_count: nat,
    after: Seq<T>,
    zero: T,
    sum: A,
    done: int,
) -> bool {
    &&& forall|p: int|
        0 <= p < done ==> #[trigger] pixel_of_pass(
            sample,
            width,
            before,
            sample_count,
            after,
            p,
            zero,
            sum,
        )
    &&& forall|k: int| 3 * done <= k < before.len() ==> #[trigger] after[k] == before[k]
}

/// The progress message for the pixel at linear `index`.
pub open spec fn progress_at(id: usize, sample: nat, index: int) -> Progress {
    Progress { id, sample: sample as usize, index: index as usize }
}

/// `p` is a message that a pass over `pixels` pixels, on a buffer with
/// count `sample`, may send through `rep`: tagged with its id and that count,
/// for a pixel whose index is a multiple of the interval.
pub open spec fn due_message<R>(rep: Report<R>, sample: nat, pixels: nat, p: Progress) -> bool {
    &&& p.id == rep.id
    &&& p.sample == sample
    &&& p.index < pixels
    &&& p.index % rep.interval == 0
}

/// With a report, its sender was handed the message of every pixel before
/// `done` whose index is a multiple of the interval.
pub open spec fn reported_until<R: Fn(Progress)>(
    report: Option<Report<R>>,
    sample: nat,
    done: int,
) -> bool {
    match report {
        Some(rep) => forall|q: int|
            0 <= q < done && q % (rep.interval as int) == 0 ==> #[trigger] rep.sender.ensures(
                (progress_at(rep.id, sample, q),),
                (),
            ),
        None => true,
    }
}

/// Where a worker stands in its pass, as sent to the progress reporter.
#[derive(Clone, Copy, Debug, PartialEq, Eq, Structural)]
pub struct Progress {
    pub id: usize,
    pub sample: usize,
    pub index: usize,
}

/// How a pass reports progress: a message every `interval` pixels, tagged
/// with the worker's `id`, handed to `sender`.
pub struct Report<R> {
    pub id: usize,
    pub interval: usize,
    pub sender: R,
}

impl<R: Fn(Progress)> Report<R> {
    /// Whether the pixel at linear `index` is due for a progress message.
    pub fn due(&self, index: usize) -> (r: bool)
        requires
            self.interval > 0,
        ensures
            r == (index % self.interval == 0),
    {
        index % self.interval == 0
    }
}

/// Running per-pixel sums of a `width` by `height` image.
pub struct Buffer<T> {
    width: usize,
    height: usize,
    data: Vec<T>,
    sample_count: usize,
}

impl<T: Copy> Buffer<T> {
    pub closed spec fn spec_width(&self) -> nat {
        self.width as nat
    }

    pub closed spec fn spec_height(&self) -> nat {
        self.height as nat
    }

    /// Passes completed since the buffer was made or last drained.
    pub closed spec fn spec_sample_count(&self) -> nat {
        self.sample_count as nat
    }

    /// The sums, three per pixel.
    pub closed spec fn values(&self) -> Seq<T> {
        self.data@
    }

    pub open spec fn pixel_count(&self) -> nat {
        self.spec_width() * self.spec_height()
    }

    /// Three sums for each pixel, all addressable.
    pub open spec fn wf(&self) -> bool {
        &&& self.values().len() == self.pixel_count() * 3
        &&& self.pixel_count() * 3 <= usize::MAX
    }

    /// A buffer with `sample_count` 0, holding `data` when given and `zero`
    /// in every channel otherwise.
    pub fn new(width: usize, height: usize, data: Option<Vec<T>>, zero: T) -> (r: Self)
        requires
            width * height * 3 <= usize::MAX,
            data matches Some(d) ==> d@.len() == width * height * 3,
        ensures
            r.wf(),
            r.spec_width() == width,
            r.spec_height() == height,
            r.spec_sample_count() == 0,
            data matches Some(d) ==> r.values() == d@,
            data is None ==> r.values() == Seq::new((width * height * 3) as nat, |k: int| zero),
    {
        let data = match data {
            Some(d) => d,
            None => {
                let capacity = width * height * 3;
                let mut d: Vec<T> = Vec::with_capacity(capacity);
                let mut k: usize = 0;
                while k < capacity
                    invariant
                        k <= capacity,
                        d@ == Seq::new(k as nat, |i: int| zero),
                    decreases capacity - k,
                {
                    d.push(zero);
                    k = k + 1;
                    assert(d@ =~= Seq::new(k as nat, |i: int| zero));
                }
                d
            },
        };
        Buffer { width, height, data, sample_count: 0 }
    }

    pub fn sample_count(&self) -> (r: usize)
        ensures
            r == self.spec_sample_count(),
    {
        self.sample_count
    }

    pub fn width(&self) -> (r: usize)
        ensures
            r == self.spec_width(),
    {
        self.width
    }

    pub fn height(&self) -> (r: usize)
        ensures
            r == self.spec_height(),
    {
        self.height
    }

    pub fn data(&self) -> (r: &[T])
        ensures
            r@ == self.values(),
    {
        self.data.as_slice()
    }

    proof fn lemma_sizes(&self)
        requires
            self.wf(),
        ensures
            self.pixel_count() <= self.values().len(),
            self.values().len() <= usize::MAX,
            self.pixel_count() == self.width * self.height,
    {
        let n = self.width * self.height;
        assert(n <= n * 3) by (nonlinear_arith)
            requires
                n >= 0,
        ;
    }

    /// One pixel of a pass: start from `zero` when the sums are stale, then sum
    /// each of `samples` in order.
    fn trace_pixel<A: Fn(T, T) -> T>(
        &mut self,
        index: usize,
        zero: T,
        samples: &Vec<(T, T, T)>,
        sum: &A,
    )
        requires
            old(self).wf(),
            index < old(self).pixel_count(),
            is_adder(*sum),
        ensures
            final(self).spec_width() == old(self).spec_width(),
            final(self).spec_height() == old(self).spec_height(),
            final(self).spec_sample_count() == old(self).spec_sample_count(),
            final(self).values().len() == old(self).values().len(),
            traced_pixel(
                old(self).values(),
                old(self).spec_sample_count(),
                final(self).values(),
                index as int,
                zero,
                *sum,
                samples@,
            ),
            forall|k: int|
                0 <= k < old(self).values().len() && (k < 3 * index || k >= 3 * index + 3)
                    ==> #[trigger] final(self).values()[k] == old(self).values()[k],
    {
        let ghost before = self.data@;
        let base = 3 * index;
        if self.sample_count == 0 {
            self.data[base] = zero;
            self.data[base + 1] = zero;
            self.data[base + 2] = zero;
        }
        let mut l: usize = 0;
        while l < samples.len()
            invariant
                l <= samples@.len(),
                base == 3 * index,
                base + 3 <= self.data@.len(),
                base + 3 <= usize::MAX,
                self.data@.len() == before.len(),
                self.width == old(self).width,
                self.height == old(self).height,
                self.sample_count == old(self).sample_count,
                is_adder(*sum),
                forall|c: int|
                    0 <= c < 3 ==> #[trigger] self.data@[base + c] == fold_channel(
                        *sum,
                        start_value(before, self.sample_count as nat, base + c, zero),
                        samples@.take(l as int),
                        c,
                    ),
                forall|k: int|
                    0 <= k < before.len() && (k < base || k >= base + 3) ==> #[trigger] self.data@[k]
                        == before[k],
            decreases samples@.len() - l,
        {
            let s = samples[l];
            let ghost taken = samples@.take(l + 1);
            proof {
                assert(taken.drop_last() =~= samples@.take(l as int));
                assert(taken.last() == s);
            }
            let r = sum(self.data[base], s.0);
            self.data[base] = r;
            let g = sum(self.data[base + 1], s.1);
            self.data[base + 1] = g;
            let b = sum(self.data[base + 2], s.2);
            self.data[base + 2] = b;
            l = l + 1;
            proof {
                assert(self.data@[base + 0] == fold_channel(
                    *sum,
                    start_value(before, self.sample_count as nat, base + 0, zero),
                    taken,
                    0,
                ));
                assert(self.data@[base + 1] == fold_channel(
                    *sum,
                    start_value(before, self.sample_count as nat, base + 1, zero),
                    taken,
                    1,
                ));
                assert(self.data@[base + 2] == fold_channel(
                    *sum,
                    start_value(before, self.sample_count as nat, base + 2, zero),
                    taken,
                    2,
                ));
            }
        }
        assert(samples@.take(samples@.len() as int) =~= samples@);
    }

    /// One full pass over the image, row by row.
    ///
    /// For the pixel at row `i` and column `j`, `sample(i, j)` gives one sum
    /// triple per wavelength; they are added in order to the pixel's sums, or
    /// to `zero` when the sums are stale. After each pixel `cancelled()` is
    /// asked: on `true` the pass stops, the count drops to 0 (what was summed
    /// so far is stale) and `false` is returned. With a `report`, a progress
    /// message goes out before every pixel whose linear index is a multiple
    /// of its interval. A pass that runs to the end adds one to the count and
    /// returns `true`.
    pub fn trace<S, A, C, R>(
        &mut self,
        zero: T,
        sample: S,
        sum: A,
        cancelled: C,
        report: Option<Report<R>>,
    ) -> (complete: bool) where
        S: Fn(usize, usize) -> Vec<(T, T, T)>,
        A: Fn(T, T) -> T,
        C: Fn() -> bool,
        R: Fn(Progress),

        requires
            old(self).wf(),
            old(self).spec_sample_count() < usize::MAX,
            is_adder(sum),
            forall|i: usize, j: usize| #[trigger] sample.requires((i, j)),
            cancelled.requires(()),
            report matches Some(rep) ==> rep.interval > 0 && forall|p: Progress|
                due_message(rep, old(self).spec_sample_count(), old(self).pixel_count(), p)
                    ==> #[trigger] rep.sender.requires((p,)),
        ensures
            final(self).wf(),
            final(self).spec_width() == old(self).spec_width(),
            final(self).spec_height() == old(self).spec_height(),
            complete ==> {
                &&& final(self).spec_sample_count() == old(self).spec_sample_count() + 1
                &&& old(self).pixel_count() > 0 ==> cancelled.ensures((), false)
                &&& passed_until(
                    sample,
                    old(self).spec_width() as int,
                    old(self).values(),
                    old(self).spec_sample_count(),
                    final(self).values(),
                    zero,
                    sum,
                    old(self).pixel_count() as int,
                )
                &&& reported_until(
                    report,
                    old(self).spec_sample_count(),
                    old(self).pixel_count() as int,
                )
            },
            !complete ==> {
                &&& final(self).spec_sample_count() == 0
                &&& cancelled.ensures((), true)
                &&& exists|done: int|
                    1 <= done <= old(self).pixel_count() && #[trigger] passed_until(
                        sample,
                        old(self).spec_width() as int,
                        old(self).values(),
                        old(self).spec_sample_count(),
                        final(self).values(),
                        zero,
                        sum,
                        done,
                    ) && reported_until(report, old(self).spec_sample_count(), done)
            },
    {
        proof {
            self.lemma_sizes();
        }
        let ghost before = self.data@;
        let ghost count_before = self.sample_count as nat;
        let ghost w = self.width as int;
        let n = self.width * self.height;
        let mut drawn: Ghost<Seq<Vec<(T, T, T)>>> = Ghost(Seq::empty());
        let mut q: usize = 0;
        while q < n
            invariant
                q <= n,
                n == self.width * self.height,
                n == old(self).pixel_count(),
                w == self.width,
                self.width == old(self).width,
                self.height == old(self).height,
                self.sample_count == old(self).sample_count,
                count_before == old(self).sample_count,
                before == old(self).data@,
                self.data@.len() == before.len(),
                before.len() == n * 3,
                self.wf(),
                is_adder(sum),
                forall|i: usize, j: usize| #[trigger] sample.requires((i, j)),
                cancelled.requires(()),
                report matches Some(rep) ==> rep.interval > 0 && forall|p: Progress|
                    due_message(rep, count_before, n as nat, p) ==> #[trigger] rep.sender.requires(
                        (p,),
                    ),
                q > 0 ==> cancelled.ensures((), false),
                reported_until(report, count_before, q as int),
                drawn@.len() == q,
                forall|p: int|
                    0 <= p < q ==> #[trigger] sample.ensures(
                        ((p / w) as usize, (p % w) as usize),
                        drawn@[p],
                    ),
                forall|p: int|
                    0 <= p < q ==> #[trigger] traced_pixel(
                        before,
                        count_before,
                        self.data@,
                        p,
                        zero,
                        sum,
                        drawn@[p]@,
                    ),
                forall|k: int| 3 * q <= k < before.len() ==> #[trigger] self.data@[k] == before[k],
            decreases n - q,
        {
            if let Some(rep) = &report {
                if rep.due(q) {
                    let progress = Progress { id: rep.id, sample: self.sample_count, index: q };
                    assert(progress == progress_at(rep.id, count_before, q as int));
                    assert(due_message(*rep, count_before, n as nat, progress));
                    (rep.sender)(progress);
                }
            }
            proof {
                if let Some(rep) = &report {
                    assert forall|r: int|
                        0 <= r < q + 1 && r % (rep.interval as int) == 0 implies #[trigger] rep.sender.ensures(
                        (progress_at(rep.id, count_before, r),),
                        (),
                    ) by {
                        if r < q {
                            assert(reported_until(report, count_before, q as int));
                        }
                    }
                }
                assert(reported_until(report, count_before, q + 1));
            }
            let i = q / self.width;
            let j = q % self.width;
            let samples = sample(i, j);
            let ghost mid = self.data@;
            self.trace_pixel(q, zero, &samples, &sum);
            proof {
                assert forall|p: int| 0 <= p < q implies #[trigger] traced_pixel(
                    before,
                    count_before,
                    self.data@,
                    p,
                    zero,
                    sum,
                    drawn@[p]@,
                ) by {
                    assert(traced_pixel(before, count_before, mid, p, zero, sum, drawn@[p]@));
                    assert forall|c: int| 0 <= c < 3 implies #[trigger] self.data@[3 * p + c]
                        == mid[3 * p + c] by {}
                }
                assert forall|c: int| 0 <= c < 3 implies #[trigger] start_value(
                    mid,
                    count_before,
                    3 * q + c,
                    zero,
                ) == start_value(before, count_before, 3 * q + c, zero) by {
                    assert(mid[3 * q + c] == before[3 * q + c]);
                }
                drawn@ = drawn@.push(samples);
            }
            q = q + 1;
            proof {
                assert forall|p: int| 0 <= p < q implies #[trigger] pixel_of_pass(
                    sample,
                    w,
                    before,
                    count_before,
                    self.data@,
                    p,
                    zero,
                    sum,
                ) by {
                    assert(sample.ensures(((p / w) as usize, (p % w) as usize), drawn@[p]));
                    assert(traced_pixel(before, count_before, self.data@, p, zero, sum, drawn@[p]@));
                }
                assert(passed_until(sample, w, before, count_before, self.data@, zero, sum, q as int));
            }
            let stop = cancelled();
            if stop {
                self.sample_count = 0;
                proof {
                    assert(self.values() == self.data@);
                    assert(passed_until(
                        sample,
                        old(self).spec_width() as int,
                        old(self).values(),
                        old(self).spec_sample_count(),
                        self.values(),
                        zero,
                        sum,
                        q as int,
                    ));
                    assert(reported_until(report, old(self).spec_sample_count(), q as int));
                }
                return false;
            }
        }
        self.sample_count = self.sample_count + 1;
        proof {
            assert forall|p: int| 0 <= p < n implies #[trigger] pixel_of_pass(
                sample,
                w,
                before,
                count_before,
                self.data@,
                p,
                zero,
                sum,
            ) by {
                assert(sample.ensures(((p / w) as usize, (p % w) as usize), drawn@[p]));
                assert(traced_pixel(before, count_before, self.data@, p, zero, sum, drawn@[p]@));
            }
        }
        true
    }

    /// Adds the sums and count of `other` into this buffer, then drains
    /// `other`: its count drops to 0 and its sums go stale (they are left as
    /// they are). An `other` with count 0 changes neither buffer.
    pub fn merge<A: Fn(T, T) -> T>(&mut self, other: &mut Self, sum: A)
        requires
            old(self).wf(),
            old(other).wf(),
            is_adder(sum),
            old(other).spec_sample_count() > 0 ==> old(self).spec_width() == old(
                other,
            ).spec_width() && old(self).spec_height() == old(other).spec_height(),
            old(self).spec_sample_count() + old(other).spec_sample_count() <= usize::MAX,
        ensures
            old(other).spec_sample_count() == 0 ==> *final(self) == *old(self) && *final(other)
                == *old(other),
            old(other).spec_sample_count() > 0 ==> {
                &&& final(self).wf()
                &&& final(self).spec_width() == old(self).spec_width()
                &&& final(self).spec_height() == old(self).spec_height()
                &&& final(self).spec_sample_count() == old(self).spec_sample_count() + old(
                    other,
                ).spec_sample_count()
                &&& final(self).values() == merged_values(
                    old(self).values(),
                    old(other).values(),
                    sum,
                )
                &&& final(other).spec_width() == old(other).spec_width()
                &&& final(other).spec_height() == old(other).spec_height()
                &&& final(other).values() == old(other).values()
                &&& final(other).spec_sample_count() == 0
            },
    {
        if other.sample_count == 0 {
            return;
        }
        let ghost before = self.data@;
        let len = self.data.len();
        let mut k: usize = 0;
        while k < len
            invariant
                k <= len,
                len == before.len(),
                before == old(self).data@,
                other.data@.len() == len,
                self.data@.len() == len,
                self.width == old(self).width,
                self.height == old(self).height,
                self.sample_count == old(self).sample_count,
                is_adder(sum),
                forall|i: int| 0 <= i < k ==> #[trigger] self.data@[i] == sum_by(sum, before[i], other.data@[i]),
                forall|i: int| k <= i < len ==> #[trigger] self.data@[i] == before[i],
            decreases len - k,
        {
            let v = sum(self.data[k], other.data[k]);
            self.data[k] = v;
            k = k + 1;
        }
        self.sample_count = self.sample_count + other.sample_count;
        other.sample_count = 0;
        assert(self.data@ =~= merged_values(before, other.data@, sum));
    }

    /// This buffer with `other` merged into it (see `merge`).
    pub fn add<A: Fn(T, T) -> T>(self, other: Self, sum: A) -> (r: Self)
        requires
            self.wf(),
            other.wf(),
            is_adder(sum),
            other.spec_sample_count() > 0 ==> self.spec_width() == other.spec_width()
                && self.spec_height() == other.spec_height(),
            self.spec_sample_count() + other.spec_sample_count() <= usize::MAX,
        ensures
            other.spec_sample_count() == 0 ==> r == self,
            other.spec_sample_count() > 0 ==> {
                &&& r.wf()
                &&& r.spec_width() == self.spec_width()
                &&& r.spec_height() == self.spec_height()
                &&& r.spec_sample_count() == self.spec_sample_count() + other.spec_sample_count()
                &&& r.values() == merged_values(self.values(), other.values(), sum)
            },
    {
        let mut s = self;
        let mut o = other;
        s.merge(&mut o, sum);
        s
    }

    /// Writes one byte per channel into `output`, three per pixel in order,
    /// each made by `to_byte` from the channel that `source_channel` names
    /// (reversed to BGR when `reverse` is set). A buffer with count 0 has no
    /// valid sums and leaves `output` as it is.
    pub fn write<B: Fn(T) -> u8>(&self, reverse: bool, output: &mut Vec<u8>, to_byte: B)
        requires
            self.wf(),
            forall|v: T| #[trigger] to_byte.requires((v,)),
            self.spec_sample_count() > 0 ==> old(output)@.len() >= self.values().len(),
        ensures
            self.spec_sample_count() == 0 ==> final(output)@ == old(output)@,
            final(output)@.len() == old(output)@.len(),
            self.spec_sample_count() > 0 ==> forall|p: int, c: int|
                0 <= p < self.pixel_count() && 0 <= c < 3 ==> #[trigger] to_byte.ensures(
                    (self.values()[3 * p + source_channel(reverse, c)],),
                    final(output)@[3 * p + c],
                ),
            forall|k: int|
                self.values().len() <= k < old(output)@.len() ==> #[trigger] final(output)@[k]
                    == old(output)@[k],
    {
        if self.sample_count == 0 {
            return;
        }
        let n = self.width * self.height;
        let mut p: usize = 0;
        while p < n
            invariant
                p <= n,
                n == self.pixel_count(),
                self.wf(),
                self.data@.len() == n * 3,
                output@.len() == old(output)@.len(),
                output@.len() >= n * 3,
                forall|v: T| #[trigger] to_byte.requires((v,)),
                forall|q: int, c: int|
                    0 <= q < p && 0 <= c < 3 ==> #[trigger] to_byte.ensures(
                        (self.data@[3 * q + source_channel(reverse, c)],),
                        output@[3 * q + c],
                    ),
                forall|k: int| 3 * p <= k < old(output)@.len() ==> #[trigger] output@[k] == old(output)@[k],
            decreases n - p,
        {
            let base = 3 * p;
            let (first, last) = if reverse {
                (base + 2, base)
            } else {
                (base, base + 2)
            };
            let b0 = to_byte(self.data[first]);
            let b1 = to_byte(self.data[base + 1]);
            let b2 = to_byte(self.data[last]);
            output[base] = b0;
            output[base + 1] = b1;
            output[base + 2] = b2;
            p = p + 1;
        }
    }
}

} // verus!
