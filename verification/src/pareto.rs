use vstd::prelude::*;

verus! {

/// One outcome: how much progress and how much quality.
#[derive(Clone, Copy, Debug, PartialEq, Eq, Hash, Structural)]
pub struct ParetoValue {
    pub progress: u32,
    pub quality: u32,
}

impl ParetoValue {
    pub fn new(progress: u32, quality: u32) -> (r: ParetoValue)
        ensures
            r == (ParetoValue { progress, quality }),
    {
        ParetoValue { progress, quality }
    }
}

/// `a` is at least as good as `b` in both coordinates.
pub open spec fn dominates(a: ParetoValue, b: ParetoValue) -> bool {
    a.progress >= b.progress && a.quality >= b.quality
}

/// Some point of `front` is at least as good as `v`.
#[verifier::opaque]
pub open spec fn covered(front: Seq<ParetoValue>, v: ParetoValue) -> bool {
    exists|i: int| 0 <= i < front.len() && dominates(#[trigger] front[i], v)
}

/// Every point of `low` is covered by `high`.
pub open spec fn front_covers(high: Seq<ParetoValue>, low: Seq<ParetoValue>) -> bool {
    forall|i: int| 0 <= i < low.len() ==> covered(high, #[trigger] low[i])
}

/// Progress strictly increasing, quality strictly decreasing: no point is at
/// least as good as another.
pub open spec fn is_front(front: Seq<ParetoValue>) -> bool {
    forall|i: int, j: int|
        0 <= i < j < front.len() ==> (#[trigger] front[i]).progress < (#[trigger] front[j]).progress
            && front[i].quality > front[j].quality
}

/// Progress never decreasing. This is all that a merge asks of its inputs.
pub open spec fn progress_sorted(points: Seq<ParetoValue>) -> bool {
    forall|i: int, j: int|
        0 <= i <= j < points.len() ==> (#[trigger] points[i]).progress <= (#[trigger] points[j]).progress
}

/// Every coordinate within the limits.
pub open spec fn within_limits(front: Seq<ParetoValue>, max_progress: u32, max_quality: u32) -> bool {
    forall|i: int|
        0 <= i < front.len() ==> (#[trigger] front[i]).progress <= max_progress && front[i].quality
            <= max_quality
}

/// `front` is the Pareto front of `points`: a front made of points of the set
/// that covers the whole set.
pub open spec fn is_front_of(front: Seq<ParetoValue>, points: Set<ParetoValue>) -> bool {
    &&& is_front(front)
    &&& forall|i: int| 0 <= i < front.len() ==> points.contains(#[trigger] front[i])
    &&& forall|v: ParetoValue| #[trigger] points.contains(v) ==> covered(front, v)
}

pub open spec fn min_u32(a: u32, b: u32) -> u32 {
    if a <= b {
        a
    } else {
        b
    }
}

/// `v` with each coordinate cut off at its limit.
pub open spec fn clamp(v: ParetoValue, max_progress: u32, max_quality: u32) -> ParetoValue {
    ParetoValue {
        progress: min_u32(v.progress, max_progress),
        quality: min_u32(v.quality, max_quality),
    }
}

/// `v` moved by the two amounts, then cut off at the limits.
pub open spec fn shift_clamp(
    v: ParetoValue,
    progress: u32,
    quality: u32,
    max_progress: u32,
    max_quality: u32,
) -> ParetoValue {
    ParetoValue {
        progress: if v.progress + progress >= max_progress {
            max_progress
        } else {
            (v.progress + progress) as u32
        },
        quality: if v.quality + quality >= max_quality {
            max_quality
        } else {
            (v.quality + quality) as u32
        },
    }
}

/// The points of `points`, each cut off at the limits.
pub open spec fn clamped_points(
    points: Seq<ParetoValue>,
    max_progress: u32,
    max_quality: u32,
) -> Set<ParetoValue> {
    Set::new(
        |v: ParetoValue|
            exists|i: int|
                0 <= i < points.len() && v == clamp(#[trigger] points[i], max_progress, max_quality),
    )
}

/// The points of `points`, each moved by the two amounts and cut off at the limits.
pub open spec fn shifted_points(
    points: Seq<ParetoValue>,
    progress: u32,
    quality: u32,
    max_progress: u32,
    max_quality: u32,
) -> Set<ParetoValue> {
    Set::new(
        |v: ParetoValue|
            exists|i: int|
                0 <= i < points.len() && v == shift_clamp(
                    #[trigger] points[i],
                    progress,
                    quality,
                    max_progress,
                    max_quality,
                ),
    )
}

/// The point of `front` at `i` covers `v`.
pub proof fn lemma_covered_by(front: Seq<ParetoValue>, i: int, v: ParetoValue)
    requires
        0 <= i < front.len(),
        dominates(front[i], v),
    ensures
        covered(front, v),
{
    reveal(covered);
}

/// The place of a point of `front` that covers `v`.
pub proof fn covering_index(front: Seq<ParetoValue>, v: ParetoValue) -> (i: int)
    requires
        covered(front, v),
    ensures
        0 <= i < front.len(),
        dominates(front[i], v),
{
    reveal(covered);
    choose|i: int| 0 <= i < front.len() && dominates(#[trigger] front[i], v)
}

/// Progress strictly decreasing, quality strictly increasing: a front read backwards.
spec fn is_descending_front(front: Seq<ParetoValue>) -> bool {
    forall|i: int, j: int|
        0 <= i < j < front.len() ==> (#[trigger] front[i]).progress > (#[trigger] front[j]).progress
            && front[i].quality < front[j].quality
}

/// A set has one Pareto front only.
pub proof fn lemma_front_unique(a: Seq<ParetoValue>, b: Seq<ParetoValue>, points: Set<ParetoValue>)
    requires
        is_front_of(a, points),
        is_front_of(b, points),
    ensures
        a == b,
{
    lemma_front_prefix(a, b, points, a.len() as int);
    lemma_front_prefix(b, a, points, b.len() as int);
    assert(a =~= b);
}

/// The first `n` points of `a` are the first `n` points of `b`.
proof fn lemma_front_prefix(
    a: Seq<ParetoValue>,
    b: Seq<ParetoValue>,
    points: Set<ParetoValue>,
    n: int,
)
    requires
        is_front_of(a, points),
        is_front_of(b, points),
        0 <= n <= a.len(),
    ensures
        n <= b.len(),
        forall|i: int| 0 <= i < n ==> a[i] == b[i],
    decreases n,
{
    if n > 0 {
        lemma_front_prefix(a, b, points, n - 1);
        let v = a[n - 1];
        let j = lemma_front_member(a, b, points, n - 1);
        // b[j] == a[n - 1]; the points before it in `b` are points of `a` before `v`
        if j < n - 1 {
            // b[j] == a[j] by induction, but a[j] != a[n - 1]
            assert(a[j] == b[j]);
            assert(a[j].progress < a[n - 1].progress);
        } else if j > n - 1 {
            // b[n - 1] lies before v in `b`; it is a point of `a`, at an index below n - 1
            let i = lemma_front_member(b, a, points, n - 1);
            assert(b[n - 1].progress < b[j].progress);
            if i < n - 1 {
                assert(a[i] == b[i]);
                assert(b[i].progress < b[n - 1].progress);
            } else if i > n - 1 {
                assert(a[n - 1].progress < a[i].progress);
            }
        }
    }
}

/// A point of one front of a set is a point of every front of that set.
proof fn lemma_front_member(
    a: Seq<ParetoValue>,
    b: Seq<ParetoValue>,
    points: Set<ParetoValue>,
    i: int,
) -> (j: int)
    requires
        is_front_of(a, points),
        is_front_of(b, points),
        0 <= i < a.len(),
    ensures
        0 <= j < b.len(),
        b[j] == a[i],
{
    assert(points.contains(a[i]));
    let j = covering_index(b, a[i]);
    assert(points.contains(b[j]));
    let k = covering_index(a, b[j]);
    if k < i {
        assert(a[k].progress < a[i].progress);
    } else if k > i {
        assert(a[i].quality > a[k].quality);
    }
    j
}

/// The front of a set, merged with more points, is the front of all of them.
pub proof fn lemma_front_of_union(
    merged: Seq<ParetoValue>,
    front: Seq<ParetoValue>,
    points: Set<ParetoValue>,
    more: Set<ParetoValue>,
    max_progress: u32,
    max_quality: u32,
)
    requires
        is_front_of(front, points),
        within_limits(front, max_progress, max_quality),
        is_front_of(merged, clamped_points(front, max_progress, max_quality).union(more)),
    ensures
        is_front_of(merged, points.union(more)),
{
    let mid = clamped_points(front, max_progress, max_quality).union(more);
    assert forall|i: int| 0 <= i < merged.len() implies points.union(more).contains(
        #[trigger] merged[i],
    ) by {
        assert(mid.contains(merged[i]));
        if !more.contains(merged[i]) {
            let k = choose|k: int|
                0 <= k < front.len() && merged[i] == clamp(
                    #[trigger] front[k],
                    max_progress,
                    max_quality,
                );
            assert(clamp(front[k], max_progress, max_quality) == front[k]);
        }
    }
    assert forall|v: ParetoValue| #[trigger] points.union(more).contains(v) implies covered(
        merged,
        v,
    ) by {
        if more.contains(v) {
            assert(mid.contains(v));
        } else {
            assert(points.contains(v));
            let k = covering_index(front, v);
            assert(clamp(front[k], max_progress, max_quality) == front[k]);
            assert(mid.contains(front[k]));
            let m = covering_index(merged, front[k]);
            lemma_covered_by(merged, m, v);
        }
    }
}

/// A front of points within the limits is within the limits.
pub proof fn lemma_front_within_limits(
    front: Seq<ParetoValue>,
    points: Set<ParetoValue>,
    max_progress: u32,
    max_quality: u32,
)
    requires
        is_front_of(front, points),
        forall|v: ParetoValue| #[trigger]
            points.contains(v) ==> v.progress <= max_progress && v.quality <= max_quality,
    ensures
        within_limits(front, max_progress, max_quality),
{
    assert forall|i: int| 0 <= i < front.len() implies (#[trigger] front[i]).progress
        <= max_progress && front[i].quality <= max_quality by {
        assert(points.contains(front[i]));
    }
}

/// Cuts a point off at the limits.
pub fn clamp_value(v: ParetoValue, max_progress: u32, max_quality: u32) -> (r: ParetoValue)
    ensures
        r == clamp(v, max_progress, max_quality),
{
    ParetoValue {
        progress: if v.progress <= max_progress {
            v.progress
        } else {
            max_progress
        },
        quality: if v.quality <= max_quality {
            v.quality
        } else {
            max_quality
        },
    }
}

/// Moves a point by the two amounts and cuts it off at the limits. The sums are
/// never formed where they would pass a limit, so nothing overflows.
pub fn shift_value(
    v: ParetoValue,
    progress: u32,
    quality: u32,
    max_progress: u32,
    max_quality: u32,
) -> (r: ParetoValue)
    ensures
        r == shift_clamp(v, progress, quality, max_progress, max_quality),
{
    let p = if v.progress >= max_progress || progress >= max_progress - v.progress {
        max_progress
    } else {
        v.progress + progress
    };
    let q = if v.quality >= max_quality || quality >= max_quality - v.quality {
        max_quality
    } else {
        v.quality + quality
    };
    ParetoValue { progress: p, quality: q }
}

/// The dominance-pruned union of two lists of points, each cut off at the limits
/// first. One pass from the far ends of both lists: the points come in the order
/// of falling progress, and a point stays only if it has more quality than all
/// that came before it.
pub fn merge_fronts(
    a: &Vec<ParetoValue>,
    b: &Vec<ParetoValue>,
    max_progress: u32,
    max_quality: u32,
) -> (r: Vec<ParetoValue>)
    requires
        progress_sorted(a@),
        progress_sorted(b@),
    ensures
        is_front_of(
            r@,
            clamped_points(a@, max_progress, max_quality).union(
                clamped_points(b@, max_progress, max_quality),
            ),
        ),
        within_limits(r@, max_progress, max_quality),
{
    let ghost all = clamped_points(a@, max_progress, max_quality).union(
        clamped_points(b@, max_progress, max_quality),
    );
    let mut rev: Vec<ParetoValue> = Vec::new();
    let mut i: usize = a.len();
    let mut j: usize = b.len();
    while i > 0 || j > 0
        invariant
            i <= a.len(),
            j <= b.len(),
            progress_sorted(a@),
            progress_sorted(b@),
            all == clamped_points(a@, max_progress, max_quality).union(
                clamped_points(b@, max_progress, max_quality),
            ),
            is_descending_front(rev@),
            forall|k: int| 0 <= k < rev.len() ==> all.contains(#[trigger] rev[k]),
            forall|k: int|
                i <= k < a.len() ==> covered(rev@, clamp(#[trigger] a[k], max_progress, max_quality)),
            forall|k: int|
                j <= k < b.len() ==> covered(rev@, clamp(#[trigger] b[k], max_progress, max_quality)),
            rev.len() > 0 ==> forall|k: int|
                0 <= k < i ==> min_u32((#[trigger] a[k]).progress, max_progress) <= rev[rev.len()
                    - 1].progress,
            rev.len() > 0 ==> forall|k: int|
                0 <= k < j ==> min_u32((#[trigger] b[k]).progress, max_progress) <= rev[rev.len()
                    - 1].progress,
        decreases i + j,
    {
        let take_a = if j == 0 {
            true
        } else if i == 0 {
            false
        } else {
            let pa = clamp_value(a[i - 1], max_progress, max_quality).progress;
            let pb = clamp_value(b[j - 1], max_progress, max_quality).progress;
            pa >= pb
        };
        let raw = if take_a {
            i = i - 1;
            a[i]
        } else {
            j = j - 1;
            b[j]
        };
        let c = clamp_value(raw, max_progress, max_quality);
        let n = rev.len();
        let ghost before = rev@;
        proof {
            if take_a {
                assert(clamped_points(a@, max_progress, max_quality).contains(c));
            } else {
                assert(clamped_points(b@, max_progress, max_quality).contains(c));
            }
            assert(all.contains(c));
            // every point still to come has no more progress than c
            assert forall|k: int| 0 <= k < i implies min_u32((#[trigger] a[k]).progress, max_progress)
                <= c.progress by {
                if take_a {
                    assert(a[k].progress <= a[i as int].progress);
                } else {
                    assert(a[k].progress <= a[i - 1].progress);
                }
            }
            assert forall|k: int| 0 <= k < j implies min_u32((#[trigger] b[k]).progress, max_progress)
                <= c.progress by {
                if take_a {
                    assert(b[k].progress <= b[j - 1].progress);
                } else {
                    assert(b[k].progress <= b[j as int].progress);
                }
            }
        }
        if n > 0 && c.quality <= rev[n - 1].quality {
            proof {
                lemma_covered_by(rev@, n - 1, c);
            }
        } else if n > 0 && c.progress == rev[n - 1].progress {
            rev.set(n - 1, c);
            proof {
                assert forall|v: ParetoValue| covered(before, v) implies covered(rev@, v) by {
                    let w = covering_index(before, v);
                    if w == n - 1 {
                        lemma_covered_by(rev@, n - 1, v);
                    } else {
                        lemma_covered_by(rev@, w, v);
                    }
                }
                lemma_covered_by(rev@, n - 1, c);
                assert forall|x: int, y: int| 0 <= x < y < rev.len() implies (#[trigger] rev[x]).progress
                    > (#[trigger] rev[y]).progress && rev[x].quality < rev[y].quality by {
                    assert(before[x].progress > before[n - 1].progress);
                    assert(before[x].quality < before[n - 1].quality);
                }
            }
        } else {
            rev.push(c);
            proof {
                assert forall|v: ParetoValue| covered(before, v) implies covered(rev@, v) by {
                    let w = covering_index(before, v);
                    lemma_covered_by(rev@, w, v);
                }
                lemma_covered_by(rev@, n as int, c);
                assert forall|x: int, y: int| 0 <= x < y < rev.len() implies (#[trigger] rev[x]).progress
                    > (#[trigger] rev[y]).progress && rev[x].quality < rev[y].quality by {
                    if y == n {
                        assert(before[x].progress >= before[n - 1].progress);
                        assert(before[x].quality <= before[n - 1].quality);
                    } else {
                        assert(rev[x] == before[x]);
                        assert(rev[y] == before[y]);
                    }
                }
            }
        }
    }
    let mut r: Vec<ParetoValue> = Vec::new();
    let mut k: usize = rev.len();
    while k > 0
        invariant
            k <= rev.len(),
            r.len() == rev.len() - k,
            forall|x: int| 0 <= x < r.len() ==> #[trigger] r[x] == rev[rev.len() - 1 - x],
        decreases k,
    {
        k = k - 1;
        r.push(rev[k]);
    }
    proof {
        let len = rev.len() as int;
        assert forall|x: int, y: int| 0 <= x < y < r.len() implies (#[trigger] r[x]).progress < (
        #[trigger] r[y]).progress && r[x].quality > r[y].quality by {
            assert(rev[len - 1 - y].progress > rev[len - 1 - x].progress);
        }
        assert forall|x: int| 0 <= x < r.len() implies all.contains(#[trigger] r[x]) by {
            assert(all.contains(rev[len - 1 - x]));
        }
        assert forall|v: ParetoValue| #[trigger] all.contains(v) implies covered(r@, v) by {
            if clamped_points(a@, max_progress, max_quality).contains(v) {
                let x = choose|x: int|
                    0 <= x < a.len() && v == clamp(#[trigger] a[x], max_progress, max_quality);
                assert(covered(rev@, clamp(a[x], max_progress, max_quality)));
            } else {
                let x = choose|x: int|
                    0 <= x < b.len() && v == clamp(#[trigger] b[x], max_progress, max_quality);
                assert(covered(rev@, clamp(b[x], max_progress, max_quality)));
            }
            let w = covering_index(rev@, v);
            lemma_covered_by(r@, len - 1 - w, v);
        }
        assert forall|x: int| 0 <= x < r.len() implies (#[trigger] r[x]).progress <= max_progress
            && r[x].quality <= max_quality by {
            assert(all.contains(r[x]));
            if clamped_points(a@, max_progress, max_quality).contains(r[x]) {
                let y = choose|y: int|
                    0 <= y < a.len() && r[x] == clamp(#[trigger] a[y], max_progress, max_quality);
            } else {
                let y = choose|y: int|
                    0 <= y < b.len() && r[x] == clamp(#[trigger] b[y], max_progress, max_quality);
            }
        }
    }
    r
}

/// The points of a shifted list are within the limits already.
pub proof fn lemma_shifted_points(
    points: Seq<ParetoValue>,
    progress: u32,
    quality: u32,
    max_progress: u32,
    max_quality: u32,
)
    ensures
        clamped_points(
            points.map_values(
                |v: ParetoValue| shift_clamp(v, progress, quality, max_progress, max_quality),
            ),
            max_progress,
            max_quality,
        ) == shifted_points(points, progress, quality, max_progress, max_quality),
{
    let moved = points.map_values(
        |v: ParetoValue| shift_clamp(v, progress, quality, max_progress, max_quality),
    );
    let left = clamped_points(moved, max_progress, max_quality);
    let right = shifted_points(points, progress, quality, max_progress, max_quality);
    assert forall|v: ParetoValue| left.contains(v) implies right.contains(v) by {
        let i = choose|i: int|
            0 <= i < moved.len() && v == clamp(#[trigger] moved[i], max_progress, max_quality);
        assert(v == shift_clamp(points[i], progress, quality, max_progress, max_quality));
    }
    assert forall|v: ParetoValue| right.contains(v) implies left.contains(v) by {
        let i = choose|i: int|
            0 <= i < points.len() && v == shift_clamp(
                #[trigger] points[i],
                progress,
                quality,
                max_progress,
                max_quality,
            );
        assert(v == clamp(moved[i], max_progress, max_quality));
    }
    assert(left =~= right);
}

/// A stack of lists of points, the scratch space of one worker.
///
/// Each list on it has its points in the order of rising progress; `merge`
/// replaces the two lists on top by their Pareto front.
pub struct ParetoFrontBuilder {
    fronts: Vec<Vec<ParetoValue>>,
    max_progress: u32,
    max_quality: u32,
}

impl View for ParetoFrontBuilder {
    type V = Seq<Seq<ParetoValue>>;

    closed spec fn view(&self) -> Seq<Seq<ParetoValue>> {
        Seq::new(self.fronts.len() as nat, |k: int| self.fronts[k]@)
    }
}

impl ParetoFrontBuilder {
    /// Every list on the stack has its points in the order of rising progress.
    pub closed spec fn wf(self) -> bool {
        forall|k: int| 0 <= k < self.fronts.len() ==> progress_sorted(#[trigger] self.fronts[k]@)
    }

    /// The limit at which progress is cut off.
    pub closed spec fn max_progress(self) -> u32 {
        self.max_progress
    }

    /// The limit at which quality is cut off.
    pub closed spec fn max_quality(self) -> u32 {
        self.max_quality
    }

    /// An empty stack with the two limits.
    pub fn new(max_progress: u32, max_quality: u32) -> (r: ParetoFrontBuilder)
        ensures
            r.wf(),
            r@.len() == 0,
            r.max_progress() == max_progress,
            r.max_quality() == max_quality,
    {
        ParetoFrontBuilder { fronts: Vec::new(), max_progress, max_quality }
    }

    /// Empties the stack.
    pub fn clear(&mut self)
        ensures
            final(self).wf(),
            final(self)@.len() == 0,
            final(self).max_progress() == old(self).max_progress(),
            final(self).max_quality() == old(self).max_quality(),
    {
        self.fronts.clear();
    }

    /// Pushes the front that holds the origin alone.
    pub fn push_empty(&mut self)
        requires
            old(self).wf(),
        ensures
            final(self).wf(),
            final(self)@ == old(self)@.push(seq![ParetoValue { progress: 0, quality: 0 }]),
            final(self).max_progress() == old(self).max_progress(),
            final(self).max_quality() == old(self).max_quality(),
    {
        let mut front: Vec<ParetoValue> = Vec::new();
        front.push(ParetoValue { progress: 0, quality: 0 });
        proof {
            assert(front@ =~= seq![ParetoValue { progress: 0, quality: 0 }]);
        }
        self.fronts.push(front);
        proof {
            assert(self@ =~= old(self)@.push(seq![ParetoValue { progress: 0, quality: 0 }]));
        }
    }

    /// Pushes a copy of `values`.
    pub fn push_slice(&mut self, values: &[ParetoValue])
        requires
            old(self).wf(),
            progress_sorted(values@),
        ensures
            final(self).wf(),
            final(self)@ == old(self)@.push(values@),
            final(self).max_progress() == old(self).max_progress(),
            final(self).max_quality() == old(self).max_quality(),
    {
        let mut front: Vec<ParetoValue> = Vec::new();
        let mut i: usize = 0;
        while i < values.len()
            invariant
                i <= values.len(),
                front@ == values@.subrange(0, i as int),
            decreases values.len() - i,
        {
            front.push(values[i]);
            i = i + 1;
            proof {
                assert(front@ =~= values@.subrange(0, i as int));
            }
        }
        proof {
            assert(front@ =~= values@);
        }
        self.fronts.push(front);
        proof {
            assert(self@ =~= old(self)@.push(values@));
        }
    }

    /// The list on top, if there is one.
    pub fn peek(&self) -> (r: Option<&Vec<ParetoValue>>)
        ensures
            match r {
                Some(top) => self@.len() > 0 && top@ == self@.last(),
                None => self@.len() == 0,
            },
    {
        let n = self.fronts.len();
        if n == 0 {
            None
        } else {
            Some(&self.fronts[n - 1])
        }
    }

    /// The list on top, to be changed. The stack stays well formed if the list
    /// is left with its points in the order of rising progress.
    pub fn peek_mut(&mut self) -> (top: &mut Vec<ParetoValue>)
        requires
            old(self).wf(),
            old(self)@.len() > 0,
        ensures
            top@ == old(self)@.last(),
            final(self)@ == old(self)@.drop_last().push(final(top)@),
            final(self).wf() <==> progress_sorted(final(top)@),
            final(self).max_progress() == old(self).max_progress(),
            final(self).max_quality() == old(self).max_quality(),
    {
        let n = self.fronts.len();
        &mut self.fronts[n - 1]
    }

    /// Moves every point of the list on top by the two amounts, cutting each
    /// coordinate off at its limit.
    pub fn shift_top(&mut self, progress: u32, quality: u32)
        requires
            old(self).wf(),
            old(self)@.len() > 0,
        ensures
            final(self).wf(),
            final(self)@ == old(self)@.drop_last().push(
                old(self)@.last().map_values(
                    |v: ParetoValue|
                        shift_clamp(
                            v,
                            progress,
                            quality,
                            old(self).max_progress(),
                            old(self).max_quality(),
                        ),
                ),
            ),
            final(self).max_progress() == old(self).max_progress(),
            final(self).max_quality() == old(self).max_quality(),
    {
        let max_progress = self.max_progress;
        let max_quality = self.max_quality;
        let top = self.fronts.pop().unwrap();
        let ghost moved = top@.map_values(
            |v: ParetoValue| shift_clamp(v, progress, quality, max_progress, max_quality),
        );
        let mut front: Vec<ParetoValue> = Vec::new();
        let mut i: usize = 0;
        while i < top.len()
            invariant
                i <= top.len(),
                front.len() == i,
                moved == top@.map_values(
                    |v: ParetoValue| shift_clamp(v, progress, quality, max_progress, max_quality),
                ),
                forall|k: int| 0 <= k < i ==> #[trigger] front[k] == moved[k],
            decreases top.len() - i,
        {
            front.push(shift_value(top[i], progress, quality, max_progress, max_quality));
            i = i + 1;
        }
        proof {
            assert(front@ =~= moved);
            assert forall|x: int, y: int| 0 <= x <= y < front.len() implies (#[trigger] front[x]).progress
                <= (#[trigger] front[y]).progress by {
                assert(top[x].progress <= top[y].progress);
            }
        }
        self.fronts.push(front);
        proof {
            assert(self@ =~= old(self)@.drop_last().push(moved));
        }
    }

    /// Replaces the two lists on top by the Pareto front of their points, each cut
    /// off at the limits first.
    pub fn merge(&mut self)
        requires
            old(self).wf(),
            old(self)@.len() >= 2,
        ensures
            final(self).wf(),
            final(self)@.len() == old(self)@.len() - 1,
            final(self)@.drop_last() == old(self)@.subrange(0, old(self)@.len() - 2),
            is_front_of(
                final(self)@.last(),
                clamped_points(
                    old(self)@[old(self)@.len() - 2],
                    old(self).max_progress(),
                    old(self).max_quality(),
                ).union(
                    clamped_points(
                        old(self)@.last(),
                        old(self).max_progress(),
                        old(self).max_quality(),
                    ),
                ),
            ),
            within_limits(final(self)@.last(), old(self).max_progress(), old(self).max_quality()),
            final(self).max_progress() == old(self).max_progress(),
            final(self).max_quality() == old(self).max_quality(),
    {
        let second = self.fronts.pop().unwrap();
        let first = self.fronts.pop().unwrap();
        let merged = merge_fronts(&first, &second, self.max_progress, self.max_quality);
        self.fronts.push(merged);
        proof {
            assert(self@.drop_last() =~= old(self)@.subrange(0, old(self)@.len() - 2));
        }
    }
}

} // verus!
