//! Per-body position trails: a short history of where each body has been,
//! and the layout of those histories in one vertex list, one contiguous
//! range of vertices per body.
use vstd::prelude::*;

verus! {

/// Number of positions each trail keeps.
pub const TRAIL_LENGTH: usize = 25;

/// One trail vertex before it is turned into GPU data: the recorded point,
/// its place in its trail (0 is the oldest) and the length of that trail.
/// The vertex's fade is `index / len`.
pub struct TrailSample<P> {
    pub point: P,
    pub index: u32,
    pub len: u32,
}

/// A half-open range `start..end` of vertices, indices or instances.
#[derive(Debug, Clone, Copy, PartialEq, Eq, Structural)]
pub struct Span {
    pub start: u32,
    pub end: u32,
}

/// The trails of all bodies, and where each one lies in the vertex list.
pub struct TrailHistory<P> {
    /// `points[i]` holds the recent positions of body `i`, oldest first.
    pub points: Vec<Vec<P>>,
    /// `ranges[i]` is the range of the vertices of trail `i` in the vertex
    /// list.
    pub ranges: Vec<Span>,
    /// Length of the vertex list.
    pub num_vertices: u32,
}

/// A trail after `p` is recorded: `p` is appended, and the oldest point is
/// dropped when the trail would grow past `TRAIL_LENGTH`.
pub open spec fn push_capped<P>(trail: Seq<P>, p: P) -> Seq<P> {
    if trail.len() + 1 > TRAIL_LENGTH {
        trail.push(p).drop_first()
    } else {
        trail.push(p)
    }
}

/// Trail `i`, or the empty trail where there is none yet.
pub open spec fn trail_or_empty<P>(trails: Seq<Seq<P>>, i: int) -> Seq<P> {
    if i < trails.len() {
        trails[i]
    } else {
        Seq::empty()
    }
}

/// The trails after one update with `positions[i]` the new position of
/// body `i`: every body with a position records it (a new trail starts for
/// a body that had none), and the trails of the other bodies stay.
pub open spec fn updated_trails<P>(trails: Seq<Seq<P>>, positions: Seq<P>) -> Seq<Seq<P>> {
    Seq::new(
        if trails.len() >= positions.len() {
            trails.len()
        } else {
            positions.len()
        },
        |i: int|
            if i < positions.len() {
                push_capped(trail_or_empty(trails, i), positions[i])
            } else {
                trails[i]
            },
    )
}

/// Total number of points in `trails`.
pub open spec fn total_len<P>(trails: Seq<Seq<P>>) -> nat
    decreases trails.len(),
{
    if trails.len() == 0 {
        0
    } else {
        total_len(trails.drop_last()) + trails.last().len()
    }
}

/// The vertex range of trail `k`: it starts after the points of the trails
/// before it.
pub open spec fn trail_range<P>(trails: Seq<Seq<P>>, k: int) -> Span {
    Span { start: total_len(trails.take(k)) as u32, end: total_len(trails.take(k + 1)) as u32 }
}

/// The vertex ranges of all trails, in trail order.
pub open spec fn trail_ranges<P>(trails: Seq<Seq<P>>) -> Seq<Span> {
    Seq::new(trails.len(), |k: int| trail_range(trails, k))
}

/// The vertices of one trail, oldest first.
pub open spec fn samples_of<P>(trail: Seq<P>) -> Seq<TrailSample<P>> {
    Seq::new(
        trail.len(),
        |i: int| TrailSample { point: trail[i], index: i as u32, len: trail.len() as u32 },
    )
}

/// The vertex list: the vertices of each trail in turn.
pub open spec fn trail_samples<P>(trails: Seq<Seq<P>>) -> Seq<TrailSample<P>>
    decreases trails.len(),
{
    if trails.len() == 0 {
        Seq::empty()
    } else {
        trail_samples(trails.drop_last()) + samples_of(trails.last())
    }
}

impl<P> TrailHistory<P> {
    /// The trails as sequences of points.
    pub open spec fn trails(&self) -> Seq<Seq<P>> {
        self.points@.map_values(|t: Vec<P>| t@)
    }

    /// No trail is longer than `TRAIL_LENGTH`.
    pub open spec fn wf(&self) -> bool {
        forall|i: int| 0 <= i < self.points@.len() ==> #[trigger] self.points@[i]@.len() <= TRAIL_LENGTH
    }
}

proof fn lemma_total_len_take<P>(trails: Seq<Seq<P>>, k: int)
    requires
        0 <= k < trails.len(),
    ensures
        total_len(trails.take(k + 1)) == total_len(trails.take(k)) + trails[k].len(),
        total_len(trails.take(k + 1)) <= total_len(trails),
    decreases trails.len(),
{
    assert(trails.take(k + 1).drop_last() =~= trails.take(k));
    if k + 1 < trails.len() {
        lemma_total_len_take(trails.drop_last(), k);
        assert(trails.drop_last().take(k + 1) =~= trails.take(k + 1));
    } else {
        assert(trails.take(k + 1) =~= trails);
    }
}


proof fn lemma_total_len_prefix_le<P>(trails: Seq<Seq<P>>, k: int)
    requires
        0 <= k <= trails.len(),
    ensures
        total_len(trails.take(k)) <= total_len(trails),
{
    if k < trails.len() {
        lemma_total_len_take(trails, k);
    } else {
        assert(trails.take(k) =~= trails);
    }
}


proof fn lemma_samples_len<P>(trails: Seq<Seq<P>>)
    ensures
        trail_samples(trails).len() == total_len(trails),
    decreases trails.len(),
{
    if trails.len() > 0 {
        lemma_samples_len(trails.drop_last());
    }
}

impl<P: Copy> TrailHistory<P> {
    /// Empty trails for `num_bodies` bodies, with no vertices.
    pub fn new(num_bodies: usize) -> (res: Self)
        ensures
            res.trails() == Seq::new(num_bodies as nat, |i: int| Seq::<P>::empty()),
            res.ranges@ == Seq::<Span>::empty(),
            res.num_vertices == 0,
            res.wf(),
    {
        let mut points: Vec<Vec<P>> = Vec::new();
        let mut i: usize = 0;
        while i < num_bodies
            invariant
                i <= num_bodies,
                points@.len() == i,
                forall|k: int| 0 <= k < i ==> (#[trigger] points@[k])@ == Seq::<P>::empty(),
            decreases num_bodies - i,
        {
            points.push(Vec::new());
            i = i + 1;
        }
        let res = TrailHistory { points, ranges: Vec::new(), num_vertices: 0 };
        assert(res.trails() =~= Seq::new(num_bodies as nat, |i: int| Seq::<P>::empty()));
        res
    }

    /// Records `positions[i]` at the end of trail `i` for every body that
    /// has a position, starting trails for bodies that had none.
    fn record(&mut self, positions: &Vec<P>)
        ensures
            final(self).trails() == updated_trails(old(self).trails(), positions@),
            final(self).ranges == old(self).ranges,
            final(self).num_vertices == old(self).num_vertices,
    {
        let ghost old_trails = old(self).trails();
        let n = positions.len();
        let mut i: usize = 0;
        while i < n
            invariant
                n == positions@.len(),
                i <= n,
                self.ranges == old(self).ranges,
                self.num_vertices == old(self).num_vertices,
                old_trails == old(self).trails(),
                self.points@.len() == if old_trails.len() >= i { old_trails.len() } else { i as nat },
                forall|k: int|
                    0 <= k < i ==> (#[trigger] self.points@[k])@ == push_capped(
                        trail_or_empty(old_trails, k),
                        positions@[k],
                    ),
                forall|k: int|
                    i <= k < old_trails.len() ==> (#[trigger] self.points@[k])@ == old_trails[k],
            decreases n - i,
        {
            if i >= self.points.len() {
                self.points.push(Vec::new());
            }
            let ghost before = self.points@[i as int]@;
            assert(before == trail_or_empty(old_trails, i as int));
            self.points[i].push(positions[i]);
            if self.points[i].len() > TRAIL_LENGTH {
                self.points[i].remove(0);
                assert(self.points@[i as int]@ =~= before.push(positions@[i as int]).drop_first());
            }
            i = i + 1;
        }
        assert(self.trails() =~= updated_trails(old_trails, positions@));
    }

    /// Recomputes the vertex ranges and the vertex count of the current
    /// trails, and returns their vertices.
    fn layout(&mut self) -> (samples: Vec<TrailSample<P>>)
        requires
            total_len(old(self).trails()) <= u32::MAX,
        ensures
            final(self).points == old(self).points,
            final(self).ranges@ == trail_ranges(old(self).trails()),
            final(self).num_vertices == total_len(old(self).trails()),
            samples@ == trail_samples(old(self).trails()),
    {
        let ghost trails = self.trails();
        let mut samples: Vec<TrailSample<P>> = Vec::new();
        self.ranges.clear();
        let mut offset: u32 = 0;
        let n = self.points.len();
        let mut k: usize = 0;
        while k < n
            invariant
                n == self.points@.len(),
                trails == self.trails(),
                self.points == old(self).points,
                total_len(trails) <= u32::MAX,
                k <= n,
                offset == total_len(trails.take(k as int)),
                self.ranges@ == trail_ranges(trails).take(k as int),
                samples@ == trail_samples(trails.take(k as int)),
            decreases n - k,
        {
            proof {
                lemma_total_len_take(trails, k as int);
            }
            let len = self.points[k].len();
            let ghost before = samples@;
            let mut idx: usize = 0;
            while idx < len
                invariant
                    n == self.points@.len(),
                    trails == self.trails(),
                    k < n,
                    len == trails[k as int].len(),
                    len <= u32::MAX,
                    idx <= len,
                    samples@ == before + samples_of(trails[k as int]).take(idx as int),
                decreases len - idx,
            {
                let sample = TrailSample { point: self.points[k][idx], index: idx as u32, len: len as u32 };
                samples.push(sample);
                assert(samples_of(trails[k as int]).take(idx + 1) =~= samples_of(trails[k as int]).take(
                    idx as int,
                ).push(sample));
                idx = idx + 1;
            }
            let end: u32 = offset + len as u32;
            self.ranges.push(Span { start: offset, end });
            offset = end;
            proof {
                assert(trails.take(k + 1).drop_last() =~= trails.take(k as int));
                assert(samples_of(trails[k as int]).take(len as int) =~= samples_of(trails[k as int]));
                assert(trail_ranges(trails).take(k + 1) =~= trail_ranges(trails).take(k as int).push(
                    trail_range(trails, k as int),
                ));
            }
            k = k + 1;
        }
        assert(trails.take(n as int) =~= trails);
        assert(trail_ranges(trails).take(n as int) =~= trail_ranges(trails));
        self.num_vertices = offset;
        samples
    }

    /// Records `positions[i]` in trail `i` for every body that has a
    /// position, then lays the trails out in one vertex list and returns its
    /// vertices.
    pub fn update(&mut self, positions: &Vec<P>) -> (samples: Vec<TrailSample<P>>)
        requires
            total_len(updated_trails(old(self).trails(), positions@)) <= u32::MAX,
        ensures
            final(self).trails() == updated_trails(old(self).trails(), positions@),
            final(self).ranges@ == trail_ranges(final(self).trails()),
            final(self).num_vertices == total_len(final(self).trails()),
            samples@ == trail_samples(final(self).trails()),
            old(self).wf() ==> final(self).wf(),
    {
        self.record(positions);
        let samples = self.layout();
        proof {
            if old(self).wf() {
                let before = old(self).trails();
                assert forall|i: int| 0 <= i < before.len() implies #[trigger] before[i].len()
                    <= TRAIL_LENGTH by {
                    assert(old(self).points@[i]@.len() <= TRAIL_LENGTH);
                }
                lemma_update_caps_trails(before, positions@);
                assert forall|i: int| 0 <= i < self.points@.len() implies #[trigger] self.points@[i]@.len()
                    <= TRAIL_LENGTH by {
                    assert(self.trails()[i] == self.points@[i]@);
                }
            }
        }
        samples
    }

    /// The length of the vertex list that `update(positions)` would build,
    /// or `None` where it would not fit in a `u32`.
    pub fn vertex_count_after_update(&self, positions: &Vec<P>) -> (count: Option<u32>)
        ensures
            match count {
                Some(c) => c == total_len(updated_trails(self.trails(), positions@)),
                None => total_len(updated_trails(self.trails(), positions@)) > u32::MAX,
            },
    {
        let ghost next = updated_trails(self.trails(), positions@);
        let n_old = self.points.len();
        let n_pos = positions.len();
        let n = if n_old >= n_pos { n_old } else { n_pos };
        let mut total: u64 = 0;
        let mut i: usize = 0;
        while i < n
            invariant
                n_old == self.points@.len(),
                n_pos == positions@.len(),
                n == next.len(),
                next == updated_trails(self.trails(), positions@),
                i <= n,
                total == total_len(next.take(i as int)),
                total <= u32::MAX,
            decreases n - i,
        {
            let old_len: usize = if i < n_old { self.points[i].len() } else { 0 };
            let new_len: usize = if i < n_pos {
                if old_len >= TRAIL_LENGTH { old_len } else { old_len + 1 }
            } else {
                old_len
            };
            proof {
                lemma_total_len_take(next, i as int);
                assert(new_len == next[i as int].len());
            }
            if new_len as u64 > u32::MAX as u64 - total {
                proof {
                    lemma_total_len_take(next, i as int);
                    lemma_total_len_prefix_le(next, i + 1);
                }
                return None;
            }
            total = total + new_len as u64;
            i = i + 1;
        }
        assert(next.take(n as int) =~= next);
        Some(total as u32)
    }
}

proof fn lemma_samples_at<P>(trails: Seq<Seq<P>>, k: int, idx: int)
    requires
        0 <= k < trails.len(),
        0 <= idx < trails[k].len(),
    ensures
        total_len(trails.take(k)) + idx < trail_samples(trails).len(),
        trail_samples(trails)[total_len(trails.take(k)) + idx] == samples_of(trails[k])[idx],
    decreases trails.len(),
{
    let init = trails.drop_last();
    lemma_samples_len(trails);
    lemma_samples_len(init);
    lemma_total_len_take(trails, k);
    lemma_total_len_prefix_le(trails, k + 1);
    if k < trails.len() - 1 {
        lemma_samples_at(init, k, idx);
        assert(init.take(k) =~= trails.take(k));
    } else {
        assert(trails.take(k) =~= init);
    }
}

/// Every trail of at most `TRAIL_LENGTH` points stays so through an update,
/// and each body with a new position has it as the newest point of its
/// trail, after the older points it kept in their order.
pub proof fn lemma_update_caps_trails<P>(trails: Seq<Seq<P>>, positions: Seq<P>)
    requires
        forall|i: int| 0 <= i < trails.len() ==> #[trigger] trails[i].len() <= TRAIL_LENGTH,
    ensures
        forall|i: int|
            0 <= i < updated_trails(trails, positions).len() ==> #[trigger] updated_trails(
                trails,
                positions,
            )[i].len() <= TRAIL_LENGTH,
        forall|i: int|
            0 <= i < positions.len() ==> {
                let t = #[trigger] updated_trails(trails, positions)[i];
                let before = trail_or_empty(trails, i);
                &&& t.last() == positions[i]
                &&& t.drop_last() == if before.len() == TRAIL_LENGTH {
                    before.drop_first()
                } else {
                    before
                }
            },
{
    assert forall|i: int| 0 <= i < positions.len() implies {
        let t = #[trigger] updated_trails(trails, positions)[i];
        let before = trail_or_empty(trails, i);
        &&& t.last() == positions[i]
        &&& t.drop_last() == if before.len() == TRAIL_LENGTH {
            before.drop_first()
        } else {
            before
        }
    } by {
        let before = trail_or_empty(trails, i);
        if before.len() == TRAIL_LENGTH {
            assert(before.push(positions[i]).drop_first().drop_last() =~= before.drop_first());
        } else {
            assert(before.push(positions[i]).drop_last() =~= before);
        }
    }
}

/// The vertex ranges of the trails tile the vertex list in trail order:
/// the first starts at 0, each starts where the one before it ends, the
/// last ends at the vertex count, and range `k` holds exactly the vertices
/// of trail `k`, oldest point first.
pub proof fn lemma_ranges_cover_samples<P>(trails: Seq<Seq<P>>)
    requires
        total_len(trails) <= u32::MAX,
    ensures
        trail_samples(trails).len() == total_len(trails),
        trail_ranges(trails).len() == trails.len(),
        trails.len() > 0 ==> trail_ranges(trails)[0].start == 0,
        trails.len() > 0 ==> trail_ranges(trails).last().end == total_len(trails),
        forall|k: int|
            0 <= k < trails.len() - 1 ==> #[trigger] trail_ranges(trails)[k].end == trail_ranges(
                trails,
            )[k + 1].start,
        forall|k: int, idx: int|
            0 <= k < trails.len() && 0 <= idx < trails[k].len() ==> {
                &&& trail_ranges(trails)[k].start + idx < trail_ranges(trails)[k].end
                &&& #[trigger] trail_samples(trails)[trail_ranges(trails)[k].start + idx]
                    == TrailSample {
                    point: trails[k][idx],
                    index: idx as u32,
                    len: trails[k].len() as u32,
                }
            },
        forall|k: int|
            0 <= k < trails.len() ==> #[trigger] trail_ranges(trails)[k].end - trail_ranges(
                trails,
            )[k].start == trails[k].len() && trail_ranges(trails)[k].end <= total_len(trails),
{
    lemma_samples_len(trails);
    assert forall|k: int| 0 <= k < trails.len() implies #[trigger] trail_ranges(trails)[k].end
        - trail_ranges(trails)[k].start == trails[k].len() && total_len(trails.take(k + 1)) <= total_len(
        trails,
    ) by {
        lemma_total_len_take(trails, k);
        lemma_total_len_prefix_le(trails, k);
    }
    assert forall|k: int| 0 <= k < trails.len() - 1 implies #[trigger] trail_ranges(trails)[k].end
        == trail_ranges(trails)[k + 1].start by {
        lemma_total_len_take(trails, k);
        lemma_total_len_take(trails, k + 1);
    }
    if trails.len() > 0 {
        assert(trails.take(0) =~= Seq::<Seq<P>>::empty());
        assert(trails.take(trails.len() as int) =~= trails);
    }
    assert forall|k: int, idx: int| 0 <= k < trails.len() && 0 <= idx < trails[k].len() implies {
        &&& trail_ranges(trails)[k].start + idx < trail_ranges(trails)[k].end
        &&& #[trigger] trail_samples(trails)[trail_ranges(trails)[k].start + idx] == TrailSample {
            point: trails[k][idx],
            index: idx as u32,
            len: trails[k].len() as u32,
        }
    } by {
        lemma_total_len_take(trails, k);
        lemma_total_len_prefix_le(trails, k);
        lemma_samples_at(trails, k, idx);
    }
}

} // verus!
