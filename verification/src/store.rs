//! The per-collection point store: an append-only sequence of points, all of
//! one fixed dimensionality, together with the selection step of a radius
//! query over it.

use vstd::prelude::*;

verus! {

/// A constellation contains lots of points.
///
/// Every stored point has exactly `dim` coordinates; entries are only ever
/// appended, never removed or mutated. Each coordinate is an opaque 32-bit
/// word (the bit pattern of a single-precision value); the store never
/// interprets coordinates, so a query takes the arithmetic collaborator's
/// verdicts as an argument rather than computing distances itself.
pub struct VecConstellation {
    dim: usize,
    points: Vec<Vec<u32>>,
}

/// The number of bytes one coordinate occupies.
pub const COORD_BYTES: usize = 4;

/// The pairs a radius scan emits: for each stored point whose verdict is
/// `Some(d)` — the collaborator found its squared distance `d` to lie within
/// the threshold — the pair of `d` and the point's coordinates, in store
/// order. Points with verdict `None` are passed over.
pub open spec fn selected(pts: Seq<Seq<u32>>, verdicts: Seq<Option<u32>>) -> Seq<(u32, Seq<u32>)>
    decreases pts.len(),
{
    if pts.len() == 0 || verdicts.len() == 0 {
        Seq::empty()
    } else {
        let rest = selected(pts.drop_last(), verdicts.drop_last());
        match verdicts.last() {
            Some(d) => rest.push((d, pts.last())),
            None => rest,
        }
    }
}

impl VecConstellation {
    /// The fixed dimensionality of this store.
    pub closed spec fn spec_dim(self) -> nat {
        self.dim as nat
    }

    /// The stored points, in insertion order.
    pub closed spec fn spec_points(self) -> Seq<Seq<u32>> {
        self.points.deep_view()
    }

    /// Every stored point has exactly `spec_dim()` coordinates.
    pub open spec fn wf(self) -> bool {
        forall|i: int|
            0 <= i < self.spec_points().len() ==> (#[trigger] self.spec_points()[i]).len()
                == self.spec_dim()
    }

    /// A fresh, empty store of the given dimensionality.
    pub fn new(dim: usize) -> (c: Self)
        ensures
            c.wf(),
            c.spec_dim() == dim as nat,
            c.spec_points() == Seq::<Seq<u32>>::empty(),
    {
        let c = VecConstellation { dim, points: Vec::new() };
        proof {
            assert(c.spec_points() =~= Seq::<Seq<u32>>::empty());
        }
        c
    }

    /// Appends every point of `batch` to the store, in order. The store grows
    /// by exactly `batch.len()` entries and nothing already stored changes.
    pub fn add_points(&mut self, batch: Vec<Vec<u32>>)
        requires
            old(self).wf(),
            forall|i: int|
                0 <= i < batch@.len() ==> (#[trigger] batch@[i])@.len() == old(self).spec_dim(),
        ensures
            final(self).wf(),
            final(self).spec_dim() == old(self).spec_dim(),
            final(self).spec_points() == old(self).spec_points() + batch.deep_view(),
            final(self).spec_points().len() == old(self).spec_points().len() + batch@.len(),
    {
        let mut batch = batch;
        let ghost old_points = self.points.deep_view();
        let ghost batch0 = batch@;
        let ghost appended = batch.deep_view();
        self.points.append(&mut batch);
        proof {
            assert(self.points.deep_view() =~~= old_points + appended);
            assert(old_points == old(self).spec_points());
            assert forall|i: int| 0 <= i < self.spec_points().len() implies (
            #[trigger] self.spec_points()[i]).len() == self.spec_dim() by {
                if i < old_points.len() {
                    assert(self.spec_points()[i] == old(self).spec_points()[i]);
                    assert(old(self).spec_points()[i].len() == old(self).spec_dim());
                } else {
                    let j = i - old_points.len();
                    assert(self.spec_points()[i] == appended[j]);
                    assert(appended[j] == batch0[j].deep_view());
                    assert(batch0[j].deep_view().len() == batch0[j]@.len());
                    assert(batch0[j]@.len() == old(self).spec_dim());
                }
            }
        }
    }

    /// Appends one point.
    pub fn add_point(&mut self, point: Vec<u32>)
        requires
            old(self).wf(),
            point@.len() == old(self).spec_dim(),
        ensures
            final(self).wf(),
            final(self).spec_dim() == old(self).spec_dim(),
            final(self).spec_points() == old(self).spec_points().push(point@),
    {
        let ghost old_points = self.points.deep_view();
        let ghost p = point@;
        self.points.push(point);
        proof {
            assert(self.points.deep_view() =~~= old_points.push(p));
            assert(old_points == old(self).spec_points());
            assert forall|i: int| 0 <= i < self.spec_points().len() implies (
            #[trigger] self.spec_points()[i]).len() == self.spec_dim() by {
                if i < old_points.len() {
                    assert(self.spec_points()[i] == old(self).spec_points()[i]);
                    assert(old(self).spec_points()[i].len() == old(self).spec_dim());
                } else {
                    assert(self.spec_points()[i] == p);
                }
            }
        }
    }

    /// The number of points currently stored.
    pub fn count(&self) -> (n: usize)
        ensures
            n == self.spec_points().len(),
    {
        self.points.len()
    }

    /// The fixed dimensionality of this store.
    pub fn dimensions(&self) -> (d: usize)
        ensures
            d == self.spec_dim(),
    {
        self.dim
    }

    /// Approximate byte footprint of the stored points: one point occupies
    /// `dimensions()` coordinates of `COORD_BYTES` bytes each.
    pub fn memory_size(&self) -> (n: usize)
        requires
            self.spec_points().len() * self.spec_dim() * COORD_BYTES <= usize::MAX,
        ensures
            n == self.spec_points().len() * self.spec_dim() * COORD_BYTES,
    {
        let count = self.points.len();
        proof {
            let c = count as int;
            let d = self.dim as int;
            assert(c == self.spec_points().len());
            assert(c * d <= c * d * (COORD_BYTES as int)) by (nonlinear_arith)
                requires
                    c >= 0,
                    d >= 0,
            ;
        }
        let per_point = count * self.dim;
        per_point * COORD_BYTES
    }

    /// Read access to the stored points, for the scan that a query engine
    /// runs over them.
    pub fn points(&self) -> (r: &Vec<Vec<u32>>)
        ensures
            r.deep_view() == self.spec_points(),
    {
        &self.points
    }

    /// The selection step of a radius query: `verdicts[i]` is the arithmetic
    /// collaborator's verdict for stored point `i` — `Some(d)` when the
    /// point's squared distance `d` to the query point lies within the
    /// threshold, `None` otherwise. Returns exactly the matching points, each
    /// paired with its reported distance, in store order: every match is
    /// emitted once and nothing else is.
    pub fn find_matches(&self, verdicts: &Vec<Option<u32>>) -> (r: Vec<(u32, Vec<u32>)>)
        requires
            verdicts@.len() == self.spec_points().len(),
        ensures
            r.deep_view() == selected(self.spec_points(), verdicts@),
    {
        let mut r: Vec<(u32, Vec<u32>)> = Vec::new();
        let n = self.points.len();
        let mut i: usize = 0;
        while i < n
            invariant
                i <= n,
                n == self.points@.len(),
                verdicts@.len() == self.spec_points().len(),
                r.deep_view() == selected(
                    self.spec_points().take(i as int),
                    verdicts@.take(i as int),
                ),
            decreases n - i,
        {
            let ghost r_before = r.deep_view();
            match verdicts[i] {
                Some(d) => {
                    let p = self.points[i].clone();
                    proof {
                        assert(p@ =~= self.points@[i as int]@);
                    }
                    r.push((d, p));
                    proof {
                        assert(r.deep_view() =~= r_before.push(
                            (d, self.spec_points()[i as int]),
                        ));
                    }
                },
                None => {},
            }
            proof {
                lemma_selected_step(self.spec_points(), verdicts@, i as int);
            }
            i = i + 1;
        }
        proof {
            assert(self.spec_points().take(n as int) =~= self.spec_points());
            assert(verdicts@.take(n as int) =~= verdicts@);
        }
        r
    }
}

/// Extending a scan prefix by one point adds that point's pair exactly when
/// its verdict says it matched.
proof fn lemma_selected_step(pts: Seq<Seq<u32>>, verdicts: Seq<Option<u32>>, i: int)
    requires
        0 <= i < pts.len(),
        verdicts.len() == pts.len(),
    ensures
        selected(pts.take(i + 1), verdicts.take(i + 1)) == match verdicts[i] {
            Some(d) => selected(pts.take(i), verdicts.take(i)).push((d, pts[i])),
            None => selected(pts.take(i), verdicts.take(i)),
        },
{
    assert(pts.take(i + 1).drop_last() =~= pts.take(i));
    assert(verdicts.take(i + 1).drop_last() =~= verdicts.take(i));
    assert(pts.take(i + 1).last() == pts[i]);
    assert(verdicts.take(i + 1).last() == verdicts[i]);
}

/// A scan whose every verdict is a match emits one pair per stored point:
/// a full-range query reports each stored point exactly once, with no
/// duplicates and no omissions.
pub proof fn lemma_selected_all_matches(pts: Seq<Seq<u32>>, verdicts: Seq<Option<u32>>)
    requires
        verdicts.len() == pts.len(),
        forall|i: int| 0 <= i < verdicts.len() ==> (#[trigger] verdicts[i]) is Some,
    ensures
        selected(pts, verdicts).len() == pts.len(),
        forall|i: int|
            0 <= i < pts.len() ==> (#[trigger] selected(pts, verdicts)[i]).1 == pts[i],
    decreases pts.len(),
{
    if pts.len() != 0 {
        lemma_selected_all_matches(pts.drop_last(), verdicts.drop_last());
        assert(verdicts.last() is Some);
    }
}

/// The total number of points across a sequence of batches.
pub open spec fn sum_lens(batches: Seq<Seq<Seq<u32>>>) -> nat
    decreases batches.len(),
{
    if batches.len() == 0 {
        0
    } else {
        sum_lens(batches.drop_last()) + batches.last().len()
    }
}

/// The store contents after a sequence of batch inserts has been applied,
/// one after the other, to a store that held `pts`.
pub open spec fn apply_batches(pts: Seq<Seq<u32>>, batches: Seq<Seq<Seq<u32>>>) -> Seq<Seq<u32>>
    decreases batches.len(),
{
    if batches.len() == 0 {
        pts
    } else {
        apply_batches(pts, batches.drop_last()) + batches.last()
    }
}

/// Batch inserts against one store are serialized by its writer lock into
/// some order; in whatever order they land, the store ends up holding its old
/// points plus every batch's points, so its count grows by exactly the sum of
/// the batch sizes.
pub proof fn lemma_batches_count(pts: Seq<Seq<u32>>, batches: Seq<Seq<Seq<u32>>>)
    ensures
        apply_batches(pts, batches).len() == pts.len() + sum_lens(batches),
    decreases batches.len(),
{
    if batches.len() != 0 {
        lemma_batches_count(pts, batches.drop_last());
    }
}

} // verus!
