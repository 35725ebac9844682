//! A list of points with a fixed number of coordinates each, stored one after
//! another in a flat vector: point `n` is the run of `dimensions` values that
//! starts at `n * dimensions`. Points are read, written, removed and walked by
//! their number.
use vstd::prelude::*;
use vstd::slice::{slice_subrange, slice_to_vec};
use crate::slices::split_at_mut;

verus! {

/// A copy of the values of a slice.
pub fn clone_slice_mut<T: Copy>(s: &[T]) -> (v: Vec<T>)
    ensures
        v@ == s@,
{
    slice_to_vec(s)
}

/// Points of `dimensions` coordinates each, one after another in `points`.
pub struct PointList<T> {
    pub dimensions: usize,
    pub points: Vec<T>,
}

/// The `len` values from `start` on replaced by `part`.
pub open spec fn splice<T>(s: Seq<T>, start: int, len: int, part: Seq<T>) -> Seq<T> {
    s.subrange(0, start) + part + s.subrange(start + len, s.len() as int)
}

impl<T: Copy> PointList<T> {
    /// Where point `n` starts.
    pub open spec fn start(&self, n: int) -> int {
        n * self.dimensions
    }

    /// Point `n` lies wholly within the list.
    pub open spec fn holds(&self, n: int) -> bool {
        0 <= n && (n + 1) * self.dimensions <= self.points@.len()
    }

    /// The coordinates of point `n`.
    pub open spec fn point(&self, n: int) -> Seq<T> {
        self.points@.subrange(self.start(n), self.start(n) + self.dimensions)
    }

    /// The coordinates of point `n`.
    pub fn get(&self, n: usize) -> (p: &[T])
        requires
            self.holds(n as int),
        ensures
            p@ == self.point(n as int),
    {
        let len = self.points.len();
        proof {
            lemma_point_bounds(n as int, self.dimensions as int, len as int);
        }
        let offset = n * self.dimensions;
        slice_subrange(self.points.as_slice(), offset, offset + self.dimensions)
    }

    /// A copy of the coordinates of point `n`.
    pub fn get_clone(&self, n: usize) -> (p: Vec<T>)
        requires
            self.holds(n as int),
        ensures
            p@ == self.point(n as int),
    {
        clone_slice_mut(self.get(n))
    }

    /// Copies the coordinates of point `n` into `v`, which is as long as a point.
    pub fn get_clone_slice(&self, n: usize, v: &mut [T])
        requires
            self.holds(n as int),
            old(v)@.len() == self.dimensions,
        ensures
            final(v)@ == self.point(n as int),
    {
        let p = self.get(n);
        proof {
            lemma_point_bounds(n as int, self.dimensions as int, self.points@.len() as int);
        }
        let mut i: usize = 0;
        while i < self.dimensions
            invariant
                i <= self.dimensions,
                p@ == self.point(n as int),
                p@.len() == self.dimensions,
                v@.len() == self.dimensions,
                forall|k: int| 0 <= k < i ==> v@[k] == p@[k],
            decreases self.dimensions - i,
        {
            v[i] = p[i];
            i += 1;
        }
        assert(v@ =~= p@);
    }

    /// The coordinates of point `n`, to change in place.
    pub fn get_mut(&mut self, n: usize) -> (p: &mut [T])
        requires
            old(self).holds(n as int),
        ensures
            p@ == old(self).point(n as int),
            final(self).dimensions == old(self).dimensions,
            final(self).points@ == splice(old(self).points@, old(self).start(n as int), old(self).dimensions as int, final(p)@),
    {
        let len = self.points.len();
        proof {
            lemma_point_bounds(n as int, self.dimensions as int, len as int);
        }
        let offset = n * self.dimensions;
        let d = self.dimensions;
        let (_, rest) = self.points.as_mut_slice().split_at_mut(offset);
        let (p, _) = rest.split_at_mut(d);
        p
    }

    /// Points `n1` and `n2`, both to change in place: `None` unless the first
    /// ends before the second begins and the second lies within the list. The
    /// list is split where point `n2` starts, which lies within it.
    pub fn get_2_mut(&mut self, n1: usize, n2: usize) -> (pair: Option<(&mut [T], &mut [T])>)
        requires
            n2 * old(self).dimensions <= old(self).points@.len(),
            n1 * old(self).dimensions + old(self).dimensions <= usize::MAX,
        ensures
            ({
                let (d, o1, o2) = (old(self).dimensions as int, n1 * old(self).dimensions, n2 * old(self).dimensions);
                let before = old(self).points@;
                &&& final(self).dimensions == old(self).dimensions
                &&& (pair is Some <==> (o1 + d <= o2 && o2 + d <= before.len()))
                &&& pair matches Some((a, b)) ==> {
                    &&& a@ == before.subrange(o1, o1 + d)
                    &&& b@ == before.subrange(o2, o2 + d)
                    &&& final(self).points@ == before.subrange(0, o1) + final(a)@ + before.subrange(o1 + d, o2) + final(b)@
                        + before.subrange(o2 + d, before.len() as int)
                }
                &&& pair is None ==> final(self).points@ == before
            }),
    {
        let len = self.points.len();
        let d = self.dimensions;
        assert(n2 * d <= len);
        let offset1 = n1 * d;
        let offset2 = n2 * d;
        let (s1, s2) = split_at_mut(self.points.as_mut_slice(), offset2);
        if offset1 + d <= offset2 && d <= s2.len() {
            let (_, r1) = s1.split_at_mut(offset1);
            let (first, _) = r1.split_at_mut(d);
            let (second, _) = s2.split_at_mut(d);
            Some((first, second))
        } else {
            None
        }
    }

    /// Sets the coordinates of point `n` to `val`, which is as long as a point.
    pub fn set(&mut self, n: usize, val: &[T])
        requires
            old(self).holds(n as int),
            val@.len() == old(self).dimensions,
        ensures
            final(self).dimensions == old(self).dimensions,
            final(self).points@ == splice(old(self).points@, old(self).start(n as int), old(self).dimensions as int, val@),
    {
        let d = self.dimensions;
        proof {
            lemma_point_bounds(n as int, self.dimensions as int, self.points@.len() as int);
        }
        let p = self.get_mut(n);
        let mut i: usize = 0;
        while i < d
            invariant
                i <= d,
                val@.len() == d,
                p@.len() == d,
                forall|k: int| 0 <= k < i ==> p@[k] == val@[k],
            decreases d - i,
        {
            p[i] = val[i];
            i += 1;
        }
        assert(p@ =~= val@);
    }

    /// Removes point `n`; the points after it move up by one.
    pub fn remove(&mut self, n: usize)
        requires
            old(self).holds(n as int),
        ensures
            final(self).dimensions == old(self).dimensions,
            final(self).points@ == old(self).points@.subrange(0, old(self).start(n as int)) + old(self).points@.subrange(
                old(self).start(n as int) + old(self).dimensions,
                old(self).points@.len() as int,
            ),
    {
        let len = self.points.len();
        proof {
            lemma_point_bounds(n as int, self.dimensions as int, len as int);
        }
        let offset = n * self.dimensions;
        let ghost before = self.points@;
        let mut i: usize = 0;
        while i < self.dimensions
            invariant
                i <= self.dimensions,
                self.dimensions == old(self).dimensions,
                before == old(self).points@,
                offset == n * self.dimensions,
                offset + self.dimensions <= before.len(),
                self.points@ == before.subrange(0, offset as int) + before.subrange(
                    offset + i,
                    before.len() as int,
                ),
            decreases self.dimensions - i,
        {
            self.points.remove(offset);
            i += 1;
            assert(self.points@ =~= before.subrange(0, offset as int) + before.subrange(
                offset + i,
                before.len() as int,
            ));
        }
    }

    /// A walk over the points from the first.
    pub fn iter(&self) -> (it: PointIter<'_, T>)
        ensures
            it.dimensions == self.dimensions,
            it.offset == 0,
            it.list@ == self.points@,
    {
        PointIter { dimensions: self.dimensions, list: &self.points, offset: 0 }
    }

    /// A walk over the points from point `offset` on.
    pub fn iter_from(&self, offset: usize) -> (it: PointIter<'_, T>)
        requires
            offset * self.dimensions <= usize::MAX,
        ensures
            it.dimensions == self.dimensions,
            it.offset == offset * self.dimensions,
            it.list@ == self.points@,
    {
        PointIter { dimensions: self.dimensions, list: &self.points, offset: offset * self.dimensions }
    }

    /// A walk over the points from the first, each handed out to change in
    /// place; what is written through them is what the list holds afterwards.
    pub fn iter_mut(&mut self) -> (it: PointIterMut<'_, T>)
        ensures
            it.dimensions == old(self).dimensions,
            it.offset == 0,
            it.rest matches Some(r) && r@ == old(self).points@ && final(r)@ == final(self).points@,
            it.offset + it.rest.unwrap()@.len() <= usize::MAX,
            final(self).dimensions == old(self).dimensions,
    {
        let d = self.dimensions;
        let len = self.points.len();
        PointIterMut { dimensions: d, offset: 0, rest: Some(self.points.as_mut_slice()) }
    }

    /// A walk over the points from point `offset` on, each handed out to change
    /// in place. Where that point starts past the end, the walk is empty.
    pub fn iter_mut_from(&mut self, offset: usize) -> (it: PointIterMut<'_, T>)
        requires
            offset * old(self).dimensions <= usize::MAX,
        ensures
            ({
                let start = offset * old(self).dimensions;
                let len = old(self).points@.len() as int;
                let cut = if start <= len { start } else { len };
                &&& it.dimensions == old(self).dimensions
                &&& it.offset == start
                &&& it.rest matches Some(r) && r@ == old(self).points@.subrange(cut, len)
                    && final(self).points@ == old(self).points@.subrange(0, cut) + final(r)@
                &&& it.offset + it.rest.unwrap()@.len() <= usize::MAX
                &&& final(self).dimensions == old(self).dimensions
            }),
    {
        let d = self.dimensions;
        let start = offset * d;
        let len = self.points.len();
        let cut = if start <= len { start } else { len };
        let (_, rest) = split_at_mut(self.points.as_mut_slice(), cut);
        PointIterMut { dimensions: d, offset: start, rest: Some(rest) }
    }
}

/// A point that lies within the list starts and ends within it.
proof fn lemma_point_bounds(n: int, d: int, len: int)
    requires
        0 <= n,
        0 <= d,
        (n + 1) * d <= len,
    ensures
        0 <= n * d,
        n * d + d <= len,
{
    assert((n + 1) * d == n * d + d) by (nonlinear_arith);
    assert(0 <= n * d) by (nonlinear_arith)
        requires
            0 <= n,
            0 <= d,
    ;
}

/// Points in different places do not overlap: one ends before the other starts.
proof fn lemma_points_apart(m: int, n: int, d: int)
    requires
        0 <= m < n,
        0 <= d,
    ensures
        m * d + d <= n * d,
{
    assert(m * d + d <= n * d) by (nonlinear_arith)
        requires
            0 <= m < n,
            0 <= d,
    ;
}

/// After point `n` is set to `val`, reading point `n` gives `val`, every other
/// point reads as before, and the list keeps its length.
pub proof fn lemma_set_then_get<T: Copy>(before: PointList<T>, after: PointList<T>, n: int, val: Seq<T>)
    requires
        before.holds(n),
        val.len() == before.dimensions,
        after.dimensions == before.dimensions,
        after.points@ == splice(before.points@, before.start(n), before.dimensions as int, val),
    ensures
        after.points@.len() == before.points@.len(),
        after.point(n) == val,
        forall|m: int| #[trigger] before.holds(m) && m != n ==> after.holds(m) && after.point(m) == before.point(m),
{
    let d = before.dimensions as int;
    lemma_point_bounds(n, d, before.points@.len() as int);
    assert(after.point(n) =~= val);
    assert forall|m: int| #[trigger] before.holds(m) && m != n implies after.holds(m) && after.point(m)
        == before.point(m) by {
        lemma_point_bounds(m, d, before.points@.len() as int);
        if m < n {
            lemma_points_apart(m, n, d);
        } else {
            lemma_points_apart(n, m, d);
        }
        assert(after.point(m) =~= before.point(m));
    }
}

/// After point `n` is removed, the points before it read as before, each later
/// point reads as the one after it did, and the list is one point shorter.
pub proof fn lemma_remove_shifts<T: Copy>(before: PointList<T>, after: PointList<T>, n: int)
    requires
        before.holds(n),
        after.dimensions == before.dimensions,
        after.points@ == before.points@.subrange(0, before.start(n)) + before.points@.subrange(
            before.start(n) + before.dimensions,
            before.points@.len() as int,
        ),
    ensures
        after.points@.len() == before.points@.len() - before.dimensions,
        forall|m: int| 0 <= m < n ==> #[trigger] after.point(m) == before.point(m) && after.holds(m),
        forall|m: int| n <= m && before.holds(m + 1) ==> #[trigger] after.point(m) == before.point(m + 1) && after.holds(m),
{
    let d = before.dimensions as int;
    let len = before.points@.len() as int;
    lemma_point_bounds(n, d, len);
    assert forall|m: int| 0 <= m < n implies #[trigger] after.point(m) == before.point(m) && after.holds(m) by {
        lemma_points_apart(m, n, d);
        assert(m * d >= 0) by (nonlinear_arith)
            requires
                0 <= m,
                0 <= d,
        ;
        assert((m + 1) * d == m * d + d) by (nonlinear_arith);
        assert(after.point(m) =~= before.point(m));
    }
    assert(forall|m: int| 0 <= m < n ==> #[trigger] after.point(m) == before.point(m) && after.holds(m));
    assert forall|m: int| n <= m && before.holds(m + 1) implies #[trigger] after.point(m) == before.point(m + 1)
        && after.holds(m) by {
        lemma_point_bounds(m + 1, d, len);
        assert((m + 1) * d == m * d + d) by (nonlinear_arith);
        assert(n * d <= m * d) by (nonlinear_arith)
            requires
                n <= m,
                0 <= d,
        ;
        assert(after.point(m) =~= before.point(m + 1));
    }
}

/// Two successive calls of [`PointIterMut::next`] that both hand out a point.
/// The first call starts from `rest0` at `offset0`; it hands out `p1`, leaves
/// `rest1` and moves to `offset1`. The second does the same from there,
/// handing out `p2` and leaving `rest2` at `offset2`. Each `final_..` is what
/// the caller's writes leave in the matching slice, as `next` relates them.
/// Then the two points are the first two runs of `d` values of `rest0`, one
/// right after the other and so apart, the walk has moved two points on, and
/// what `rest0` finally holds is the first point, then the second, then what
/// is left. A walk whose offset and rest fit in a `usize`, as every walk that
/// [`PointList::iter_mut`] and [`PointList::iter_mut_from`] make does, meets
/// the precondition of both calls and stays so.
pub proof fn lemma_next_twice<T>(
    d: int,
    offset0: int,
    offset1: int,
    offset2: int,
    rest0: Seq<T>,
    p1: Seq<T>,
    rest1: Seq<T>,
    p2: Seq<T>,
    rest2: Seq<T>,
    final_rest0: Seq<T>,
    final_p1: Seq<T>,
    final_rest1: Seq<T>,
    final_p2: Seq<T>,
    final_rest2: Seq<T>,
)
    requires
        0 < rest0.len() && 0 <= d <= rest0.len(),
        p1 == rest0.subrange(0, d),
        rest1 == rest0.subrange(d, rest0.len() as int),
        offset1 == offset0 + d,
        final_rest0 == final_p1 + final_rest1,
        0 < rest1.len() && d <= rest1.len(),
        p2 == rest1.subrange(0, d),
        rest2 == rest1.subrange(d, rest1.len() as int),
        offset2 == offset1 + d,
        final_rest1 == final_p2 + final_rest2,
    ensures
        2 * d <= rest0.len(),
        p1 == rest0.subrange(0, d),
        p2 == rest0.subrange(d, 2 * d),
        rest2 == rest0.subrange(2 * d, rest0.len() as int),
        offset2 == offset0 + 2 * d,
        final_rest0 == final_p1 + final_p2 + final_rest2,
        offset0 + rest0.len() <= usize::MAX ==> offset0 + d <= usize::MAX && offset1 + d <= usize::MAX
            && offset2 + rest2.len() <= usize::MAX,
{
    assert(p2 =~= rest0.subrange(d, 2 * d));
    assert(rest2 =~= rest0.subrange(2 * d, rest0.len() as int));
    assert(final_rest0 =~= final_p1 + final_p2 + final_rest2);
}

/// A walk over the points of a list: `offset` is where the next point starts.
pub struct PointIter<'a, T> {
    pub dimensions: usize,
    pub offset: usize,
    pub list: &'a Vec<T>,
}

impl<'a, T: Copy> PointIter<'a, T> {
    /// The next point, if a whole one is left, and the walk moves past it.
    pub fn next(&mut self) -> (p: Option<&'a [T]>)
        requires
            old(self).offset < old(self).list@.len() ==> old(self).offset + old(self).dimensions <= usize::MAX,
        ensures
            final(self).dimensions == old(self).dimensions,
            final(self).list == old(self).list,
            old(self).offset < old(self).list@.len() && old(self).offset + old(self).dimensions <= old(self).list@.len()
                ==> (p matches Some(s) && s@
                == old(self).list@.subrange(old(self).offset as int, old(self).offset + old(self).dimensions)
                && final(self).offset == old(self).offset + old(self).dimensions),
            old(self).offset >= old(self).list@.len() || old(self).offset + old(self).dimensions > old(self).list@.len()
                ==> p is None && final(self).offset == old(self).offset,
    {
        if self.offset >= self.list.len() {
            return None;
        }
        if self.offset + self.dimensions > self.list.len() {
            return None;
        }
        let ret = slice_subrange(self.list.as_slice(), self.offset, self.offset + self.dimensions);
        self.offset = self.offset + self.dimensions;
        Some(ret)
    }
}

/// A walk over the points of a list that hands each out to change in place:
/// `rest` holds what is not handed out yet, and `offset` is where it starts.
pub struct PointIterMut<'a, T> {
    pub dimensions: usize,
    pub offset: usize,
    pub rest: Option<&'a mut [T]>,
}

impl<'a, T> PointIterMut<'a, T> {
    /// The next point, if a whole one is left, and the walk moves past it;
    /// what is written through the point is what the list holds there.
    pub fn next(&mut self) -> (p: Option<&'a mut [T]>)
        requires
            old(self).rest is Some,
            old(self).rest.unwrap()@.len() > 0 ==> old(self).offset + old(self).dimensions <= usize::MAX,
        ensures
            final(self).dimensions == old(self).dimensions,
            final(self).rest is Some,
            old(self).offset + old(self).rest.unwrap()@.len() <= usize::MAX ==> final(self).offset
                + final(self).rest.unwrap()@.len() <= usize::MAX,
            p is Some <==> (0 < old(self).rest.unwrap()@.len() && old(self).dimensions <= old(self).rest.unwrap()@.len()),
            p matches Some(s) ==> s@ == old(self).rest.unwrap()@.subrange(0, old(self).dimensions as int),
            p matches Some(s) ==> final(self).offset == old(self).offset + old(self).dimensions,
            p matches Some(s) ==> final(self).rest.unwrap()@ == old(self).rest.unwrap()@.subrange(
                old(self).dimensions as int,
                old(self).rest.unwrap()@.len() as int,
            ),
            p matches Some(s) ==> final(old(self).rest.unwrap())@ == final(s)@ + final(final(self).rest.unwrap())@,
            p is None ==> final(self).offset == old(self).offset,
            p is None ==> final(self).rest.unwrap()@ == old(self).rest.unwrap()@,
            p is None ==> final(final(self).rest.unwrap())@ == final(old(self).rest.unwrap())@,
    {
        let d = self.dimensions;
        match self.rest.take() {
            None => None,
            Some(r) => {
                if r.len() == 0 || d > r.len() {
                    self.rest = Some(r);
                    None
                } else {
                    let (p, tail) = split_at_mut(r, d);
                    self.rest = Some(tail);
                    self.offset = self.offset + d;
                    Some(p)
                }
            }
        }
    }
}

} // verus!
