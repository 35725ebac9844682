//! Conway's game of life: the living cells, a random seed of distinct cells
//! in a box around the origin, and the coordinates of the living cells in
//! order along each axis.
use vstd::prelude::*;
use crate::random::random_between;

verus! {

broadcast use vstd::seq_lib::group_to_multiset_ensures;

/// A cell of the plane.
#[derive(Clone, Copy, PartialEq, Eq, Structural, PartialOrd, Ord, Hash, Debug)]
pub struct Coordinate {
    pub x: i32,
    pub y: i32,
}

/// The living cells.
pub struct Life {
    pub alive_cells: Vec<Coordinate>,
}

/// `v` is in increasing order.
pub open spec fn sorted(v: Seq<i32>) -> bool {
    forall|i: int, j: int| 0 <= i <= j < v.len() ==> v[i] <= v[j]
}

/// The values of `v` in increasing order.
pub fn sort(v: &Vec<i32>) -> (r: Vec<i32>)
    ensures
        sorted(r@),
        r@.to_multiset() == v@.to_multiset(),
{
    let mut r: Vec<i32> = Vec::new();
    let mut i: usize = 0;
    while i < v.len()
        invariant
            i <= v@.len(),
            sorted(r@),
            r@.to_multiset() == v@.subrange(0, i as int).to_multiset(),
        decreases v@.len() - i,
    {
        let x = v[i];
        let mut j: usize = 0;
        while j < r.len() && r[j] <= x
            invariant
                j <= r@.len(),
                forall|k: int| 0 <= k < j ==> r@[k] <= x,
            decreases r@.len() - j,
        {
            j += 1;
        }
        let ghost before = r@;
        r.insert(j, x);
        proof {
            assert(v@.subrange(0, i as int + 1) =~= v@.subrange(0, i as int).push(x));
            assert forall|a: int, b: int| 0 <= a <= b < r@.len() implies r@[a] <= r@[b] by {
                if a < j && b < j {
                    assert(r@[a] == before[a] && r@[b] == before[b]);
                } else if a < j && b == j {
                } else if a < j {
                    assert(r@[a] == before[a] && r@[b] == before[b - 1]);
                    assert(before[a] <= before[b - 1]);
                } else if a == j && b > j {
                    assert(before[j as int] > x);
                    assert(before[j as int] <= before[b - 1]);
                } else if a > j {
                    assert(r@[a] == before[a - 1] && r@[b] == before[b - 1]);
                }
            }
        }
        i += 1;
    }
    assert(v@.subrange(0, v@.len() as int) =~= v@);
    r
}

/// The cell at place `p` of a box `h` cells high whose lowest corner is
/// (`lo_x`, `lo_y`), the places counted column by column.
pub open spec fn cell_at(lo_x: int, lo_y: int, h: int, p: int) -> Coordinate {
    Coordinate { x: (lo_x + p / h) as i32, y: (lo_y + p % h) as i32 }
}

/// Distinct places of a box are distinct cells.
proof fn lemma_cell_at_injective(lo_x: int, lo_y: int, w: int, h: int, p: int, q: int)
    requires
        1 <= h,
        0 <= p < w * h,
        0 <= q < w * h,
        i32::MIN <= lo_x,
        lo_x + w <= i32::MAX + 1,
        i32::MIN <= lo_y,
        lo_y + h <= i32::MAX + 1,
        cell_at(lo_x, lo_y, h, p) == cell_at(lo_x, lo_y, h, q),
    ensures
        p == q,
{
    assert(h * w == w * h) by (nonlinear_arith);
    vstd::arithmetic::div_mod::lemma_multiply_divide_lt(p, h, w);
    vstd::arithmetic::div_mod::lemma_multiply_divide_lt(q, h, w);
    vstd::arithmetic::div_mod::lemma_fundamental_div_mod(p, h);
    vstd::arithmetic::div_mod::lemma_fundamental_div_mod(q, h);
    assert(0 <= p / h) by (nonlinear_arith)
        requires
            0 <= p,
            1 <= h,
    ;
    assert(0 <= q / h) by (nonlinear_arith)
        requires
            0 <= q,
            1 <= h,
    ;
}

/// Distinct integers below `n` and not negative are at most `n`.
proof fn lemma_distinct_below(s: Seq<int>, n: int)
    requires
        0 <= n,
        s.no_duplicates(),
        forall|t: int| 0 <= t < s.len() ==> 0 <= #[trigger] s[t] < n,
    ensures
        s.len() <= n,
{
    s.unique_seq_to_set();
    vstd::set_lib::lemma_int_range(0, n);
    assert(s.to_set().subset_of(vstd::set_lib::set_int_range(0, n)));
    vstd::set_lib::lemma_len_subset(s.to_set(), vstd::set_lib::set_int_range(0, n));
}

/// The place in `cells` of `c`, if it is there.
fn position(cells: &Vec<Coordinate>, c: Coordinate) -> (at: Option<usize>)
    ensures
        match at {
            Some(j) => j < cells@.len() && cells@[j as int] == c,
            None => !cells@.contains(c),
        },
{
    let mut j: usize = 0;
    while j < cells.len()
        invariant
            j <= cells@.len(),
            forall|k: int| 0 <= k < j ==> cells@[k] != c,
        decreases cells@.len() - j,
    {
        if cells[j] == c {
            return Some(j);
        }
        j += 1;
    }
    None
}

/// The cells among the first `p` places of a box `h` cells high with lowest
/// corner (`lo_x`, `lo_y`), counted column by column, that `alive` does not
/// hold, in that order.
pub open spec fn free_prefix(alive: Seq<Coordinate>, lo_x: int, lo_y: int, h: int, p: nat) -> Seq<Coordinate>
    decreases p,
{
    if p == 0 {
        Seq::empty()
    } else {
        let before = free_prefix(alive, lo_x, lo_y, h, (p - 1) as nat);
        let c = cell_at(lo_x, lo_y, h, p - 1);
        if alive.contains(c) {
            before
        } else {
            before.push(c)
        }
    }
}

/// The cells of the box `w` cells wide and `h` high with lowest corner
/// (`lo_x`, `lo_y`) that `alive` does not hold, column by column.
pub open spec fn free_cells(alive: Seq<Coordinate>, lo_x: int, lo_y: int, w: int, h: int) -> Seq<Coordinate> {
    free_prefix(alive, lo_x, lo_y, h, (w * h) as nat)
}

/// The free cells among fewer places come first among those of more places.
proof fn lemma_free_prefix_grows(alive: Seq<Coordinate>, lo_x: int, lo_y: int, h: int, q: nat, r: nat)
    requires
        q <= r,
    ensures
        free_prefix(alive, lo_x, lo_y, h, q).len() <= free_prefix(alive, lo_x, lo_y, h, r).len(),
        forall|i: int|
            0 <= i < free_prefix(alive, lo_x, lo_y, h, q).len() ==> #[trigger] free_prefix(alive, lo_x, lo_y, h, r)[i]
                == free_prefix(alive, lo_x, lo_y, h, q)[i],
    decreases r,
{
    if q < r {
        lemma_free_prefix_grows(alive, lo_x, lo_y, h, q, (r - 1) as nat);
    }
}

/// Every cell of the box that `alive` does not hold is one of the box's free
/// cells, so each of them is the `k`-th free cell for some `k` that a draw
/// below the number of free cells can give.
pub proof fn lemma_every_free_cell_listed(alive: Seq<Coordinate>, lo_x: int, lo_y: int, w: int, h: int, c: Coordinate)
    requires
        1 <= h,
        1 <= w,
        lo_x <= c.x < lo_x + w,
        lo_y <= c.y < lo_y + h,
        !alive.contains(c),
    ensures
        exists|k: int| 0 <= k < free_cells(alive, lo_x, lo_y, w, h).len() && #[trigger] free_cells(alive, lo_x, lo_y, w, h)[k] == c,
{
    let col = c.x - lo_x;
    let row = c.y - lo_y;
    let p = col * h + row;
    assert(0 <= col * h <= (w - 1) * h) by (nonlinear_arith)
        requires
            0 <= col < w,
            1 <= h,
    ;
    assert((w - 1) * h + h == w * h) by (nonlinear_arith);
    vstd::arithmetic::div_mod::lemma_fundamental_div_mod_converse(p, h, col, row);
    assert(cell_at(lo_x, lo_y, h, p) == c);
    let before = free_prefix(alive, lo_x, lo_y, h, p as nat);
    assert(free_prefix(alive, lo_x, lo_y, h, (p + 1) as nat) == before.push(c));
    lemma_free_prefix_grows(alive, lo_x, lo_y, h, (p + 1) as nat, (w * h) as nat);
    assert(free_cells(alive, lo_x, lo_y, w, h)[before.len() as int] == c);
}

/// The `k`-th cell, counting from zero, of the box `w` cells wide and `h`
/// high with lowest corner (`lo_x`, `lo_y`) that `alive` does not hold,
/// counted column by column. Such a cell exists while `k` is under the
/// number of cells of the box less those alive.
pub fn kth_free_cell(alive: &Vec<Coordinate>, lo_x: i32, lo_y: i32, w: u64, h: u64, k: u64) -> (c: Coordinate)
    requires
        alive@.no_duplicates(),
        1 <= w <= 0x8000_0000,
        1 <= h <= 0x8000_0000,
        lo_x + w <= i32::MAX + 1,
        lo_y + h <= i32::MAX + 1,
        k + alive@.len() < w * h,
    ensures
        k < free_cells(alive@, lo_x as int, lo_y as int, w as int, h as int).len(),
        c == free_cells(alive@, lo_x as int, lo_y as int, w as int, h as int)[k as int],
        !alive@.contains(c),
        lo_x <= c.x < lo_x + w,
        lo_y <= c.y < lo_y + h,
{
    assert(w * h <= 0x8000_0000 * 0x8000_0000) by (nonlinear_arith)
        requires
            1 <= w <= 0x8000_0000,
            1 <= h <= 0x8000_0000,
    ;
    let area: u64 = w * h;
    let mut p: u64 = 0;
    let mut free_seen: u64 = 0;
    let ghost mut hits: Seq<int> = seq![];
    let ghost mut pos: Seq<int> = seq![];
    loop
        invariant
            alive@.no_duplicates(),
            1 <= w <= 0x8000_0000,
            1 <= h <= 0x8000_0000,
            lo_x + w <= i32::MAX + 1,
            lo_y + h <= i32::MAX + 1,
            k + alive@.len() < w * h,
            area == w * h,
            p <= area,
            free_seen <= k,
            free_seen == free_prefix(alive@, lo_x as int, lo_y as int, h as int, p as nat).len(),
            free_seen + hits.len() == p,
            hits.no_duplicates(),
            forall|t: int| 0 <= t < hits.len() ==> 0 <= #[trigger] hits[t] < alive@.len(),
            pos.len() == hits.len(),
            forall|t: int|
                0 <= t < pos.len() ==> 0 <= #[trigger] pos[t] < p && alive@[hits[t]] == cell_at(
                    lo_x as int,
                    lo_y as int,
                    h as int,
                    pos[t],
                ),
        decreases area - p,
    {
        proof {
            if p == area {
                lemma_distinct_below(hits, alive@.len() as int);
            }
        }
        assert(p < area);
        proof {
            assert(h * w == w * h) by (nonlinear_arith);
            vstd::arithmetic::div_mod::lemma_multiply_divide_lt(p as int, h as int, w as int);
        }
        let c = Coordinate { x: lo_x + (p / h) as i32, y: lo_y + (p % h) as i32 };
        assert(c == cell_at(lo_x as int, lo_y as int, h as int, p as int));
        match position(alive, c) {
            None => {
                if free_seen == k {
                    proof {
                        assert(free_prefix(alive@, lo_x as int, lo_y as int, h as int, (p + 1) as nat)
                            == free_prefix(alive@, lo_x as int, lo_y as int, h as int, p as nat).push(c));
                        lemma_free_prefix_grows(alive@, lo_x as int, lo_y as int, h as int, (p + 1) as nat, area as nat);
                    }
                    return c;
                }
                free_seen += 1;
            },
            Some(j) => {
                proof {
                    assert forall|t: int| 0 <= t < hits.len() implies hits[t] != j by {
                        if hits[t] == j {
                            lemma_cell_at_injective(
                                lo_x as int,
                                lo_y as int,
                                w as int,
                                h as int,
                                pos[t],
                                p as int,
                            );
                        }
                    }
                    hits = hits.push(j as int);
                    pos = pos.push(p as int);
                }
            },
        }
        p += 1;
    }
}

impl Life {
    /// No cell is listed twice.
    pub open spec fn wf(&self) -> bool {
        self.alive_cells@.no_duplicates()
    }

    /// The first coordinates of the living cells.
    pub open spec fn xs(&self) -> Seq<i32> {
        self.alive_cells@.map_values(|c: Coordinate| c.x)
    }

    /// The second coordinates of the living cells.
    pub open spec fn ys(&self) -> Seq<i32> {
        self.alive_cells@.map_values(|c: Coordinate| c.y)
    }

    /// The coordinates of the living cells along each axis, each list in
    /// increasing order.
    pub fn sorted_axes(&self) -> (axes: (Vec<i32>, Vec<i32>))
        ensures
            sorted(axes.0@),
            axes.0@.to_multiset() == self.xs().to_multiset(),
            sorted(axes.1@),
            axes.1@.to_multiset() == self.ys().to_multiset(),
    {
        let mut xs: Vec<i32> = Vec::new();
        let mut ys: Vec<i32> = Vec::new();
        let mut i: usize = 0;
        while i < self.alive_cells.len()
            invariant
                i <= self.alive_cells@.len(),
                xs@ == self.xs().subrange(0, i as int),
                ys@ == self.ys().subrange(0, i as int),
            decreases self.alive_cells@.len() - i,
        {
            xs.push(self.alive_cells[i].x);
            ys.push(self.alive_cells[i].y);
            i += 1;
        }
        assert(self.xs().subrange(0, i as int) =~= self.xs());
        assert(self.ys().subrange(0, i as int) =~= self.ys());
        (sort(&xs), sort(&ys))
    }

    /// The cells to toggle in the next generation; none are worked out yet.
    pub fn get_changed_state(&self) -> (changed: Vec<Coordinate>)
        ensures
            changed@.len() == 0,
    {
        Vec::new()
    }

    /// The next generation; the cells are left as they are for now.
    pub fn next(&mut self)
        ensures
            final(self).alive_cells@ == old(self).alive_cells@,
    {
    }

    /// `num_cells` distinct living cells, each drawn at random from the box
    /// `-width / 2 <= x < width / 2`, `-height / 2 <= y < height / 2`, every
    /// cell not yet alive as likely as any other. The box holds at least two
    /// columns and two rows, and enough cells.
    pub fn generate_random_life(width: i32, height: i32, num_cells: usize) -> (life: Life)
        requires
            width >= 2,
            height >= 2,
            num_cells <= (2 * (width / 2)) * (2 * (height / 2)),
        ensures
            life.wf(),
            life.alive_cells@.len() == num_cells,
            forall|i: int|
                0 <= i < life.alive_cells@.len() ==> -(width / 2) <= (#[trigger] life.alive_cells@[i]).x < width / 2
                    && -(height / 2) <= life.alive_cells@[i].y < height / 2,
    {
        let half_w = width / 2;
        let half_h = height / 2;
        let lo_x = -half_w;
        let lo_y = -half_h;
        let w = 2 * (half_w as u64);
        let h = 2 * (half_h as u64);
        assert(w * h == (2 * (width / 2)) * (2 * (height / 2)));
        let mut alive_cells: Vec<Coordinate> = Vec::new();
        let mut i: usize = 0;
        while i < num_cells
            invariant
                i <= num_cells,
                num_cells <= w * h,
                lo_x == -(width / 2),
                lo_y == -(height / 2),
                w == 2 * (width / 2),
                h == 2 * (height / 2),
                1 <= w <= 0x8000_0000,
                1 <= h <= 0x8000_0000,
                alive_cells@.len() == i,
                alive_cells@.no_duplicates(),
                forall|t: int|
                    0 <= t < alive_cells@.len() ==> -(width / 2) <= (#[trigger] alive_cells@[t]).x < width / 2
                        && -(height / 2) <= alive_cells@[t].y < height / 2,
            decreases num_cells - i,
        {
            assert(w * h <= 0x8000_0000 * 0x8000_0000) by (nonlinear_arith)
                requires
                    1 <= w <= 0x8000_0000,
                    1 <= h <= 0x8000_0000,
            ;
            let free = w * h - i as u64;
            let k = random_between(0, free as i128) as u64;
            let c = kth_free_cell(&alive_cells, lo_x, lo_y, w, h, k);
            proof {
                assert forall|s: int, t: int|
                    0 <= s < alive_cells@.push(c).len() && 0 <= t < alive_cells@.push(c).len() && s != t implies alive_cells@.push(
                    c,
                )[s] != alive_cells@.push(c)[t] by {
                    if s == i as int {
                        assert(alive_cells@.contains(alive_cells@[t]));
                    } else if t == i as int {
                        assert(alive_cells@.contains(alive_cells@[s]));
                    }
                }
            }
            alive_cells.push(c);
            i += 1;
        }
        Life { alive_cells }
    }
}

impl Default for Life {
    /// No living cells.
    fn default() -> (life: Life)
        ensures
            life.alive_cells@.len() == 0,
    {
        Life { alive_cells: Vec::new() }
    }
}

} // verus!
