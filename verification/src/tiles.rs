//! Partition of an image into tiles, visited in a clockwise inward spiral.
//!
//! The image is cut into `n * n` equal tiles. They are listed ring by ring,
//! starting at the top-left tile and heading right, so that the list reversed
//! starts at the centre of the image.

use vstd::prelude::*;

verus! {

/// An axis-aligned rectangle of pixels: the unit of parallel work.
#[derive(PartialEq, Eq, Structural, Debug, Copy, Clone)]
pub struct BBox {
    pub x: i32,
    pub y: i32,
    pub w: i32,
    pub h: i32,
}

impl BBox {
    pub fn new(x: i32, y: i32, w: i32, h: i32) -> (b: BBox)
        ensures
            b == (BBox { x, y, w, h }),
    {
        BBox { x, y, w, h }
    }

    /// The pixel `(px, py)` lies inside the rectangle.
    pub open spec fn contains(self, px: int, py: int) -> bool {
        &&& self.x <= px < self.x + self.w
        &&& self.y <= py < self.y + self.h
    }

    /// How many pixels the rectangle holds; none where it has no width or no
    /// height.
    pub open spec fn pixel_count(self) -> int {
        if self.w > 0 && self.h > 0 {
            self.w * self.h
        } else {
            0
        }
    }

    /// The `k`-th pixel of the rectangle, row by row from the top, each row
    /// from the left.
    pub open spec fn pixel_at(self, k: int) -> (int, int) {
        (self.x + k % (self.w as int), self.y + k / (self.w as int))
    }

    /// The pixels of the rectangle in the order in which a worker renders
    /// them: row by row from the top, each row from the left.
    pub fn pixels(&self) -> (r: Vec<(u64, u64)>)
        requires
            0 <= self.x,
            0 <= self.y,
            self.x + self.w <= i32::MAX,
            self.y + self.h <= i32::MAX,
        ensures
            r@.len() == self.pixel_count(),
            forall|k: int|
                0 <= k < r@.len() ==> (#[trigger] r@[k]).0 == self.pixel_at(k).0 && r@[k].1
                    == self.pixel_at(k).1,
    {
        let mut r: Vec<(u64, u64)> = Vec::new();
        if self.w <= 0 || self.h <= 0 {
            return r;
        }
        let ghost w = self.w as int;
        let mut j: i32 = self.y;
        while j < self.y + self.h
            invariant
                0 < self.w == w,
                0 < self.h,
                0 <= self.x,
                self.x + self.w <= i32::MAX,
                self.y + self.h <= i32::MAX,
                0 <= self.y <= j <= self.y + self.h,
                r@.len() == (j - self.y) * w,
                forall|k: int|
                    0 <= k < r@.len() ==> (#[trigger] r@[k]).0 == self.pixel_at(k).0 && r@[k].1
                        == self.pixel_at(k).1,
            decreases self.y + self.h - j,
        {
            let mut i: i32 = self.x;
            while i < self.x + self.w
                invariant
                    0 < self.w == w,
                    0 <= self.x <= i <= self.x + self.w,
                    self.x + self.w <= i32::MAX,
                    0 <= self.y <= j,
                    r@.len() == (j - self.y) * w + (i - self.x),
                    forall|k: int|
                        0 <= k < r@.len() ==> (#[trigger] r@[k]).0 == self.pixel_at(k).0 && r@[k].1
                            == self.pixel_at(k).1,
                decreases self.x + self.w - i,
            {
                proof {
                    vstd::arithmetic::div_mod::lemma_fundamental_div_mod_converse(
                        r@.len() as int,
                        w,
                        j - self.y,
                        i - self.x,
                    );
                }
                r.push((i as u64, j as u64));
                i += 1;
            }
            proof {
                assert((j - self.y) * w + w == (j + 1 - self.y) * w) by (nonlinear_arith);
            }
            j += 1;
        }
        proof {
            assert(self.h * w == w * self.h) by (nonlinear_arith);
        }
        r
    }
}

/// The cell at position `j` on the border of an `n` by `n` grid, `n >= 2`,
/// walking clockwise from the top-left corner: along the top to the right,
/// down the right side, back along the bottom, and up the left side.
pub open spec fn border_cell(n: int, j: int) -> (int, int) {
    let m = n - 1;
    if j < m {
        (j, 0)
    } else if j < 2 * m {
        (m, j - m)
    } else if j < 3 * m {
        (3 * m - j, m)
    } else {
        (0, 4 * m - j)
    }
}

/// The cell visited at step `i` of the clockwise inward spiral over an `n` by
/// `n` grid: the border first, then the spiral of the grid inside it.
pub open spec fn spiral_cell(n: int, i: int) -> (int, int)
    decreases n,
{
    if n <= 1 {
        (0, 0)
    } else if i < 4 * (n - 1) {
        border_cell(n, i)
    } else {
        let inner = spiral_cell(n - 2, i - 4 * (n - 1));
        (inner.0 + 1, inner.1 + 1)
    }
}

/// The tile that step `i` of the spiral gives for a `w` by `h` image cut
/// `n` times each way. Tiles have the size `w / n` by `h / n`, rounded down.
pub open spec fn tile(w: int, h: int, n: int, i: int) -> BBox {
    let cell = spiral_cell(n, i);
    BBox {
        x: (cell.0 * (w / n)) as i32,
        y: (cell.1 * (h / n)) as i32,
        w: (w / n) as i32,
        h: (h / n) as i32,
    }
}

/// The whole list of tiles, in spiral order.
pub open spec fn tiles(w: int, h: int, n: int) -> Seq<BBox> {
    Seq::new((n * n) as nat, |i: int| tile(w, h, n, i))
}

/// The direction in which the spiral walk is heading.
#[derive(PartialEq, Eq, Structural, Clone, Copy)]
enum Direction {
    Right,
    Down,
    Left,
    Up,
}

/// How many cells the spiral has visited before it enters ring `k` of an `n`
/// by `n` grid (ring 0 is the border).
spec fn ring_offset(n: int, k: int) -> int {
    4 * k * (n - k)
}

proof fn lemma_ring_offset(n: int, k: int)
    ensures
        ring_offset(n, 0) == 0,
        ring_offset(n, k + 1) == ring_offset(n, k) + 4 * (n - 2 * k - 1),
        ring_offset(n, k + 1) == 4 * (n - 1) + ring_offset(n - 2, k),
        ring_offset(n, k) + (n - 2 * k) * (n - 2 * k) == n * n,
{
    assert(4 * 0 * (n - 0) == 0) by (nonlinear_arith);
    assert(4 * (k + 1) * (n - (k + 1)) == 4 * k * (n - k) + 4 * (n - 2 * k - 1))
        by (nonlinear_arith);
    assert(4 * (k + 1) * (n - (k + 1)) == 4 * (n - 1) + 4 * k * (n - 2 - k))
        by (nonlinear_arith);
    assert(4 * k * (n - k) + (n - 2 * k) * (n - 2 * k) == n * n) by (nonlinear_arith);
}

/// Inside ring `k` the spiral is the spiral of the smaller grid, moved `k`
/// cells down and to the right.
proof fn lemma_peel(n: int, k: int, t: int)
    requires
        0 <= k,
        2 * k <= n,
        0 <= t,
    ensures
        spiral_cell(n, ring_offset(n, k) + t) == (
            spiral_cell(n - 2 * k, t).0 + k,
            spiral_cell(n - 2 * k, t).1 + k,
        ),
        ring_offset(n, k) >= 0,
    decreases k,
{
    if k > 0 {
        lemma_ring_offset(n, k - 1);
        lemma_peel(n - 2, k - 1, t);
        assert(ring_offset(n, k) + t - 4 * (n - 1) == ring_offset(n - 2, k - 1) + t);
    } else {
        lemma_ring_offset(n, 0);
    }
}

/// The state of the walk when it stands on position `j` of ring `k`. The last
/// cell of a ring is written as position `-1` of the next one, because the
/// walk has then already turned right.
spec fn walk_at(
    n: int,
    k: int,
    j: int,
    x: int,
    y: int,
    dir: Direction,
    limx: int,
    limy: int,
    startx: int,
    starty: int,
) -> bool {
    let m = n - 2 * k;
    &&& 0 <= k
    &&& 1 <= m
    &&& -1 <= limx <= n
    &&& -1 <= limy <= n
    &&& 0 <= startx <= n + 1
    &&& 0 <= starty <= n + 1
    &&& if j == -1 {
        &&& k >= 1
        &&& x == k - 1 && y == k && dir == Direction::Right
        &&& limx == n - 1 - k && limy == n - 1 - k && startx == k && starty == k + 1
    } else if m == 1 {
        j == 0 && x == k && y == k
    } else if m == 2 && j == 3 {
        x == k && y == k + 1
    } else if 0 <= j < m - 1 {
        &&& x == k + j && y == k && dir == Direction::Right
        &&& limx == n - 1 - k && limy == n - 1 - k && startx == k && starty == k + 1
    } else if m - 1 <= j < 2 * (m - 1) {
        &&& x == k + m - 1 && y == k + j - (m - 1) && dir == Direction::Down
        &&& limx == n - 2 - k && limy == n - 1 - k && startx == k && starty == k + 1
    } else if 2 * (m - 1) <= j < 3 * (m - 1) {
        &&& x == k + 3 * (m - 1) - j && y == k + m - 1 && dir == Direction::Left
        &&& limx == n - 2 - k && limy == n - 2 - k && startx == k && starty == k + 1
    } else if 3 * (m - 1) <= j < 4 * (m - 1) - 1 {
        &&& x == k && y == k + 4 * (m - 1) - j && dir == Direction::Up
        &&& limx == n - 2 - k && limy == n - 2 - k && startx == k + 1 && starty == k + 1
    } else {
        false
    }
}

/// A walk in the state `walk_at(n, k, j, x, y, ..)` stands on the cell that
/// the spiral visits at step `ring_offset(n, k) + j`, and that step is one of
/// the `n * n`.
proof fn lemma_walk_cell(
    n: int,
    k: int,
    j: int,
    x: int,
    y: int,
    dir: Direction,
    limx: int,
    limy: int,
    startx: int,
    starty: int,
)
    requires
        walk_at(n, k, j, x, y, dir, limx, limy, startx, starty),
    ensures
        spiral_cell(n, ring_offset(n, k) + j) == (x, y),
        0 <= ring_offset(n, k) + j < n * n,
        0 <= x < n,
        0 <= y < n,
{
    let m = n - 2 * k;
    lemma_ring_offset(n, k);
    assert(m * m >= 1) by (nonlinear_arith)
        requires
            m >= 1,
    ;
    if j == -1 {
        lemma_ring_offset(n, k - 1);
        lemma_peel(n, k - 1, 4 * (m + 1) - 1);
        assert(ring_offset(n, k - 1) + 4 * (m + 1) - 1 == ring_offset(n, k) - 1);
    } else {
        lemma_peel(n, k, j);
        if m >= 2 {
            assert(m * m >= 4 * (m - 1)) by (nonlinear_arith)
                requires
                    m >= 2,
            ;
        }
    }
}

/// Cuts a `w` by `h` image into `subdivisions * subdivisions` tiles of
/// `w / subdivisions` by `h / subdivisions` pixels and lists them in a
/// clockwise inward spiral that starts at the top-left tile heading right.
///
/// Where the image is at least `subdivisions` pixels wide and high, so that
/// no tile is empty, the tiles stand for the cells of the grid, each cell
/// exactly once. They cover the whole image only where `subdivisions`
/// divides both `w` and `h` (see `lemma_tiles_cover_image`): otherwise the
/// pixels of the remainder, at the right and at the bottom, belong to no
/// tile.
#[allow(non_snake_case)]
pub fn getBBoxesFor(w: i32, h: i32, subdivisions: i32) -> (bboxes: Vec<BBox>)
    requires
        0 <= w,
        0 <= h,
        1 <= subdivisions,
        subdivisions * subdivisions <= i32::MAX,
    ensures
        bboxes@ == tiles(w as int, h as int, subdivisions as int),
        subdivisions <= w && subdivisions <= h ==> covers_grid_once(
            w as int,
            h as int,
            subdivisions as int,
            bboxes@,
        ),
{
    let ghost n = subdivisions as int;
    proof {
        assert(n <= 46340) by (nonlinear_arith)
            requires
                1 <= n,
                n * n <= 0x7fff_ffff,
        ;
        vstd::arithmetic::div_mod::lemma_fundamental_div_mod(w as int, n);
        vstd::arithmetic::div_mod::lemma_fundamental_div_mod(h as int, n);
        vstd::arithmetic::div_mod::lemma_div_pos_is_pos(w as int, n);
        vstd::arithmetic::div_mod::lemma_div_pos_is_pos(h as int, n);
    }
    let block_w = w / subdivisions;
    let block_h = h / subdivisions;

    let mut bboxes: Vec<BBox> = Vec::new();

    let mut x: i32 = 0;
    let mut y: i32 = 0;
    let mut limx: i32 = subdivisions - 1;
    let mut limy: i32 = subdivisions - 1;
    let mut startx: i32 = 0;
    let mut starty: i32 = 1;
    let mut dir = Direction::Right;

    let total: i32 = subdivisions * subdivisions;
    let ghost mut k: int = 0;
    let ghost mut j: int = 0;
    proof {
        lemma_ring_offset(n, 0);
    }
    let mut i: i32 = 0;
    while i < total
        invariant
            n == subdivisions,
            1 <= n <= 46340,
            total == n * n,
            0 <= i <= total,
            0 <= w,
            0 <= h,
            0 <= block_w == w as int / n,
            0 <= block_h == h as int / n,
            n * block_w <= w,
            n * block_h <= h,
            bboxes@.len() == i,
            forall|t: int| 0 <= t < i ==> bboxes@[t] == tile(w as int, h as int, n, t),
            i < total ==> walk_at(
                n,
                k,
                j,
                x as int,
                y as int,
                dir,
                limx as int,
                limy as int,
                startx as int,
                starty as int,
            ) && i == ring_offset(n, k) + j,
        decreases total - i,
    {
        proof {
            lemma_walk_cell(
                n,
                k,
                j,
                x as int,
                y as int,
                dir,
                limx as int,
                limy as int,
                startx as int,
                starty as int,
            );
            assert(0 <= x * block_w <= n * block_w) by (nonlinear_arith)
                requires
                    0 <= x < n,
                    0 <= block_w,
            ;
            assert(0 <= y * block_h <= n * block_h) by (nonlinear_arith)
                requires
                    0 <= y < n,
                    0 <= block_h,
            ;
        }
        bboxes.push(BBox { x: x * block_w, y: y * block_h, w: block_w, h: block_h });

        match dir {
            Direction::Right => {
                x += 1;
            },
            Direction::Down => {
                y += 1;
            },
            Direction::Left => {
                x -= 1;
            },
            Direction::Up => {
                y -= 1;
            },
        }

        match dir {
            Direction::Right => {
                if x == limx {
                    dir = Direction::Down;
                    limx -= 1;
                }
            },
            Direction::Down => {
                if y == limy {
                    dir = Direction::Left;
                    limy -= 1;
                }
            },
            Direction::Left => {
                if x == startx {
                    dir = Direction::Up;
                    startx += 1;
                }
            },
            Direction::Up => {
                if y == starty {
                    dir = Direction::Right;
                    starty += 1;
                }
            },
        }

        proof {
            let m = n - 2 * k;
            lemma_ring_offset(n, k);
            if j == -1 {
                j = 0;
            } else if m == 1 || (m == 2 && j == 3) {
                assert(m * m == (if m == 1 { 1int } else { 4int })) by (nonlinear_arith)
                    requires
                        m == 1 || m == 2,
                ;
                assert(i + 1 == total);
            } else if m >= 3 && j == 4 * (m - 1) - 2 {
                k = k + 1;
                j = -1;
            } else {
                j = j + 1;
            }
        }
        i += 1;
    }
    assert(bboxes@ =~= tiles(w as int, h as int, n));
    proof {
        if subdivisions <= w && subdivisions <= h {
            lemma_tiles_are_permutation(w as int, h as int, n);
        }
    }
    bboxes
}

/// The position on the border at which `border_cell` gives `(x, y)`.
pub open spec fn border_index(n: int, x: int, y: int) -> int {
    let m = n - 1;
    if y == 0 && x < m {
        x
    } else if x == m && y < m {
        m + y
    } else if y == m && x > 0 {
        3 * m - x
    } else {
        4 * m - y
    }
}

/// The step at which the spiral over an `n` by `n` grid visits `(x, y)`.
pub open spec fn spiral_index(n: int, x: int, y: int) -> int
    decreases n,
{
    if n <= 1 {
        0
    } else if x == 0 || y == 0 || x == n - 1 || y == n - 1 {
        border_index(n, x, y)
    } else {
        4 * (n - 1) + spiral_index(n - 2, x - 1, y - 1)
    }
}

proof fn lemma_square_step(n: int)
    ensures
        n * n == 4 * (n - 1) + (n - 2) * (n - 2),
{
    assert(n * n == 4 * (n - 1) + (n - 2) * (n - 2)) by (nonlinear_arith);
}

/// Every step of the spiral stays on the grid, and `spiral_index` finds the
/// step again from the cell.
pub proof fn lemma_spiral_index_of_cell(n: int, i: int)
    requires
        0 <= n,
        0 <= i < n * n,
    ensures
        0 <= spiral_cell(n, i).0 < n,
        0 <= spiral_cell(n, i).1 < n,
        spiral_index(n, spiral_cell(n, i).0, spiral_cell(n, i).1) == i,
    decreases n,
{
    if n == 0 {
        assert(n * n == 0) by (nonlinear_arith)
            requires
                n == 0,
        ;
    } else if n == 1 {
        assert(n * n == 1) by (nonlinear_arith)
            requires
                n == 1,
        ;
    } else if i < 4 * (n - 1) {
    } else {
        lemma_square_step(n);
        lemma_spiral_index_of_cell(n - 2, i - 4 * (n - 1));
    }
}

/// Every cell of the grid is visited: `spiral_index` names a step, and the
/// spiral stands on the cell at that step.
pub proof fn lemma_spiral_cell_of_index(n: int, x: int, y: int)
    requires
        0 <= x < n,
        0 <= y < n,
    ensures
        0 <= spiral_index(n, x, y) < n * n,
        spiral_cell(n, spiral_index(n, x, y)) == (x, y),
    decreases n,
{
    lemma_square_step(n);
    if n == 1 {
        assert(n * n == 1) by (nonlinear_arith)
            requires
                n == 1,
        ;
    } else if x == 0 || y == 0 || x == n - 1 || y == n - 1 {
        assert((n - 2) * (n - 2) >= 0) by (nonlinear_arith);
    } else {
        lemma_spiral_cell_of_index(n - 2, x - 1, y - 1);
    }
}

/// The spiral is a one-to-one walk over the grid: its `n * n` steps visit
/// cells of the grid, no two steps visit the same cell, and no cell is left
/// out.
pub proof fn lemma_spiral_is_permutation(n: int)
    requires
        0 <= n,
    ensures
        forall|i: int|
            0 <= i < n * n ==> 0 <= (#[trigger] spiral_cell(n, i)).0 < n && 0 <= spiral_cell(
                n,
                i,
            ).1 < n,
        forall|i: int, j: int|
            0 <= i < n * n && 0 <= j < n * n && #[trigger] spiral_cell(n, i) == #[trigger] spiral_cell(n, j)
                ==> i == j,
        forall|x: int, y: int|
            0 <= x < n && 0 <= y < n ==> 0 <= #[trigger] spiral_index(n, x, y) < n * n
                && spiral_cell(n, spiral_index(n, x, y)) == (x, y),
{
    assert forall|i: int| 0 <= i < n * n implies 0 <= (#[trigger] spiral_cell(n, i)).0 < n && 0
        <= spiral_cell(n, i).1 < n by {
        lemma_spiral_index_of_cell(n, i);
    }
    assert forall|i: int, j: int|
        0 <= i < n * n && 0 <= j < n * n && #[trigger] spiral_cell(n, i) == #[trigger] spiral_cell(n, j)
        implies i == j by {
        lemma_spiral_index_of_cell(n, i);
        lemma_spiral_index_of_cell(n, j);
    }
    assert forall|x: int, y: int| 0 <= x < n && 0 <= y < n implies 0 <= #[trigger] spiral_index(
        n,
        x,
        y,
    ) < n * n && spiral_cell(n, spiral_index(n, x, y)) == (x, y) by {
        lemma_spiral_cell_of_index(n, x, y);
    }
}

/// The grid cell that a tile of a `w` by `h` image cut `n` times each way
/// stands for: its corner, counted in tiles.
pub open spec fn grid_cell(w: int, h: int, n: int, b: BBox) -> (int, int) {
    (b.x as int / (w / n), b.y as int / (h / n))
}

/// A tile's corner is its cell times the tile size, and the cell can be read
/// back from it wherever the tiles are not empty.
proof fn lemma_tile_corner(w: int, h: int, n: int, i: int)
    requires
        1 <= n,
        0 <= w <= i32::MAX,
        0 <= h <= i32::MAX,
        0 <= i < n * n,
    ensures
        tile(w, h, n, i).x == spiral_cell(n, i).0 * (w / n),
        tile(w, h, n, i).y == spiral_cell(n, i).1 * (h / n),
        tile(w, h, n, i).w == w / n,
        tile(w, h, n, i).h == h / n,
        0 <= w / n,
        0 <= h / n,
        n * (w / n) <= w,
        n * (h / n) <= h,
        n <= w ==> grid_cell(w, h, n, tile(w, h, n, i)).0 == spiral_cell(n, i).0,
        n <= h ==> grid_cell(w, h, n, tile(w, h, n, i)).1 == spiral_cell(n, i).1,
        n <= w ==> tile(w, h, n, i).x as int % (w / n) == 0,
        n <= h ==> tile(w, h, n, i).y as int % (h / n) == 0,
{
    let c = spiral_cell(n, i);
    let bw = w / n;
    let bh = h / n;
    lemma_spiral_index_of_cell(n, i);
    vstd::arithmetic::div_mod::lemma_fundamental_div_mod(w, n);
    vstd::arithmetic::div_mod::lemma_fundamental_div_mod(h, n);
    vstd::arithmetic::div_mod::lemma_mod_pos_bound(w, n);
    vstd::arithmetic::div_mod::lemma_mod_pos_bound(h, n);
    vstd::arithmetic::div_mod::lemma_div_pos_is_pos(w, n);
    vstd::arithmetic::div_mod::lemma_div_pos_is_pos(h, n);
    assert(0 <= c.0 * bw <= n * bw) by (nonlinear_arith)
        requires
            0 <= c.0 < n,
            0 <= bw,
    ;
    assert(0 <= c.1 * bh <= n * bh) by (nonlinear_arith)
        requires
            0 <= c.1 < n,
            0 <= bh,
    ;
    if n <= w {
        assert(bw >= 1) by (nonlinear_arith)
            requires
                w == n * bw + w % n,
                w % n < n,
                n <= w,
                1 <= n,
        ;
        vstd::arithmetic::div_mod::lemma_div_multiples_vanish_fancy(c.0, 0, bw);
        vstd::arithmetic::div_mod::lemma_mod_multiples_basic(c.0, bw);
        assert(bw * c.0 == c.0 * bw) by (nonlinear_arith);
    }
    if n <= h {
        assert(bh >= 1) by (nonlinear_arith)
            requires
                h == n * bh + h % n,
                h % n < n,
                n <= h,
                1 <= n,
        ;
        vstd::arithmetic::div_mod::lemma_div_multiples_vanish_fancy(c.1, 0, bh);
        vstd::arithmetic::div_mod::lemma_mod_multiples_basic(c.1, bh);
        assert(bh * c.1 == c.1 * bh) by (nonlinear_arith);
    }
}

/// One of the tiles `s` stands for the cell `(x, y)` of the grid.
pub open spec fn has_tile(w: int, h: int, n: int, s: Seq<BBox>, x: int, y: int) -> bool {
    exists|i: int| 0 <= i < s.len() && #[trigger] grid_cell(w, h, n, s[i]) == (x, y)
}

/// The tiles `s` of a `w` by `h` image stand for the cells of the `n` by `n`
/// grid, each cell exactly once: there are `n * n` of them, each has its
/// corner at a multiple of the tile size and its cell on the grid, no two
/// share a cell, and every cell has its tile.
pub open spec fn covers_grid_once(w: int, h: int, n: int, s: Seq<BBox>) -> bool {
    &&& s.len() == n * n
    &&& forall|i: int|
        0 <= i < s.len() ==> {
            let c = grid_cell(w, h, n, #[trigger] s[i]);
            &&& 0 <= c.0 < n
            &&& 0 <= c.1 < n
            &&& s[i].x as int % (w / n) == 0
            &&& s[i].y as int % (h / n) == 0
        }
    &&& forall|i: int, j: int|
        0 <= i < s.len() && 0 <= j < s.len() && grid_cell(w, h, n, #[trigger] s[i]) == grid_cell(
            w,
            h,
            n,
            #[trigger] s[j],
        ) ==> i == j
    &&& forall|x: int, y: int| 0 <= x < n && 0 <= y < n ==> #[trigger] has_tile(w, h, n, s, x, y)
}

/// The tiles of an image that is at least `n` pixels wide and high stand for
/// the cells of the `n` by `n` grid, each cell exactly once: there are
/// `n * n` of them, each tile's cell is on the grid, no two tiles share a
/// cell, and every cell has its tile.
pub proof fn lemma_tiles_are_permutation(w: int, h: int, n: int)
    requires
        1 <= n,
        n <= w <= i32::MAX,
        n <= h <= i32::MAX,
    ensures
        covers_grid_once(w, h, n, tiles(w, h, n)),
        tiles(w, h, n).len() == n * n,
        forall|i: int|
            0 <= i < n * n ==> grid_cell(w, h, n, #[trigger] tiles(w, h, n)[i]) == spiral_cell(
                n,
                i,
            ),
        forall|i: int|
            0 <= i < n * n ==> {
                let c = grid_cell(w, h, n, #[trigger] tiles(w, h, n)[i]);
                0 <= c.0 < n && 0 <= c.1 < n
            },
        forall|i: int, j: int|
            0 <= i < n * n && 0 <= j < n * n && grid_cell(w, h, n, #[trigger] tiles(w, h, n)[i])
                == grid_cell(w, h, n, #[trigger] tiles(w, h, n)[j]) ==> i == j,
        forall|x: int, y: int|
            0 <= x < n && 0 <= y < n ==> 0 <= #[trigger] spiral_index(n, x, y) < n * n
                && grid_cell(w, h, n, tiles(w, h, n)[spiral_index(n, x, y)]) == (x, y),
{
    assert(n * n >= 0) by (nonlinear_arith);
    lemma_spiral_is_permutation(n);
    let s = tiles(w, h, n);
    assert forall|i: int| 0 <= i < n * n implies grid_cell(w, h, n, #[trigger] s[i])
        == spiral_cell(n, i) && s[i].x as int % (w / n) == 0 && s[i].y as int % (h / n) == 0 by {
        lemma_tile_corner(w, h, n, i);
    }
    assert forall|x: int, y: int| 0 <= x < n && 0 <= y < n implies #[trigger] has_tile(
        w,
        h,
        n,
        s,
        x,
        y,
    ) by {
        let at = spiral_index(n, x, y);
        assert(0 <= at < n * n && spiral_cell(n, at) == (x, y));
        assert(grid_cell(w, h, n, s[at]) == (x, y));
    }
}

/// Where `n` divides the width and the height, the tiles cover the image
/// exactly once: every pixel lies in the tile of its cell and in no other.
pub proof fn lemma_tiles_cover_image(w: int, h: int, n: int, px: int, py: int)
    requires
        1 <= n,
        0 <= w <= i32::MAX,
        0 <= h <= i32::MAX,
        w % n == 0,
        h % n == 0,
        0 <= px < w,
        0 <= py < h,
    ensures
        0 <= spiral_index(n, px / (w / n), py / (h / n)) < n * n,
        tiles(w, h, n)[spiral_index(n, px / (w / n), py / (h / n))].contains(px, py),
        forall|i: int|
            0 <= i < n * n && (#[trigger] tiles(w, h, n)[i]).contains(px, py) ==> i
                == spiral_index(n, px / (w / n), py / (h / n)),
{
    let bw = w / n;
    let bh = h / n;
    let cx = px / bw;
    let cy = py / bh;
    assert(n * n >= 0) by (nonlinear_arith);
    vstd::arithmetic::div_mod::lemma_fundamental_div_mod(w, n);
    vstd::arithmetic::div_mod::lemma_fundamental_div_mod(h, n);
    assert(bw >= 1) by (nonlinear_arith)
        requires
            w == n * bw,
            w > 0,
            n >= 1,
    ;
    assert(bh >= 1) by (nonlinear_arith)
        requires
            h == n * bh,
            h > 0,
            n >= 1,
    ;
    lemma_pixel_cell(px, bw, n);
    lemma_pixel_cell(py, bh, n);
    lemma_spiral_cell_of_index(n, cx, cy);
    let at = spiral_index(n, cx, cy);
    lemma_tile_corner(w, h, n, at);
    assert forall|i: int| 0 <= i < n * n && (#[trigger] tiles(w, h, n)[i]).contains(
        px,
        py,
    ) implies i == at by {
        lemma_tile_corner(w, h, n, i);
        lemma_spiral_index_of_cell(n, i);
        let c = spiral_cell(n, i);
        lemma_cell_of_pixel(px, bw, c.0);
        lemma_cell_of_pixel(py, bh, c.1);
    }
}

/// A pixel's cell is on the grid and its tile holds the pixel.
proof fn lemma_pixel_cell(p: int, b: int, n: int)
    requires
        1 <= b,
        0 <= p < n * b,
    ensures
        0 <= p / b < n,
        (p / b) * b <= p < (p / b) * b + b,
{
    vstd::arithmetic::div_mod::lemma_fundamental_div_mod(p, b);
    vstd::arithmetic::div_mod::lemma_mod_pos_bound(p, b);
    vstd::arithmetic::div_mod::lemma_div_pos_is_pos(p, b);
    let q = p / b;
    assert(b * q == q * b) by (nonlinear_arith);
    assert(q < n) by (nonlinear_arith)
        requires
            q * b <= p,
            p < n * b,
            1 <= b,
    ;
}

/// Only the tile of a pixel's cell holds the pixel.
proof fn lemma_cell_of_pixel(p: int, b: int, c: int)
    requires
        1 <= b,
        c * b <= p < c * b + b,
    ensures
        p / b == c,
{
    vstd::arithmetic::div_mod::lemma_div_multiples_vanish_fancy(c, p - c * b, b);
    assert(b * c == c * b) by (nonlinear_arith);
}

/// The pixels that a rectangle lists are the pixels that it contains, each
/// listed once: pixel `(py - y) * w + (px - x)` of the list is `(px, py)`,
/// and every pixel of the list lies inside.
pub proof fn lemma_pixels_of_bbox(b: BBox, px: int, py: int, k: int)
    ensures
        b.contains(px, py) ==> 0 <= (py - b.y) * b.w + (px - b.x) < b.pixel_count() && b.pixel_at(
            (py - b.y) * b.w + (px - b.x),
        ) == (px, py),
        0 <= k < b.pixel_count() ==> b.contains(b.pixel_at(k).0, b.pixel_at(k).1) && (b.pixel_at(
            k,
        ).1 - b.y) * b.w + (b.pixel_at(k).0 - b.x) == k,
{
    let w = b.w as int;
    let h = b.h as int;
    if b.contains(px, py) {
        let at = (py - b.y) * w + (px - b.x);
        vstd::arithmetic::div_mod::lemma_fundamental_div_mod_converse(at, w, py - b.y, px - b.x);
        assert((py - b.y) * w >= 0) by (nonlinear_arith)
            requires
                py - b.y >= 0,
                w > 0,
        ;
        assert((py - b.y) * w + w <= w * h) by (nonlinear_arith)
            requires
                0 <= py - b.y < h,
                w > 0,
        ;
    }
    if 0 <= k < b.pixel_count() {
        vstd::arithmetic::div_mod::lemma_fundamental_div_mod(k, w);
        vstd::arithmetic::div_mod::lemma_mod_pos_bound(k, w);
        vstd::arithmetic::div_mod::lemma_div_pos_is_pos(k, w);
        let q = k / w;
        assert(w * q == q * w) by (nonlinear_arith);
        assert(q < h) by (nonlinear_arith)
            requires
                q * w <= k,
                k < w * h,
                w > 0,
        ;
    }
}

} // verus!
