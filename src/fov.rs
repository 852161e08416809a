use vstd::prelude::*;

use crate::grid::Grid;
use crate::reach::abs;

verus! {

/// The number of steps on the sight line to a cell `(dx, dy)` away: the larger distance on one axis.
pub open spec fn steps(dx: int, dy: int) -> int {
    if abs(dx) >= abs(dy) {
        abs(dx)
    } else {
        abs(dy)
    }
}

/// How far the sight line has moved on an axis of length `d` after `i` of `n`
/// steps: `i * d / n` rounded to the nearest integer, halves away from zero.
pub open spec fn line_offset(d: int, i: int, n: int) -> int {
    if d >= 0 {
        (2 * i * d + n) / (2 * n)
    } else {
        -((2 * i * (-d) + n) / (2 * n))
    }
}

/// The cell at step `i` of the sight line from `(ox, oy)` to `(tx, ty)`.
pub open spec fn sight_cell(ox: int, oy: int, tx: int, ty: int, i: int) -> (int, int) {
    let n = steps(tx - ox, ty - oy);
    (ox + line_offset(tx - ox, i, n), oy + line_offset(ty - oy, i, n))
}

/// No cell strictly between the two ends of the sight line blocks sight.
pub open spec fn line_clear(map: Grid, ox: int, oy: int, tx: int, ty: int) -> bool {
    forall|i: int|
        0 < i < steps(tx - ox, ty - oy) ==> !map.at(
            #[trigger] sight_cell(ox, oy, tx, ty, i).0,
            sight_cell(ox, oy, tx, ty, i).1,
        ).block_sight
}

/// The offset is the observer's own cell, or lies within a positive radius
/// (Euclidean distance, compared squared).
pub open spec fn within_radius(dx: int, dy: int, radius: int) -> bool {
    (dx == 0 && dy == 0) || (radius > 0 && dx * dx + dy * dy <= radius * radius)
}

/// The cell `(x, y)` is seen from `(ox, oy)` with the given radius.
pub open spec fn is_visible(map: Grid, ox: int, oy: int, radius: int, x: int, y: int) -> bool {
    &&& map.in_bounds(x, y)
    &&& within_radius(x - ox, y - oy, radius)
    &&& line_clear(map, ox, oy, x, y)
}

/// `f`, indexed `f[x][y]` like the map, marks exactly the visible cells.
pub open spec fn is_field(f: Seq<Seq<bool>>, map: Grid, ox: int, oy: int, radius: int) -> bool {
    &&& f.len() == map.spec_width()
    &&& forall|x: int| 0 <= x < f.len() ==> #[trigger] f[x].len() == map.spec_height()
    &&& forall|x: int, y: int|
        map.in_bounds(x, y) ==> #[trigger] f[x][y] == is_visible(map, ox, oy, radius, x, y)
}

/// The field as nested sequences, column by column.
pub open spec fn field_view(f: Vec<Vec<bool>>) -> Seq<Seq<bool>> {
    f@.map_values(|c: Vec<bool>| c@)
}

/// For `0 <= d <= n` and `0 <= i <= n` the rounded offset stays between 0 and `d`.
proof fn lemma_offset_between(d: int, i: int, n: int)
    requires
        0 <= d <= n,
        0 <= i <= n,
        n > 0,
    ensures
        0 <= (2 * i * d + n) / (2 * n) <= d,
{
    let num = 2 * i * d + n;
    let q = num / (2 * n);
    vstd::arithmetic::div_mod::lemma_fundamental_div_mod(num, 2 * n);
    let rem = num % (2 * n);
    assert(0 <= rem < 2 * n);
    assert(i * d <= n * d) by (nonlinear_arith)
        requires
            0 <= i <= n,
            0 <= d,
    ;
    assert(2 * i * d <= 2 * n * d) by (nonlinear_arith)
        requires
            0 <= i <= n,
            0 <= d,
    ;
    assert(0 <= num <= 2 * n * d + n);
    assert(num == 2 * n * q + rem);
    assert(0 <= q <= d) by (nonlinear_arith)
        requires
            num == 2 * n * q + rem,
            0 <= rem < 2 * n,
            0 <= num <= 2 * n * d + n,
            n > 0,
    ;
}

/// `(2 * i * d + n) / (2 * n)`, computed without overflow.
fn rounded_offset(d: u64, i: u64, n: u64) -> (r: u64)
    requires
        0 < n <= i32::MAX + 1,
        d <= n,
        i <= n,
    ensures
        r == (2 * i * d + n) / (2 * n),
        r <= d,
{
    assert(i * d <= n * n) by (nonlinear_arith)
        requires
            i <= n,
            d <= n,
    ;
    assert(n * n <= 0x4000_0000_0000_0000) by (nonlinear_arith)
        requires
            0 < n <= 0x8000_0000,
    ;
    proof {
        lemma_offset_between(d as int, i as int, n as int);
    }
    let p: u64 = i * d;
    assert(2 * p + n == 2 * i * d + n) by (nonlinear_arith)
        requires
            p == i * d,
    ;
    let num: u64 = 2 * p + n;
    let den: u64 = 2 * n;
    num / den
}

/// Moves `c` by `off` toward the sign of `d`.
fn shift(c: i32, d: i64, off: u64) -> (r: i64)
    requires
        off <= 0x8000_0000,
    ensures
        r == c + (if d >= 0 {
            off as int
        } else {
            -(off as int)
        }),
{
    if d >= 0 {
        c as i64 + off as i64
    } else {
        c as i64 - off as i64
    }
}

/// Whether `(x, y)` is visible from `(ox, oy)`.
fn cell_visible(map: &Grid, ox: i32, oy: i32, radius: i32, x: i32, y: i32) -> (b: bool)
    requires
        map.wf(),
        map.in_bounds(ox as int, oy as int),
        map.in_bounds(x as int, y as int),
    ensures
        b == is_visible(*map, ox as int, oy as int, radius as int, x as int, y as int),
{
    let dx: i64 = x as i64 - ox as i64;
    let dy: i64 = y as i64 - oy as i64;
    if dx == 0 && dy == 0 {
        return true;
    }
    if radius <= 0 {
        return false;
    }
    let adx: u64 = if dx >= 0 { dx as u64 } else { (-dx) as u64 };
    let ady: u64 = if dy >= 0 { dy as u64 } else { (-dy) as u64 };
    let r: u64 = radius as u64;
    assert(adx * adx <= 0x4000_0000_0000_0000) by (nonlinear_arith)
        requires
            adx <= 0x8000_0000,
    ;
    assert(ady * ady <= 0x4000_0000_0000_0000) by (nonlinear_arith)
        requires
            ady <= 0x8000_0000,
    ;
    assert(r * r <= 0x4000_0000_0000_0000) by (nonlinear_arith)
        requires
            r <= 0x8000_0000,
    ;
    assert(adx * adx + ady * ady == dx * dx + dy * dy) by (nonlinear_arith)
        requires
            adx == abs(dx as int),
            ady == abs(dy as int),
    ;
    assert(r * r == radius * radius);
    if adx * adx + ady * ady > r * r {
        return false;
    }
    let n: u64 = if adx >= ady { adx } else { ady };
    let ghost tx = x as int;
    let ghost ty = y as int;
    assert(n == steps(tx - ox, ty - oy));
    let mut i: u64 = 1;
    while i < n
        invariant
            map.wf(),
            map.in_bounds(ox as int, oy as int),
            map.in_bounds(tx, ty),
            tx == x,
            ty == y,
            n == steps(tx - ox, ty - oy),
            adx == abs(dx as int),
            ady == abs(dy as int),
            dx == tx - ox,
            dy == ty - oy,
            adx <= n,
            ady <= n,
            0 < n <= i32::MAX + 1,
            1 <= i <= n,
            forall|k: int|
                0 < k < i ==> !map.at(
                    #[trigger] sight_cell(ox as int, oy as int, tx, ty, k).0,
                    sight_cell(ox as int, oy as int, tx, ty, k).1,
                ).block_sight,
        decreases n - i,
    {
        let ox_off = rounded_offset(adx, i, n);
        let oy_off = rounded_offset(ady, i, n);
        let cx = shift(ox, dx, ox_off);
        let cy = shift(oy, dy, oy_off);
        let ghost cell = sight_cell(ox as int, oy as int, tx, ty, i as int);
        assert(cx == cell.0 && cy == cell.1);
        assert(map.in_bounds(cx as int, cy as int));
        if map.tile(cx as i32, cy as i32).block_sight {
            assert(map.at(
                sight_cell(ox as int, oy as int, tx, ty, i as int).0,
                sight_cell(ox as int, oy as int, tx, ty, i as int).1,
            ).block_sight);
            assert(0 < i < steps(tx - ox, ty - oy));
            return false;
        }
        i = i + 1;
    }
    true
}

/// The field of view from `(ox, oy)`: `r[x][y]` tells whether the cell `(x, y)`
/// is visible. A cell is visible when it is the observer's own cell, or when it
/// lies within `radius` (Euclidean) and no cell strictly between it and the
/// observer on the sight line blocks sight. Walls at the end of a clear line
/// are visible themselves. A radius of 0 or less shows the observer's cell only.
pub fn compute_visible(map: &Grid, ox: i32, oy: i32, radius: i32) -> (r: Vec<Vec<bool>>)
    requires
        map.wf(),
        map.in_bounds(ox as int, oy as int),
    ensures
        is_field(field_view(r), *map, ox as int, oy as int, radius as int),
{
    let w = map.width();
    let h = map.height();
    let mut field: Vec<Vec<bool>> = Vec::new();
    let mut x: i32 = 0;
    while x < w
        invariant
            map.wf(),
            map.in_bounds(ox as int, oy as int),
            w == map.spec_width(),
            h == map.spec_height(),
            0 <= x <= w,
            field@.len() == x,
            forall|a: int| 0 <= a < x ==> #[trigger] field@[a]@.len() == h,
            forall|a: int, b: int|
                0 <= a < x && 0 <= b < h ==> #[trigger] field@[a]@[b] == is_visible(
                    *map,
                    ox as int,
                    oy as int,
                    radius as int,
                    a,
                    b,
                ),
        decreases w - x,
    {
        let mut col: Vec<bool> = Vec::new();
        let mut y: i32 = 0;
        while y < h
            invariant
                map.wf(),
                map.in_bounds(ox as int, oy as int),
                w == map.spec_width(),
                h == map.spec_height(),
                0 <= x < w,
                0 <= y <= h,
                col@.len() == y,
                forall|b: int|
                    0 <= b < y ==> #[trigger] col@[b] == is_visible(
                        *map,
                        ox as int,
                        oy as int,
                        radius as int,
                        x as int,
                        b,
                    ),
            decreases h - y,
        {
            col.push(cell_visible(map, ox, oy, radius, x, y));
            y = y + 1;
        }
        field.push(col);
        x = x + 1;
    }
    let ghost f = field_view(field);
    assert forall|a: int, b: int| map.in_bounds(a, b) implies #[trigger] f[a][b] == is_visible(
        *map,
        ox as int,
        oy as int,
        radius as int,
        a,
        b,
    ) by {
        assert(f[a] == field@[a]@);
    }
    assert forall|a: int| 0 <= a < f.len() implies #[trigger] f[a].len() == map.spec_height() by {
        assert(f[a] == field@[a]@);
    }
    field
}

/// Whether the field of view has to be computed again: only when the observer moved.
pub fn needs_recompute(previous: (i32, i32), current: (i32, i32)) -> (b: bool)
    ensures
        b == (previous != current),
{
    previous.0 != current.0 || previous.1 != current.1
}

/// A field of view always holds the observer's own cell; every cell it holds lies
/// within the radius, and no cell strictly between that cell and the observer on
/// the sight line blocks sight.
pub proof fn lemma_field_bounded(f: Seq<Seq<bool>>, map: Grid, ox: int, oy: int, radius: int)
    requires
        map.wf(),
        map.in_bounds(ox, oy),
        is_field(f, map, ox, oy, radius),
    ensures
        f[ox][oy],
        forall|x: int, y: int|
            map.in_bounds(x, y) && #[trigger] f[x][y] ==> (x - ox) * (x - ox) + (y - oy) * (y - oy)
                <= if radius > 0 {
                radius * radius
            } else {
                0
            },
        forall|x: int, y: int, i: int|
            #![trigger f[x][y], sight_cell(ox, oy, x, y, i)]
            map.in_bounds(x, y) && f[x][y] && 0 < i < steps(x - ox, y - oy) ==> !map.at(
                sight_cell(ox, oy, x, y, i).0,
                sight_cell(ox, oy, x, y, i).1,
            ).block_sight,
{
    assert forall|x: int, y: int|
        map.in_bounds(x, y) && #[trigger] f[x][y] implies (x - ox) * (x - ox) + (y - oy) * (y - oy)
        <= if radius > 0 {
        radius * radius
    } else {
        0
    } by {
        assert(is_visible(map, ox, oy, radius, x, y));
        if x - ox == 0 && y - oy == 0 {
            assert((x - ox) * (x - ox) + (y - oy) * (y - oy) == 0);
        }
    }
}

/// The field of view depends on the map, the position and the radius alone: two
/// fields computed from the same arguments are equal.
pub proof fn lemma_field_unique(
    a: Seq<Seq<bool>>,
    b: Seq<Seq<bool>>,
    map: Grid,
    ox: int,
    oy: int,
    radius: int,
)
    requires
        map.wf(),
        is_field(a, map, ox, oy, radius),
        is_field(b, map, ox, oy, radius),
    ensures
        a == b,
{
    assert forall|x: int| 0 <= x < a.len() implies #[trigger] a[x] == b[x] by {
        assert forall|y: int| 0 <= y < a[x].len() implies a[x][y] == b[x][y] by {
            assert(map.in_bounds(x, y));
        }
        assert(a[x] =~= b[x]);
    }
    assert(a =~= b);
}

/// After `i` of `n` steps along an axis of length `n` itself, the line has moved exactly `i`.
proof fn lemma_offset_major(i: int, n: int)
    requires
        0 <= i <= n,
        n > 0,
    ensures
        (2 * i * n + n) / (2 * n) == i,
{
    let num = 2 * i * n + n;
    vstd::arithmetic::div_mod::lemma_fundamental_div_mod(num, 2 * n);
    let q = num / (2 * n);
    let rem = num % (2 * n);
    assert(num == 2 * n * i + n) by (nonlinear_arith)
        requires
            num == 2 * i * n + n,
    ;
    assert(q == i) by (nonlinear_arith)
        requires
            num == 2 * n * q + rem,
            num == 2 * n * i + n,
            0 <= rem < 2 * n,
            n > 0,
    ;
}

/// The cells that the sight line checks lie strictly between its two ends: inside
/// the rectangle spanned by observer and target, and equal to neither.
pub proof fn lemma_sight_cells_between(ox: int, oy: int, tx: int, ty: int, i: int)
    requires
        0 < i < steps(tx - ox, ty - oy),
    ensures
        ({
            let c = sight_cell(ox, oy, tx, ty, i);
            &&& (if ox <= tx { ox <= c.0 <= tx } else { tx <= c.0 <= ox })
            &&& (if oy <= ty { oy <= c.1 <= ty } else { ty <= c.1 <= oy })
            &&& c != (ox, oy)
            &&& c != (tx, ty)
        }),
{
    let dx = tx - ox;
    let dy = ty - oy;
    let n = steps(dx, dy);
    lemma_offset_between(abs(dx), i, n);
    lemma_offset_between(abs(dy), i, n);
    lemma_offset_major(i, n);
}

/// The rounded offset grows by at most one per step when `d <= n`.
proof fn lemma_offset_step(d: int, i: int, n: int)
    requires
        0 <= d <= n,
        0 <= i,
        n > 0,
    ensures
        (2 * (i + 1) * d + n) / (2 * n) <= (2 * i * d + n) / (2 * n) + 1,
{
    let m = 2 * i * d + n;
    let m2 = 2 * (i + 1) * d + n;
    assert(m2 == m + 2 * d) by (nonlinear_arith)
        requires
            m == 2 * i * d + n,
            m2 == 2 * (i + 1) * d + n,
    ;
    vstd::arithmetic::div_mod::lemma_fundamental_div_mod(m, 2 * n);
    vstd::arithmetic::div_mod::lemma_fundamental_div_mod(m2, 2 * n);
    let q = m / (2 * n);
    let q2 = m2 / (2 * n);
    let r = m % (2 * n);
    let r2 = m2 % (2 * n);
    assert(q2 <= q + 1) by (nonlinear_arith)
        requires
            m == 2 * n * q + r,
            m2 == 2 * n * q2 + r2,
            0 <= r < 2 * n,
            0 <= r2 < 2 * n,
            m2 == m + 2 * d,
            d <= n,
            n > 0,
    ;
}

/// Some step in `1..=k` has the rounded offset `a - 1`, once the offset at `k` has reached it.
proof fn lemma_offset_reaches(a: int, n: int, k: int)
    requires
        2 <= a <= n,
        0 <= k <= n,
        (2 * k * a + n) / (2 * n) >= a - 1,
    ensures
        exists|i: int| 0 < i <= k && #[trigger] ((2 * i * a + n) / (2 * n)) == a - 1,
    decreases k,
{
    if k == 0 {
        assert((2 * 0 * a + n) / (2 * n) == 0) by (nonlinear_arith)
            requires
                n > 0,
        ;
    } else {
        lemma_offset_step(a, k - 1, n);
        if (2 * (k - 1) * a + n) / (2 * n) >= a - 1 {
            lemma_offset_reaches(a, n, k - 1);
            let i = choose|i: int| 0 < i <= k - 1 && #[trigger] ((2 * i * a + n) / (2 * n)) == a - 1;
            assert(0 < i <= k);
        } else {
            assert((2 * k * a + n) / (2 * n) == a - 1);
        }
    }
}

/// Behind a wall column no cell is seen: when every cell of column 1 blocks sight,
/// an observer standing in column 2 or further right sees nothing in column 0.
pub proof fn lemma_wall_column_hides(map: Grid, ox: int, oy: int, radius: int, ty: int)
    requires
        map.wf(),
        map.in_bounds(ox, oy),
        ox >= 2,
        forall|y: int| 0 <= y < map.spec_height() ==> (#[trigger] map.at(1, y)).block_sight,
    ensures
        !is_visible(map, ox, oy, radius, 0, ty),
{
    if map.in_bounds(0, ty) {
        let dx = 0 - ox;
        let dy = ty - oy;
        let n = steps(dx, dy);
        let a = ox;
        lemma_offset_reaches_end(a, n);
        lemma_offset_reaches(a, n, n);
        let i = choose|i: int| 0 < i <= n && #[trigger] ((2 * i * a + n) / (2 * n)) == a - 1;
        assert(i < n);
        lemma_sight_cells_between(ox, oy, 0, ty, i);
        let c = sight_cell(ox, oy, 0, ty, i);
        assert(c.0 == 1);
        assert(map.at(c.0, c.1).block_sight);
        assert(!line_clear(map, ox, oy, 0, ty));
    }
}

/// After all `n` steps the rounded offset on an axis of length `a` is `a`.
proof fn lemma_offset_reaches_end(a: int, n: int)
    requires
        0 <= a <= n,
        n > 0,
    ensures
        (2 * n * a + n) / (2 * n) == a,
{
    let num = 2 * n * a + n;
    vstd::arithmetic::div_mod::lemma_fundamental_div_mod(num, 2 * n);
    let q = num / (2 * n);
    let rem = num % (2 * n);
    assert(q == a) by (nonlinear_arith)
        requires
            num == 2 * n * q + rem,
            num == 2 * n * a + n,
            0 <= rem < 2 * n,
            n > 0,
    ;
}

} // verus!
