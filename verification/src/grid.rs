use vstd::prelude::*;

verus! {

/// One pixel: red, green, blue and alpha samples.
#[derive(Clone, Copy, Debug, PartialEq, Eq, Structural)]
pub struct Rgba {
    pub r: u8,
    pub g: u8,
    pub b: u8,
    pub a: u8,
}

/// A pixel position: column `x`, row `y`.
#[derive(Clone, Copy, Debug, PartialEq, Eq, Structural)]
pub struct Point {
    pub x: u32,
    pub y: u32,
}

/// Whether `a` and `b` share an edge (4-connectivity).
pub open spec fn adjacent(a: Point, b: Point) -> bool {
    ||| a.y == b.y && (a.x + 1 == b.x || b.x + 1 == a.x)
    ||| a.x == b.x && (a.y + 1 == b.y || b.y + 1 == a.y)
}

/// The position of the sample with row-major index `i` in a grid `width` wide.
pub open spec fn point_at(width: nat, i: int) -> Point {
    Point { x: (i % width as int) as u32, y: (i / width as int) as u32 }
}

/// The row-major index of `p` in a grid `width` wide.
pub open spec fn index_of(width: nat, p: Point) -> int {
    p.y * width + p.x
}

/// Whether `p` lies in a grid of the given size.
pub open spec fn in_grid(width: nat, height: nat, p: Point) -> bool {
    p.x < width && p.y < height
}

/// A position inside the grid has an index inside the sample array.
pub proof fn lemma_index_in_range(width: nat, height: nat, p: Point)
    requires
        in_grid(width, height, p),
    ensures
        0 <= index_of(width, p) < width * height,
{
    assert(p.y * width + p.x < width * height) by (nonlinear_arith)
        requires
            p.x < width,
            p.y < height,
    ;
    assert(0 <= p.y * width) by (nonlinear_arith);
}

/// Every index of the sample array is the index of exactly one position.
pub proof fn lemma_point_at_index(width: nat, height: nat, i: int)
    requires
        width <= u32::MAX,
        height <= u32::MAX,
        0 <= i < width * height,
    ensures
        in_grid(width, height, point_at(width, i)),
        index_of(width, point_at(width, i)) == i,
{
    let w = width as int;
    assert(w > 0) by (nonlinear_arith)
        requires
            0 <= i < w * height,
            w >= 0,
    ;
    vstd::arithmetic::div_mod::lemma_fundamental_div_mod(i, w);
    vstd::arithmetic::div_mod::lemma_mod_bound(i, w);
    vstd::arithmetic::div_mod::lemma_div_pos_is_pos(i, w);
    assert(i / w < height) by (nonlinear_arith)
        requires
            i == w * (i / w) + i % w,
            0 <= i % w < w,
            i < w * height,
            w > 0,
    ;
    assert((i / w) * w == w * (i / w)) by (nonlinear_arith);
}

/// Two positions of one grid with the same index are the same position.
pub proof fn lemma_index_injective(width: nat, height: nat, p: Point, q: Point)
    requires
        in_grid(width, height, p),
        in_grid(width, height, q),
        index_of(width, p) == index_of(width, q),
    ensures
        p == q,
{
    assert(p.y == q.y) by (nonlinear_arith)
        requires
            p.y * width + p.x == q.y * width + q.x,
            p.x < width,
            q.x < width,
            p.x >= 0,
            q.x >= 0,
    ;
}

} // verus!
