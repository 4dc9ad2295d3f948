//! The simulation grid as integers: which cell has which place in the
//! buffer, and which cells one particle reaches.
//!
//! A particle lies in one cell, its containing cell, and contributes to the
//! three by three cells around it. Cells of that stencil that lie outside
//! the grid are left out: nothing wraps around and nothing is moved inside.
use vstd::prelude::*;
use crate::shared::{N_GRID_TOTAL, N_GRID_X};

verus! {

/// A cell by its integer coordinates, or the step from one cell to another.
/// Nothing says that it lies inside the grid.
#[derive(Copy, Clone, Debug, PartialEq, Eq, Structural)]
pub struct CellCoord {
    pub x: i32,
    pub y: i32,
}

/// A cell of the grid by its unsigned coordinates.
#[derive(Copy, Clone, Debug, PartialEq, Eq, Structural)]
pub struct GridCoord {
    pub x: u32,
    pub y: u32,
}

/// Grid dimensions handed to the shaders that draw the grid.
#[derive(Copy, Clone, Debug)]
pub struct GridPushConstants {
    pub grid_width: u32,
    pub grid_height: u32,
}

/// Offsets of the three by three stencil around a cell, row by row.
pub const STENCIL_OFFSETS: [(i32, i32); 9] = [
    (-1, -1),
    (0, -1),
    (1, -1),
    (-1, 0),
    (0, 0),
    (1, 0),
    (-1, 1),
    (0, 1),
    (1, 1),
];

/// The offsets of the stencil moved up by one, for indexing a three by
/// three table.
pub const STENCIL_OFFSETS_POS: [(u32, u32); 9] = [
    (0, 0),
    (1, 0),
    (2, 0),
    (0, 1),
    (1, 1),
    (2, 1),
    (0, 2),
    (1, 2),
    (2, 2),
];

/// Place of the cell `(x, y)` in the row-major buffer of the grid.
pub open spec fn spec_linear_index(x: int, y: int) -> int {
    y * N_GRID_X as int + x
}

/// Whether the cell `(x, y)` lies inside the grid.
pub open spec fn spec_in_grid(x: int, y: int) -> bool {
    0 <= x < N_GRID_X && 0 <= y < N_GRID_X
}

/// The `o`-th offset of the stencil: rows from -1 to 1, and in each row the
/// columns from -1 to 1.
pub open spec fn spec_stencil_offset(o: int) -> CellCoord {
    CellCoord { x: (o % 3 - 1) as i32, y: (o / 3 - 1) as i32 }
}

/// Place of the cell `(x, y)` in the buffer of the grid.
pub fn linear_grid_index(x: u32, y: u32) -> (r: usize)
    requires
        spec_linear_index(x as int, y as int) <= u32::MAX,
    ensures
        r == spec_linear_index(x as int, y as int),
{
    (y * N_GRID_X + x) as usize
}

/// Place of the cell `idx` in the buffer of the grid.
pub fn linear_grid_index_uvec(idx: GridCoord) -> (r: usize)
    requires
        spec_linear_index(idx.x as int, idx.y as int) <= u32::MAX,
    ensures
        r == spec_linear_index(idx.x as int, idx.y as int),
{
    (idx.y * N_GRID_X + idx.x) as usize
}

/// The `o`-th offset of the stencil.
pub fn stencil_offset(o: usize) -> (r: CellCoord)
    requires
        o < 9,
    ensures
        r == spec_stencil_offset(o as int),
{
    let (x, y) = STENCIL_OFFSETS[o];
    CellCoord { x, y }
}

/// Whether `cell` lies inside the grid.
pub fn in_grid(cell: CellCoord) -> (r: bool)
    ensures
        r == spec_in_grid(cell.x as int, cell.y as int),
{
    cell.x >= 0 && cell.y >= 0 && cell.x < N_GRID_X as i32 && cell.y < N_GRID_X as i32
}

/// Place of `cell` in the buffer of the grid, where it lies inside the grid.
pub fn linear_grid_index_ivec(cell: CellCoord) -> (r: Option<usize>)
    ensures
        r is Some <==> spec_in_grid(cell.x as int, cell.y as int),
        r is Some ==> r->Some_0 == spec_linear_index(cell.x as int, cell.y as int),
        r is Some ==> r->Some_0 < N_GRID_TOTAL,
{
    if in_grid(cell) {
        let x: u32 = cell.x as u32;
        let y: u32 = cell.y as u32;
        Some(linear_grid_index(x, y))
    } else {
        None
    }
}

/// Inside the grid, different cells have different places, and every place
/// lies inside the buffer.
pub proof fn lemma_linear_index_injective(x1: int, y1: int, x2: int, y2: int)
    requires
        spec_in_grid(x1, y1),
        spec_in_grid(x2, y2),
    ensures
        0 <= spec_linear_index(x1, y1) < N_GRID_TOTAL,
        spec_linear_index(x1, y1) == spec_linear_index(x2, y2) <==> (x1 == x2 && y1 == y2),
{
}

/// One cell that a particle contributes to.
#[derive(Copy, Clone, Debug, PartialEq, Eq, Structural)]
pub struct StencilTarget {
    /// Step from the containing cell to this one.
    pub offset: CellCoord,
    /// Place of this cell in the buffer of the grid.
    pub index: usize,
}

/// Whether the `o`-th neighbour of the cell `(cx, cy)` lies inside the grid.
pub open spec fn spec_neighbor_in_grid(cx: int, cy: int, o: int) -> bool {
    spec_in_grid(cx + spec_stencil_offset(o).x, cy + spec_stencil_offset(o).y)
}

/// The `o`-th neighbour of the cell `(cx, cy)` as a target.
pub open spec fn spec_target(cx: int, cy: int, o: int) -> StencilTarget {
    StencilTarget {
        offset: spec_stencil_offset(o),
        index: spec_linear_index(
            cx + spec_stencil_offset(o).x,
            cy + spec_stencil_offset(o).y,
        ) as usize,
    }
}

/// The targets among the first `count` neighbours of the cell `(cx, cy)`:
/// those inside the grid, in the order of the stencil.
pub open spec fn spec_targets_upto(cx: int, cy: int, count: nat) -> Seq<StencilTarget>
    decreases count,
{
    if count == 0 {
        Seq::empty()
    } else {
        let before = spec_targets_upto(cx, cy, (count - 1) as nat);
        if spec_neighbor_in_grid(cx, cy, count - 1) {
            before.push(spec_target(cx, cy, count - 1))
        } else {
            before
        }
    }
}

/// The cells that a particle in the cell `(cx, cy)` contributes to.
pub open spec fn spec_stencil_targets(cx: int, cy: int) -> Seq<StencilTarget> {
    spec_targets_upto(cx, cy, 9)
}

/// The `o`-th neighbour of `containing` as a target, where it lies inside
/// the grid. A neighbour outside the grid is dropped.
pub fn stencil_target(containing: CellCoord, o: usize) -> (r: Option<StencilTarget>)
    requires
        o < 9,
    ensures
        r is Some <==> spec_neighbor_in_grid(containing.x as int, containing.y as int, o as int),
        r is Some ==> r->Some_0 == spec_target(
            containing.x as int,
            containing.y as int,
            o as int,
        ),
        r is Some ==> r->Some_0.index < N_GRID_TOTAL,
{
    let offset = stencil_offset(o);
    let x: i64 = containing.x as i64 + offset.x as i64;
    let y: i64 = containing.y as i64 + offset.y as i64;
    if x < 0 || y < 0 || x >= N_GRID_X as i64 || y >= N_GRID_X as i64 {
        return None;
    }
    let index: usize = linear_grid_index(x as u32, y as u32);
    Some(StencilTarget { offset, index })
}

/// The cells that a particle in the cell `containing` contributes to, in
/// the order of the stencil.
pub fn stencil_targets(containing: CellCoord) -> (r: Vec<StencilTarget>)
    ensures
        r@ == spec_stencil_targets(containing.x as int, containing.y as int),
        r@.len() <= 9,
{
    let mut targets: Vec<StencilTarget> = Vec::new();
    let mut o: usize = 0;
    while o < 9
        invariant
            o <= 9,
            targets@ == spec_targets_upto(containing.x as int, containing.y as int, o as nat),
            targets@.len() <= o,
        decreases 9 - o,
    {
        match stencil_target(containing, o) {
            Some(t) => {
                targets.push(t);
            },
            None => {},
        }
        o = o + 1;
    }
    targets
}

/// Whether `t` is the target of one of the first `count` neighbours of the
/// cell `(cx, cy)`, and that neighbour lies inside the grid.
pub open spec fn spec_is_target(cx: int, cy: int, count: nat, t: StencilTarget) -> bool {
    exists|o: int|
        0 <= o < count && spec_neighbor_in_grid(cx, cy, o) && t == #[trigger] spec_target(
            cx,
            cy,
            o,
        )
}

/// Every target is a neighbour inside the grid, and every such neighbour
/// is a target.
pub proof fn lemma_targets_upto(cx: int, cy: int, count: nat, t: StencilTarget)
    ensures
        spec_targets_upto(cx, cy, count).contains(t) <==> spec_is_target(cx, cy, count, t),
    decreases count,
{
    if count > 0 {
        let before = spec_targets_upto(cx, cy, (count - 1) as nat);
        let now = spec_targets_upto(cx, cy, count);
        lemma_targets_upto(cx, cy, (count - 1) as nat, t);
        let last = spec_target(cx, cy, count - 1);
        if spec_is_target(cx, cy, (count - 1) as nat, t) {
            let o = choose|o: int|
                0 <= o < count - 1 && spec_neighbor_in_grid(cx, cy, o) && t == #[trigger] spec_target(
                    cx,
                    cy,
                    o,
                );
            assert(0 <= o < count && spec_neighbor_in_grid(cx, cy, o) && t == spec_target(
                cx,
                cy,
                o,
            ));
        }
        if spec_neighbor_in_grid(cx, cy, count - 1) {
            assert(now == before.push(last));
            assert(now[before.len() as int] == last);
            if now.contains(t) {
                let k = choose|k: int| 0 <= k < now.len() && now[k] == t;
                if k < before.len() {
                    assert(before[k] == t);
                    assert(before.contains(t));
                } else {
                    assert(t == last);
                    assert(spec_is_target(cx, cy, count, t));
                }
            }
            if before.contains(t) {
                let k = choose|k: int| 0 <= k < before.len() && before[k] == t;
                assert(now[k] == t);
            }
            if t == last {
                assert(now.contains(t));
            }
        }
        if spec_is_target(cx, cy, count, t) {
            let o = choose|o: int|
                0 <= o < count && spec_neighbor_in_grid(cx, cy, o) && t == #[trigger] spec_target(
                    cx,
                    cy,
                    o,
                );
            if o < count - 1 {
                assert(spec_is_target(cx, cy, (count - 1) as nat, t));
            } else {
                assert(t == last);
            }
        }
    } else {
        assert(!spec_targets_upto(cx, cy, 0).contains(t));
    }
}

/// The place in the buffer of the cell `(x, y)` is among the places in
/// `targets`.
pub open spec fn spec_reaches(targets: Seq<StencilTarget>, x: int, y: int) -> bool {
    exists|k: int|
        0 <= k < targets.len() && (#[trigger] targets[k]).index == spec_linear_index(x, y)
}

/// A particle reaches the cells around its own and no others: a cell of
/// the grid has its place among the targets of the cell `(cx, cy)` exactly
/// where it lies at most one step from `(cx, cy)` along each axis.
pub proof fn lemma_targets_are_the_stencil(cx: int, cy: int, x: int, y: int)
    requires
        spec_in_grid(x, y),
    ensures
        spec_reaches(spec_stencil_targets(cx, cy), x, y) <==> (cx - 1 <= x <= cx + 1 && cy - 1
            <= y <= cy + 1),
{
    let targets = spec_stencil_targets(cx, cy);
    if cx - 1 <= x <= cx + 1 && cy - 1 <= y <= cy + 1 {
        let o = (y - cy + 1) * 3 + (x - cx + 1);
        assert(0 <= o < 9);
        assert(spec_stencil_offset(o).x == x - cx && spec_stencil_offset(o).y == y - cy);
        let t = spec_target(cx, cy, o);
        assert(spec_is_target(cx, cy, 9, t));
        lemma_targets_upto(cx, cy, 9, t);
        assert(targets.contains(t));
        let k = choose|k: int| 0 <= k < targets.len() && targets[k] == t;
        lemma_linear_index_injective(x, y, x, y);
        assert(targets[k].index == spec_linear_index(x, y));
    }
    if spec_reaches(targets, x, y) {
        let k = choose|k: int|
            0 <= k < targets.len() && (#[trigger] targets[k]).index == spec_linear_index(x, y);
        let t = targets[k];
        assert(targets.contains(t));
        lemma_targets_upto(cx, cy, 9, t);
        let o = choose|o: int|
            0 <= o < 9 && spec_neighbor_in_grid(cx, cy, o) && t == #[trigger] spec_target(
                cx,
                cy,
                o,
            );
        let nx = cx + spec_stencil_offset(o).x;
        let ny = cy + spec_stencil_offset(o).y;
        lemma_linear_index_injective(nx, ny, x, y);
    }
}

/// The targets of one particle are at most nine different cells, each inside
/// the buffer.
pub proof fn lemma_targets_distinct(cx: int, cy: int, count: nat)
    requires
        count <= 9,
    ensures
        spec_targets_upto(cx, cy, count).len() <= count,
        forall|a: int, b: int|
            0 <= a < b < spec_targets_upto(cx, cy, count).len() ==> spec_targets_upto(
                cx,
                cy,
                count,
            )[a].index != spec_targets_upto(cx, cy, count)[b].index,
        forall|k: int|
            0 <= k < spec_targets_upto(cx, cy, count).len() ==> spec_targets_upto(
                cx,
                cy,
                count,
            )[k].index < N_GRID_TOTAL,
    decreases count,
{
    if count > 0 {
        lemma_targets_distinct(cx, cy, (count - 1) as nat);
        let before = spec_targets_upto(cx, cy, (count - 1) as nat);
        let now = spec_targets_upto(cx, cy, count);
        let last = spec_target(cx, cy, count - 1);
        if spec_neighbor_in_grid(cx, cy, count - 1) {
            let lx = cx + spec_stencil_offset(count - 1).x;
            let ly = cy + spec_stencil_offset(count - 1).y;
            lemma_linear_index_injective(lx, ly, lx, ly);
            assert(now == before.push(last));
            assert forall|a: int, b: int| 0 <= a < b < now.len() implies now[a].index
                != now[b].index by {
                if b == before.len() {
                    assert(now[a] == before[a]);
                    assert(before.contains(before[a]));
                    lemma_targets_upto(cx, cy, (count - 1) as nat, before[a]);
                    let o = choose|o: int|
                        0 <= o < count - 1 && spec_neighbor_in_grid(cx, cy, o) && before[a]
                            == #[trigger] spec_target(cx, cy, o);
                    let ox = cx + spec_stencil_offset(o).x;
                    let oy = cy + spec_stencil_offset(o).y;
                    lemma_linear_index_injective(ox, oy, lx, ly);
                    assert(spec_stencil_offset(o) != spec_stencil_offset(count - 1));
                } else {
                    assert(now[a] == before[a] && now[b] == before[b]);
                }
            }
            assert forall|k: int| 0 <= k < now.len() implies now[k].index < N_GRID_TOTAL by {
                if k < before.len() {
                    assert(now[k] == before[k]);
                }
            }
        }
    }
}

} // verus!
