//! The grid model: a square array of cells in row-major order, the number of
//! placed conductors, and the flattened list of conductor coordinates.

use vstd::prelude::*;
use crate::cell::Cell;
use crate::cell::ConductorShape;
use crate::cell::PlacementError;
use crate::pins::PinAllocator;
use crate::raster::circle_raster;
use crate::raster::create_circle;
use crate::raster::create_line;
use crate::raster::line_points;

verus! {

/// The grid dimension used by callers that do not pick their own.
pub const GRID_SIZE: usize = 100;

/// Upper bound on a grid dimension, so that cell indices and the solver's
/// accumulated sums stay within machine integer ranges.
pub const MAX_GRID_SIZE: usize = 10000;

/// For in-range coordinates, the row-major index is in range.
pub proof fn lemma_idx_bound(size: int, x: int, y: int)
    requires
        0 <= x < size,
        0 <= y < size,
    ensures
        0 <= x * size + y < size * size,
{
    assert(x * size + y < size * size) by (nonlinear_arith)
        requires
            0 <= x < size,
            0 <= y < size,
    ;
}

/// A legal grid dimension's square stays well within `u32` range.
pub proof fn lemma_size_sq_bound(size: int)
    requires
        0 <= size <= MAX_GRID_SIZE,
    ensures
        size * size <= 100000000,
{
    assert(size * size <= 100000000) by (nonlinear_arith)
        requires
            0 <= size <= 10000,
    ;
}

/// Distinct in-range coordinates have distinct row-major indices.
pub proof fn lemma_idx_injective(size: int, x1: int, y1: int, x2: int, y2: int)
    requires
        0 <= x1 < size,
        0 <= y1 < size,
        0 <= x2 < size,
        0 <= y2 < size,
        x1 * size + y1 == x2 * size + y2,
    ensures
        x1 == x2 && y1 == y2,
{
    assert(x1 == x2 && y1 == y2) by (nonlinear_arith)
        requires
            0 <= x1 < size,
            0 <= y1 < size,
            0 <= x2 < size,
            0 <= y2 < size,
            x1 * size + y1 == x2 * size + y2,
    ;
}

/// A fixed-size square grid of cells. `cells` is row-major: the cell at
/// `(x, y)` sits at index `x * size + y`. `conductor_count` counts placed
/// shapes (not cells); `conductors` lists every rasterized coordinate of every
/// placed shape, in placement order, duplicates included.
#[derive(Clone)]
pub struct Grid {
    pub size: usize,
    pub cells: Vec<Cell>,
    pub conductor_count: usize,
    pub conductors: Vec<(i32, i32)>,
}

impl Grid {
    /// The dimensions are coherent: exactly `size * size` cells.
    pub open spec fn wf(self) -> bool {
        &&& 1 <= self.size <= MAX_GRID_SIZE
        &&& self.cells@.len() == self.size * self.size
    }

    /// Whether `(x, y)` lies on the grid.
    pub open spec fn in_range(self, x: int, y: int) -> bool {
        0 <= x < self.size && 0 <= y < self.size
    }

    /// The cell at `(x, y)`.
    pub open spec fn spec_cell(self, x: int, y: int) -> Cell {
        self.cells@[x * self.size + y]
    }

    /// A fully-Air grid of the given dimension, holding no conductors.
    pub fn new(size: usize) -> (r: Self)
        requires
            1 <= size <= MAX_GRID_SIZE,
        ensures
            r.wf(),
            r.size == size,
            r.conductor_count == 0,
            r.conductors@.len() == 0,
            forall|x: int, y: int|
                r.in_range(x, y) ==> r.spec_cell(x, y) == (Cell::Air { potential: 0i64 }),
    {
        proof {
            assert(size * size <= MAX_GRID_SIZE * MAX_GRID_SIZE) by (nonlinear_arith)
                requires
                    1 <= size <= MAX_GRID_SIZE,
            ;
        }
        let n = size * size;
        let mut cells: Vec<Cell> = Vec::new();
        let mut i: usize = 0;
        while i < n
            invariant
                i <= n,
                cells@.len() == i,
                forall|k: int| 0 <= k < i ==> cells@[k] == (Cell::Air { potential: 0i64 }),
            decreases n - i,
        {
            cells.push(Cell::Air { potential: 0 });
            i = i + 1;
        }
        let r = Grid { size, cells, conductor_count: 0, conductors: Vec::new() };
        proof {
            assert forall|x: int, y: int| r.in_range(x, y) implies r.spec_cell(x, y) == (Cell::Air {
                potential: 0i64,
            }) by {
                lemma_idx_bound(size as int, x, y);
            }
        }
        r
    }

    /// Read access to the number of successfully placed shapes.
    pub fn get_conductor_count(&self) -> (r: usize)
        ensures
            r == self.conductor_count,
    {
        self.conductor_count
    }

    /// Read access to the cell at `(x, y)`.
    pub fn cell_at(&self, x: usize, y: usize) -> (r: Cell)
        requires
            self.wf(),
            x < self.size,
            y < self.size,
        ensures
            r == self.spec_cell(x as int, y as int),
    {
        proof {
            lemma_idx_bound(self.size as int, x as int, y as int);
            lemma_size_sq_bound(self.size as int);
        }
        self.cells[x * self.size + y]
    }
}

/// Whether `p` lies on a grid of the given dimension.
pub open spec fn pt_in_bounds(p: (i32, i32), size: int) -> bool {
    0 <= p.0 < size && 0 <= p.1 < size
}

/// Whether the shape has a rasterization implementation.
pub open spec fn shape_supported(s: ConductorShape) -> bool {
    match s {
        ConductorShape::Line { .. } => true,
        ConductorShape::Circle { .. } => true,
        ConductorShape::HalfCircle { .. } => false,
        ConductorShape::Square { .. } => false,
    }
}

/// The rasterization of a supported shape; empty for unsupported ones.
pub open spec fn shape_points(s: ConductorShape) -> Seq<(i32, i32)> {
    match s {
        ConductorShape::Line { p1, p2 } => line_points(p1, p2),
        ConductorShape::Circle { origin, radius } => circle_raster(origin, radius),
        _ => Seq::empty(),
    }
}

/// The shape's defining parameters lie on the grid: a line's endpoints are in
/// bounds, a circle's origin is in bounds and its radius is between 0 and the
/// grid dimension. A shape failing this always rasterizes out of bounds.
pub open spec fn shape_params_ok(s: ConductorShape, size: int) -> bool {
    match s {
        ConductorShape::Line { p1, p2 } => pt_in_bounds(p1, size) && pt_in_bounds(p2, size),
        ConductorShape::Circle { origin, radius } => pt_in_bounds(origin, size) && 0 <= radius
            <= size,
        _ => true,
    }
}

/// Every rasterized coordinate of the shape lies on the grid.
pub open spec fn shape_in_bounds(s: ConductorShape, size: int) -> bool {
    forall|k: int|
        0 <= k < shape_points(s).len() ==> pt_in_bounds(#[trigger] shape_points(s)[k], size)
}

/// Why one shape cannot be placed, or `None` if it can: an unsupported shape
/// is reported as such; one whose parameters or rasterized coordinates leave
/// the grid is out of bounds.
pub open spec fn shape_error(s: ConductorShape, size: int) -> Option<PlacementError> {
    if !shape_supported(s) {
        Some(PlacementError::UnsupportedShape)
    } else if !shape_params_ok(s, size) {
        Some(PlacementError::CoordinateOutOfBounds)
    } else if !shape_in_bounds(s, size) {
        Some(PlacementError::CoordinateOutOfBounds)
    } else {
        None
    }
}

/// The error of the first unplaceable shape, in input order; `None` when every
/// shape can be placed. Placement fails fast on it.
pub open spec fn placement_error(shapes: Seq<ConductorShape>, size: int) -> Option<PlacementError>
    decreases shapes.len(),
{
    if shapes.len() == 0 {
        None
    } else if shape_error(shapes[0], size) is Some {
        shape_error(shapes[0], size)
    } else {
        placement_error(shapes.drop_first(), size)
    }
}

/// Whether the shape's rasterization covers the point.
pub open spec fn covers(s: ConductorShape, p: (i32, i32)) -> bool {
    shape_points(s).contains(p)
}

/// The cell a point holds after stamping the shapes in input order: the last
/// shape covering the point wins, with its index as the pin (shapes are pinned
/// `0, 1, ...` in input order); a point no shape covers stays air.
pub open spec fn stamped_cell(shapes: Seq<ConductorShape>, p: (i32, i32)) -> Cell
    decreases shapes.len(),
{
    if shapes.len() == 0 {
        Cell::Air { potential: 0 }
    } else if covers(shapes.last(), p) {
        Cell::Metal { voltage: 0, pin: Some((shapes.len() - 1) as u16) }
    } else {
        stamped_cell(shapes.drop_last(), p)
    }
}

/// Law: pins follow placement order and overlaps resolve last-write-wins.
/// After stamping, a point's cell is metal exactly when some shape covers it;
/// the pin it then holds is the index of the last covering shape (shape `k`
/// gets pin `k`, so `n` shapes get pins `0 .. n - 1` in input order), with
/// voltage 0; a point no shape covers is air with potential 0.
pub proof fn lemma_stamped_cell_pin(shapes: Seq<ConductorShape>, p: (i32, i32))
    requires
        shapes.len() <= 65535,
    ensures
        stamped_cell(shapes, p) is Metal <==> exists|k: int|
            0 <= k < shapes.len() && covers(#[trigger] shapes[k], p),
        stamped_cell(shapes, p) matches Cell::Metal { voltage, pin } ==> (voltage == 0 && (
        pin matches Some(id) && id < shapes.len() && covers(shapes[id as int], p) && (forall|
            k: int,
        | id < k < shapes.len() ==> !covers(#[trigger] shapes[k], p)))),
        stamped_cell(shapes, p) is Air ==> stamped_cell(shapes, p) == (Cell::Air {
            potential: 0i64,
        }),
    decreases shapes.len(),
{
    if shapes.len() == 0 {
    } else if covers(shapes.last(), p) {
        assert(covers(shapes[shapes.len() - 1], p));
    } else {
        lemma_stamped_cell_pin(shapes.drop_last(), p);
        let prev = shapes.drop_last();
        assert forall|k: int| 0 <= k < prev.len() implies #[trigger] prev[k] == shapes[k] by {}
        if stamped_cell(shapes, p) is Metal {
            let id = stamped_cell(prev, p)->pin->0;
            assert(covers(prev[id as int], p));
            assert forall|k: int| id < k < shapes.len() implies !covers(
                #[trigger] shapes[k],
                p,
            ) by {
                if k < shapes.len() - 1 {
                    assert(shapes[k] == prev[k]);
                }
            }
        } else {
            assert forall|k: int| 0 <= k < shapes.len() implies !covers(
                #[trigger] shapes[k],
                p,
            ) by {
                if k < shapes.len() - 1 {
                    assert(shapes[k] == prev[k]);
                }
            }
        }
    }
}

/// Every shape's rasterized coordinates, concatenated in input order.
pub open spec fn all_points(shapes: Seq<ConductorShape>) -> Seq<(i32, i32)>
    decreases shapes.len(),
{
    if shapes.len() == 0 {
        Seq::empty()
    } else {
        all_points(shapes.drop_last()) + shape_points(shapes.last())
    }
}

/// The cells after writing `Metal { voltage: 0, pin }` at each point of `pts`
/// in order.
pub open spec fn stamp_points(
    cells: Seq<Cell>,
    size: int,
    pts: Seq<(i32, i32)>,
    pin: u16,
) -> Seq<Cell>
    decreases pts.len(),
{
    if pts.len() == 0 {
        cells
    } else {
        let prev = stamp_points(cells, size, pts.drop_last(), pin);
        let p = pts.last();
        prev.update(p.0 * size + p.1, Cell::Metal { voltage: 0, pin: Some(pin) })
    }
}

/// Stamping a list of in-bounds points sets exactly the cells at those points
/// to metal with the given pin and leaves every other cell alone.
proof fn lemma_stamp_points_effect(
    cells: Seq<Cell>,
    size: int,
    pts: Seq<(i32, i32)>,
    pin: u16,
    x: int,
    y: int,
)
    requires
        cells.len() == size * size,
        1 <= size <= MAX_GRID_SIZE,
        0 <= x < size,
        0 <= y < size,
        forall|t: int| 0 <= t < pts.len() ==> pt_in_bounds(#[trigger] pts[t], size),
    ensures
        stamp_points(cells, size, pts, pin).len() == cells.len(),
        stamp_points(cells, size, pts, pin)[x * size + y] == if pts.contains(
            ((x as i32), (y as i32)),
        ) {
            Cell::Metal { voltage: 0, pin: Some(pin) }
        } else {
            cells[x * size + y]
        },
    decreases pts.len(),
{
    lemma_idx_bound(size, x, y);
    if pts.len() > 0 {
        lemma_stamp_points_effect(cells, size, pts.drop_last(), pin, x, y);
        let p = pts.last();
        lemma_idx_bound(size, p.0 as int, p.1 as int);
        if p.0 == x && p.1 == y {
            assert(pts.contains(((x as i32), (y as i32)))) by {
                assert(pts[pts.len() - 1] == ((x as i32), (y as i32)));
            }
        } else {
            if p.0 * size + p.1 == x * size + y {
                lemma_idx_injective(size, p.0 as int, p.1 as int, x, y);
            }
            let xy = ((x as i32), (y as i32));
            assert(xy.0 as int == x && xy.1 as int == y);
            assert(p != xy);
            if pts.contains(xy) {
                let w = choose|w: int| 0 <= w < pts.len() && pts[w] == xy;
                assert(pts[pts.len() - 1] == p);
                assert(w < pts.len() - 1);
                assert(pts.drop_last()[w] == pts[w]);
                assert(pts.drop_last().contains(xy));
            } else {
                assert forall|w: int|
                    0 <= w < pts.drop_last().len() implies pts.drop_last()[w] != ((
                x as i32), (y as i32)) by {
                    assert(pts.drop_last()[w] == pts[w]);
                }
            }
        }
    }
}

/// If shapes `0 .. k` are placeable and shape `k` is not, placement reports
/// shape `k`'s error.
proof fn lemma_first_error(shapes: Seq<ConductorShape>, size: int, k: int)
    requires
        0 <= k < shapes.len(),
        forall|k2: int| 0 <= k2 < k ==> shape_error(#[trigger] shapes[k2], size) is None,
        shape_error(shapes[k], size) is Some,
    ensures
        placement_error(shapes, size) == shape_error(shapes[k], size),
    decreases k,
{
    if k > 0 {
        assert forall|k2: int|
            0 <= k2 < k - 1 implies shape_error(
            #[trigger] shapes.drop_first()[k2],
            size,
        ) is None by {
            assert(shapes.drop_first()[k2] == shapes[k2 + 1]);
        }
        assert(shapes.drop_first()[k - 1] == shapes[k]);
        lemma_first_error(shapes.drop_first(), size, k - 1);
    }
}

/// If every shape is placeable, placement reports no error.
proof fn lemma_no_error(shapes: Seq<ConductorShape>, size: int)
    requires
        forall|k2: int| 0 <= k2 < shapes.len() ==> shape_error(#[trigger] shapes[k2], size) is None,
    ensures
        placement_error(shapes, size) is None,
    decreases shapes.len(),
{
    if shapes.len() > 0 {
        assert forall|k2: int|
            0 <= k2 < shapes.len() - 1 implies shape_error(
            #[trigger] shapes.drop_first()[k2],
            size,
        ) is None by {
            assert(shapes.drop_first()[k2] == shapes[k2 + 1]);
        }
        lemma_no_error(shapes.drop_first(), size);
    }
}

/// Places the shapes on a fresh grid of the given dimension, in input order:
/// each shape is rasterized, given the next pin id (`0, 1, ...` in input
/// order), and stamped cell by cell, a later shape overwriting an earlier one
/// where they overlap. All-or-nothing: the first shape that is unsupported or
/// rasterizes off the grid fails the whole placement with its error, and no
/// grid is returned.
/// Writes `Metal { voltage: 0, pin }` at every point of `pts`, in order,
/// checking each point against the grid bounds first. Returns `false` as soon
/// as a point is off the grid (the cells already written stay written: the
/// caller discards the grid). Everything but `cells` is untouched.
fn stamp_shape(grid: &mut Grid, pts: &Vec<(i32, i32)>, pin: u16) -> (ok: bool)
    requires
        old(grid).wf(),
    ensures
        final(grid).wf(),
        final(grid).size == old(grid).size,
        final(grid).conductor_count == old(grid).conductor_count,
        final(grid).conductors == old(grid).conductors,
        ok ==> (forall|t: int|
            0 <= t < pts@.len() ==> pt_in_bounds(#[trigger] pts@[t], old(grid).size as int))
            && final(grid).cells@ == stamp_points(
            old(grid).cells@,
            old(grid).size as int,
            pts@,
            pin,
        ),
        !ok ==> exists|t: int|
            0 <= t < pts@.len() && !pt_in_bounds(#[trigger] pts@[t], old(grid).size as int),
{
    let size = grid.size;
    let ghost szi = size as int;
    let ghost snap = grid.cells@;
    let mut t: usize = 0;
    while t < pts.len()
        invariant
            1 <= size <= MAX_GRID_SIZE,
            szi == size as int,
            t <= pts@.len(),
            snap == old(grid).cells@,
            size == old(grid).size,
            snap.len() == size * size,
            grid.wf(),
            grid.size == size,
            grid.conductor_count == old(grid).conductor_count,
            grid.conductors == old(grid).conductors,
            grid.cells@ == stamp_points(snap, szi, pts@.take(t as int), pin),
            forall|t2: int| 0 <= t2 < t ==> pt_in_bounds(#[trigger] pts@[t2], szi),
        decreases pts@.len() - t,
    {
        let p = pts[t];
        if p.0 < 0 || p.0 >= size as i32 || p.1 < 0 || p.1 >= size as i32 {
            proof {
                assert(!pt_in_bounds(pts@[t as int], szi));
            }
            return false;
        }
        let xi = p.0 as usize;
        let yi = p.1 as usize;
        proof {
            lemma_idx_bound(szi, xi as int, yi as int);
            lemma_size_sq_bound(szi);
        }
        grid.cells[xi * size + yi] = Cell::Metal { voltage: 0, pin: Some(pin) };
        proof {
            assert(pts@.take(t + 1).drop_last() =~= pts@.take(t as int));
            assert(pts@.take(t + 1).last() == pts@[t as int]);
        }
        t = t + 1;
    }
    proof {
        assert(pts@.take(t as int) =~= pts@);
    }
    true
}

/// Appends every point of `pts` to the grid's conductor list, in order.
/// Everything but `conductors` is untouched.
fn append_conductors(grid: &mut Grid, pts: &Vec<(i32, i32)>)
    ensures
        final(grid).size == old(grid).size,
        final(grid).cells == old(grid).cells,
        final(grid).conductor_count == old(grid).conductor_count,
        final(grid).conductors@ == old(grid).conductors@ + pts@,
{
    let mut t: usize = 0;
    while t < pts.len()
        invariant
            t <= pts@.len(),
            grid.size == old(grid).size,
            grid.cells == old(grid).cells,
            grid.conductor_count == old(grid).conductor_count,
            grid.conductors@ == old(grid).conductors@ + pts@.take(t as int),
        decreases pts@.len() - t,
    {
        let p = pts[t];
        grid.conductors.push(p);
        proof {
            assert(grid.conductors@ =~= old(grid).conductors@ + pts@.take(t + 1));
        }
        t = t + 1;
    }
    proof {
        assert(old(grid).conductors@ + pts@.take(t as int) =~= old(grid).conductors@ + pts@);
    }
}

/// Stamping shape `k`'s in-bounds points with pin `k` over a grid that holds
/// the first `k` shapes yields the grid of the first `k + 1` shapes.
proof fn lemma_place_step(
    shapes: Seq<ConductorShape>,
    k: int,
    size: int,
    snap: Seq<Cell>,
    cells: Seq<Cell>,
    pts: Seq<(i32, i32)>,
    pin: u16,
)
    requires
        0 <= k < shapes.len() <= 65535,
        pin == k as u16,
        1 <= size <= MAX_GRID_SIZE,
        pts == shape_points(shapes[k]),
        snap.len() == size * size,
        forall|x: int, y: int|
            0 <= x < size && 0 <= y < size ==> #[trigger] snap[x * size + y] == stamped_cell(
                shapes.take(k),
                ((x as i32), (y as i32)),
            ),
        cells == stamp_points(snap, size, pts, pin),
        forall|t: int| 0 <= t < pts.len() ==> pt_in_bounds(#[trigger] pts[t], size),
    ensures
        cells.len() == size * size,
        forall|x: int, y: int|
            0 <= x < size && 0 <= y < size ==> #[trigger] cells[x * size + y] == stamped_cell(
                shapes.take(k + 1),
                ((x as i32), (y as i32)),
            ),
{
    let tk1 = shapes.take(k + 1);
    assert(tk1.drop_last() =~= shapes.take(k));
    assert(tk1.last() == shapes[k]);
    lemma_stamp_points_effect(snap, size, pts, pin, 0, 0);
    assert forall|x: int, y: int| 0 <= x < size && 0 <= y < size implies #[trigger] cells[x * size
        + y] == stamped_cell(tk1, ((x as i32), (y as i32))) by {
        lemma_stamp_points_effect(snap, size, pts, pin, x, y);
    }
}

/// The conductor list grows by exactly shape `k`'s points.
proof fn lemma_all_points_step(shapes: Seq<ConductorShape>, k: int)
    requires
        0 <= k < shapes.len(),
    ensures
        all_points(shapes.take(k + 1)) == all_points(shapes.take(k)) + shape_points(shapes[k]),
{
    let tk1 = shapes.take(k + 1);
    assert(tk1.drop_last() =~= shapes.take(k));
    assert(tk1.last() == shapes[k]);
}

/// Places the shapes on a fresh grid of the given dimension, in input order:
/// each shape is rasterized, given the next pin id (`0, 1, ...` in input
/// order), and stamped cell by cell, a later shape overwriting an earlier one
/// where they overlap. All-or-nothing: the first shape that is unsupported or
/// rasterizes off the grid fails the whole placement with its error, and no
/// grid is returned.
pub fn place_conductors_on_grid_sized(shapes: &Vec<ConductorShape>, size: usize) -> (r: Result<
    Grid,
    PlacementError,
>)
    requires
        1 <= size <= MAX_GRID_SIZE,
        shapes@.len() <= 65535,
    ensures
        match r {
            Ok(g) => {
                &&& placement_error(shapes@, size as int) is None
                &&& g.wf()
                &&& g.size == size
                &&& g.conductor_count == shapes@.len()
                &&& g.conductors@ == all_points(shapes@)
                &&& forall|x: int, y: int|
                    g.in_range(x, y) ==> g.spec_cell(x, y) == stamped_cell(
                        shapes@,
                        ((x as i32), (y as i32)),
                    )
            },
            Err(e) => placement_error(shapes@, size as int) == Some(e),
        },
{
    let ghost szi = size as int;
    let mut grid = Grid::new(size);
    let mut pins = PinAllocator::new();
    proof {
        assert forall|x: int, y: int| 0 <= x < szi && 0 <= y < szi implies #[trigger] grid.cells@[x
            * szi + y] == stamped_cell(shapes@.take(0), ((x as i32), (y as i32))) by {
            assert(grid.in_range(x, y));
            assert(grid.spec_cell(x, y) == (Cell::Air { potential: 0i64 }));
            assert(shapes@.take(0).len() == 0);
        }
    }
    let mut k: usize = 0;
    while k < shapes.len()
        invariant
            1 <= size <= MAX_GRID_SIZE,
            szi == size as int,
            shapes@.len() <= 65535,
            k <= shapes@.len(),
            pins.next == k,
            grid.wf(),
            grid.size == size,
            grid.conductor_count == k,
            grid.conductors@ == all_points(shapes@.take(k as int)),
            forall|x: int, y: int|
                0 <= x < szi && 0 <= y < szi ==> #[trigger] grid.cells@[x * szi + y]
                    == stamped_cell(shapes@.take(k as int), ((x as i32), (y as i32))),
            forall|k2: int| 0 <= k2 < k ==> shape_error(#[trigger] shapes@[k2], szi) is None,
        decreases shapes@.len() - k,
    {
        let s = shapes[k];
        let pts: Vec<(i32, i32)> = match s {
            ConductorShape::Line { p1, p2 } => {
                if p1.0 < 0 || p1.0 >= size as i32 || p1.1 < 0 || p1.1 >= size as i32 || p2.0 < 0
                    || p2.0 >= size as i32 || p2.1 < 0 || p2.1 >= size as i32 {
                    proof {
                        lemma_first_error(shapes@, szi, k as int);
                    }
                    return Err(PlacementError::CoordinateOutOfBounds);
                }
                create_line(p1, p2)
            },
            ConductorShape::Circle { origin, radius } => {
                if origin.0 < 0 || origin.0 >= size as i32 || origin.1 < 0 || origin.1
                    >= size as i32 || radius < 0 || radius > size as i32 {
                    proof {
                        lemma_first_error(shapes@, szi, k as int);
                    }
                    return Err(PlacementError::CoordinateOutOfBounds);
                }
                create_circle(origin, radius)
            },
            ConductorShape::HalfCircle { .. } => {
                proof {
                    lemma_first_error(shapes@, szi, k as int);
                }
                return Err(PlacementError::UnsupportedShape);
            },
            ConductorShape::Square { .. } => {
                proof {
                    lemma_first_error(shapes@, szi, k as int);
                }
                return Err(PlacementError::UnsupportedShape);
            },
        };
        let pin = pins.allocate();
        let ghost snap = grid.cells@;
        let ok = stamp_shape(&mut grid, &pts, pin);
        if !ok {
            proof {
                let bad = choose|t: int| 0 <= t < pts@.len() && !pt_in_bounds(#[trigger] pts@[t], szi);
                assert(shape_points(shapes@[k as int])[bad] == pts@[bad]);
                assert(!shape_in_bounds(shapes@[k as int], szi));
                lemma_first_error(shapes@, szi, k as int);
            }
            return Err(PlacementError::CoordinateOutOfBounds);
        }
        proof {
            lemma_place_step(shapes@, k as int, szi, snap, grid.cells@, pts@, pin);
            lemma_all_points_step(shapes@, k as int);
            assert(shape_in_bounds(shapes@[k as int], szi));
            assert(shape_error(shapes@[k as int], szi) is None);
        }
        grid.conductor_count = grid.conductor_count + 1;
        append_conductors(&mut grid, &pts);
        k = k + 1;
    }
    proof {
        assert(shapes@.take(k as int) =~= shapes@);
        lemma_no_error(shapes@, szi);
        assert forall|x: int, y: int| grid.in_range(x, y) implies grid.spec_cell(x, y)
            == stamped_cell(shapes@, ((x as i32), (y as i32))) by {
        }
    }
    Ok(grid)
}

/// [`place_conductors_on_grid_sized`] on the default grid dimension.
pub fn place_conductors_on_grid(shapes: &Vec<ConductorShape>) -> (r: Result<Grid, PlacementError>)
    requires
        shapes@.len() <= 65535,
    ensures
        match r {
            Ok(g) => {
                &&& placement_error(shapes@, GRID_SIZE as int) is None
                &&& g.wf()
                &&& g.size == GRID_SIZE
                &&& g.conductor_count == shapes@.len()
                &&& g.conductors@ == all_points(shapes@)
                &&& forall|x: int, y: int|
                    g.in_range(x, y) ==> g.spec_cell(x, y) == stamped_cell(
                        shapes@,
                        ((x as i32), (y as i32)),
                    )
            },
            Err(e) => placement_error(shapes@, GRID_SIZE as int) == Some(e),
        },
{
    place_conductors_on_grid_sized(shapes, GRID_SIZE)
}

} // verus!
