//! Merging wall tiles into few rectangular colliders.
//!
//! A level's wall tiles are first joined, row by row, into *plates* (maximal
//! horizontal runs), and plates of equal span in consecutive rows are then
//! stacked into rectangles. Every statement here is made over the set of wall
//! cells, pairs `(x, y)` of mathematical integers.
use std::collections::HashMap;
use std::collections::HashSet;
use vstd::prelude::*;

verus! {

broadcast use vstd::std_specs::hash::group_hash_axioms;

/// The position of a tile in its layer's grid.
#[derive(Copy, Clone, Debug, PartialEq, Eq, Hash, Structural)]
pub struct GridCoords {
    pub x: i32,
    pub y: i32,
}

/// A wide wall that is one tile tall: the columns `left..=right` of one row.
#[derive(Copy, Clone, Debug, PartialEq, Eq, Hash, Structural)]
pub struct Plate {
    pub left: i32,
    pub right: i32,
}

/// A wall of any size: the columns `left..=right` of the rows `bottom..=top`.
#[derive(Copy, Clone, Debug, PartialEq, Eq, Hash, Structural)]
pub struct Rect {
    pub left: i32,
    pub right: i32,
    pub top: i32,
    pub bottom: i32,
}

/// The cells of a `width` x `height` grid that `walls` marks as wall.
/// Coordinates outside the grid mark nothing.
pub open spec fn wall_cells(walls: Seq<GridCoords>, width: int, height: int) -> Set<(int, int)> {
    Set::new(
        |c: (int, int)|
            0 <= c.0 < width && 0 <= c.1 < height && exists|i: int|
                0 <= i < walls.len() && (#[trigger] walls[i]).x == c.0 && walls[i].y == c.1,
    )
}

/// Every cell of row `y` from `left` to `right` is a wall.
pub open spec fn is_run(cells: Set<(int, int)>, y: int, left: int, right: int) -> bool {
    left <= right && forall|x: int| left <= x <= right ==> #[trigger] cells.contains((x, y))
}

/// `left..=right` is a maximal run of wall cells in row `y`: it cannot be
/// widened on either side.
pub open spec fn is_plate(cells: Set<(int, int)>, y: int, left: int, right: int) -> bool {
    is_run(cells, y, left, right) && !cells.contains((left - 1, y)) && !cells.contains(
        (right + 1, y),
    )
}

/// Each row of `rect` is a plate of the rectangle's span, and the row below
/// its bottom is not: the stack cannot start any lower.
pub open spec fn is_open_rect(cells: Set<(int, int)>, rect: Rect) -> bool {
    &&& rect.bottom <= rect.top
    &&& forall|y: int|
        rect.bottom <= y <= rect.top ==> #[trigger] is_plate(
            cells,
            y,
            rect.left as int,
            rect.right as int,
        )
    &&& !is_plate(cells, rect.bottom - 1, rect.left as int, rect.right as int)
}

/// `rect` is a maximal stack of equal plates: it can grow neither down nor up.
pub open spec fn is_wall_rect(cells: Set<(int, int)>, rect: Rect) -> bool {
    is_open_rect(cells, rect) && !is_plate(
        cells,
        rect.top + 1,
        rect.left as int,
        rect.right as int,
    )
}

/// `plates` holds a plate with exactly this span.
pub open spec fn lists_plate(plates: Seq<Plate>, left: int, right: int) -> bool {
    exists|i: int|
        0 <= i < plates.len() && (#[trigger] plates[i]).left == left && plates[i].right == right
}

/// `rects` holds a rectangle with exactly this span of columns.
spec fn lists_span(rects: Seq<Rect>, left: int, right: int) -> bool {
    exists|i: int|
        0 <= i < rects.len() && (#[trigger] rects[i]).left == left && rects[i].right == right
}

/// Plates in scan order: each one ends before the next begins, with at least
/// one free column between them.
pub open spec fn plates_ordered(plates: Seq<Plate>) -> bool {
    forall|i: int, j: int|
        0 <= i < j < plates.len() ==> (#[trigger] plates[i]).right + 1 < (#[trigger] plates[j]).left
}

/// Some rectangle of `rects` covers the cell `(x, y)`.
pub open spec fn covered(rects: Seq<Rect>, x: int, y: int) -> bool {
    exists|i: int| 0 <= i < rects.len() && (#[trigger] rects[i]).covers(x, y)
}

/// The order in which rectangles are emitted: by the row in which they end,
/// and from left to right among those that end in the same row.
pub open spec fn emitted_before(a: Rect, b: Rect) -> bool {
    a.top < b.top || (a.top == b.top && a.left < b.left)
}

impl Rect {
    /// The cell `(x, y)` lies inside this rectangle.
    pub open spec fn covers(self, x: int, y: int) -> bool {
        self.left <= x <= self.right && self.bottom <= y <= self.top
    }

    /// The number of tiles from the left edge to the right edge.
    pub fn tiles_wide(&self) -> (n: i64)
        ensures
            n == self.right - self.left + 1,
    {
        self.right as i64 - self.left as i64 + 1
    }

    /// The number of tiles from the bottom edge to the top edge.
    pub fn tiles_high(&self) -> (n: i64)
        ensures
            n == self.top - self.bottom + 1,
    {
        self.top as i64 - self.bottom as i64 + 1
    }

    /// Twice the horizontal centre, in tiles from the level's left edge. The
    /// centre itself falls on half a tile whenever the width is odd.
    pub fn doubled_center_x(&self) -> (n: i64)
        ensures
            n == self.left + self.right + 1,
    {
        self.left as i64 + self.right as i64 + 1
    }

    /// Twice the vertical centre, in tiles from the level's bottom edge.
    pub fn doubled_center_y(&self) -> (n: i64)
        ensures
            n == self.bottom + self.top + 1,
    {
        self.bottom as i64 + self.top as i64 + 1
    }
}

/// The wall cells of one level, held for quick lookup.
pub struct WallGrid {
    width: i32,
    height: i32,
    occupied: HashSet<u64>,
}

/// The number under which the cell `(x, y)` is stored.
pub closed spec fn cell_key(x: int, y: int) -> int {
    y * 0x1_0000_0000 + x
}

impl WallGrid {
    /// The wall cells of this grid. All of them lie inside it.
    pub closed spec fn cells(&self) -> Set<(int, int)> {
        Set::new(
            |c: (int, int)|
                0 <= c.0 < self.width && 0 <= c.1 < self.height && self.occupied@.contains(
                    cell_key(c.0, c.1) as u64,
                ),
        )
    }

    /// The number of columns.
    pub closed spec fn columns(&self) -> int {
        self.width as int
    }

    /// The number of rows.
    pub closed spec fn rows(&self) -> int {
        self.height as int
    }

    /// No cell outside the grid is a wall.
    pub proof fn lemma_cells_in_grid(&self, x: int, y: int)
        requires
            self.cells().contains((x, y)),
        ensures
            0 <= x < self.columns(),
            0 <= y < self.rows(),
    {
    }

    /// Collects the wall tiles of a `width` x `height` grid. Tiles that lie
    /// outside the grid are left out; a tile named twice counts once.
    pub fn new(walls: &Vec<GridCoords>, width: i32, height: i32) -> (grid: WallGrid)
        ensures
            grid.cells() == wall_cells(walls@, width as int, height as int),
            grid.columns() == width,
            grid.rows() == height,
    {
        let mut grid = WallGrid { width, height, occupied: HashSet::new() };
        let mut n: usize = 0;
        while n < walls.len()
            invariant
                n <= walls.len(),
                grid.width == width,
                grid.height == height,
                grid.cells() =~= wall_cells(walls@.take(n as int), width as int, height as int),
            decreases walls.len() - n,
        {
            let tile = walls[n];
            let ghost before = grid.cells();
            if 0 <= tile.x && tile.x < width && 0 <= tile.y && tile.y < height {
                let key: u64 = (tile.y as u64) * 0x1_0000_0000 + (tile.x as u64);
                grid.occupied.insert(key);
                assert(key == cell_key(tile.x as int, tile.y as int));
            }
            proof {
                let shorter = walls@.take(n as int);
                let longer = walls@.take(n as int + 1);
                assert(longer == shorter.push(tile));
                assert forall|c: (int, int)|
                    grid.cells().contains(c) <==> wall_cells(
                        longer,
                        width as int,
                        height as int,
                    ).contains(c) by {
                    if wall_cells(longer, width as int, height as int).contains(c) {
                        let i = choose|i: int|
                            0 <= i < longer.len() && (#[trigger] longer[i]).x == c.0 && longer[i].y
                                == c.1;
                        if i < n {
                            assert(shorter[i] == longer[i]);
                            assert(before.contains(c));
                        }
                    }
                    if grid.cells().contains(c) {
                        if before.contains(c) {
                            let i = choose|i: int|
                                0 <= i < shorter.len() && (#[trigger] shorter[i]).x == c.0
                                    && shorter[i].y == c.1;
                            assert(longer[i] == shorter[i]);
                        } else {
                            assert(longer[n as int] == tile);
                        }
                    }
                }
            }
            n = n + 1;
        }
        assert(walls@.take(n as int) == walls@);
        grid
    }

    /// Whether the cell `(x, y)` is a wall.
    pub fn is_wall(&self, x: i32, y: i32) -> (wall: bool)
        ensures
            wall == self.cells().contains((x as int, y as int)),
    {
        if 0 <= x && x < self.width && 0 <= y && y < self.height {
            let key: u64 = (y as u64) * 0x1_0000_0000 + (x as u64);
            assert(key == cell_key(x as int, y as int));
            self.occupied.contains(&key)
        } else {
            false
        }
    }
}

/// Two plates of one row that share a column are the same plate.
pub proof fn lemma_plates_sharing_a_cell(
    cells: Set<(int, int)>,
    y: int,
    l1: int,
    r1: int,
    l2: int,
    r2: int,
    x: int,
)
    requires
        is_plate(cells, y, l1, r1),
        is_plate(cells, y, l2, r2),
        l1 <= x <= r1,
        l2 <= x <= r2,
    ensures
        l1 == l2,
        r1 == r2,
{
    if l1 < l2 {
        assert(cells.contains((l2 - 1, y)));
    }
    if l2 < l1 {
        assert(cells.contains((l1 - 1, y)));
    }
    if r1 < r2 {
        assert(cells.contains((r1 + 1, y)));
    }
    if r2 < r1 {
        assert(cells.contains((r2 + 1, y)));
    }
}

/// The plates of row `y`, from left to right.
///
/// The scan runs one column past the right edge, where no cell is a wall, so
/// that a run touching the edge is closed like any other.
pub fn row_plates(grid: &WallGrid, y: i32) -> (plates: Vec<Plate>)
    ensures
        forall|l: int, r: int|
            is_plate(grid.cells(), y as int, l, r) <==> lists_plate(plates@, l, r),
        plates_ordered(plates@),
        forall|i: int| 0 <= i < plates.len() ==> 0 <= (#[trigger] plates[i]).left <= plates[i].right,
        forall|x: int|
            grid.cells().contains((x, y as int)) ==> exists|i: int|
                0 <= i < plates.len() && (#[trigger] plates[i]).left <= x <= plates[i].right,
{
    let ghost cells = grid.cells();
    let width: i32 = if grid.width < 0 {
        0
    } else {
        grid.width
    };
    let mut plates: Vec<Plate> = Vec::new();
    let mut plate_start: Option<i32> = None;
    let mut x: i32 = 0;
    proof {
        assert forall|l: int, r: int| is_plate(cells, y as int, l, r) implies r >= 0 by {
            assert(cells.contains((r, y as int)));
            grid.lemma_cells_in_grid(r, y as int);
        }
    }
    while x < width
        invariant
            0 <= x <= width,
            width == if grid.width < 0 { 0 } else { grid.width as int },
            cells == grid.cells(),
            match plate_start {
                Some(s) => 0 <= s < x && is_run(cells, y as int, s as int, x - 1)
                    && !cells.contains((s - 1, y as int)),
                None => !cells.contains((x - 1, y as int)),
            },
            forall|l: int, r: int|
                (is_plate(cells, y as int, l, r) && r + 1 < x) <==> lists_plate(plates@, l, r),
            plates_ordered(plates@),
            forall|i: int|
                0 <= i < plates.len() ==> (#[trigger] plates[i]).right + 1 < match plate_start {
                    Some(s) => s as int,
                    None => x as int,
                },
            forall|c: int|
                c < x && cells.contains((c, y as int)) ==> (match plate_start {
                    Some(s) => s <= c,
                    None => false,
                }) || exists|i: int|
                    0 <= i < plates.len() && (#[trigger] plates[i]).left <= c <= plates[i].right,
        decreases width - x,
    {
        let wall = grid.is_wall(x, y);
        let ghost old_plates = plates@;
        match (plate_start, wall) {
            (Some(s), false) => {
                let plate = Plate { left: s, right: x - 1 };
                plates.push(plate);
                plate_start = None;
                proof {
                    assert(plates@[old_plates.len() as int] == plate);
                    assert(is_plate(cells, y as int, s as int, x - 1));
                    assert forall|l: int, r: int|
                        (is_plate(cells, y as int, l, r) && r + 1 < x + 1) <==> lists_plate(
                            plates@,
                            l,
                            r,
                        ) by {
                        if is_plate(cells, y as int, l, r) && r + 1 < x + 1 {
                            if r + 1 < x {
                                assert(lists_plate(old_plates, l, r));
                                let i = choose|i: int|
                                    0 <= i < old_plates.len() && (#[trigger] old_plates[i]).left
                                        == l && old_plates[i].right == r;
                                assert(plates@[i] == old_plates[i]);
                            } else {
                                lemma_plates_sharing_a_cell(
                                    cells,
                                    y as int,
                                    l,
                                    r,
                                    s as int,
                                    x - 1,
                                    x - 1,
                                );
                            }
                        }
                        if lists_plate(plates@, l, r) {
                            let i = choose|i: int|
                                0 <= i < plates.len() && (#[trigger] plates[i]).left == l
                                    && plates[i].right == r;
                            if i < old_plates.len() {
                                assert(plates@[i] == old_plates[i]);
                                assert(lists_plate(old_plates, l, r));
                            }
                        }
                    }
                    assert forall|c: int| c < x + 1 && cells.contains((c, y as int)) implies exists|
                        i: int,
                    |
                        0 <= i < plates.len() && (#[trigger] plates[i]).left <= c
                            <= plates[i].right by {
                        if s <= c {
                            assert(plates[old_plates.len() as int].left <= c);
                        } else {
                            let i = choose|i: int|
                                0 <= i < old_plates.len() && (#[trigger] old_plates[i]).left <= c
                                    <= old_plates[i].right;
                            assert(plates@[i] == old_plates[i]);
                        }
                    }
                }
            },
            (None, true) => {
                plate_start = Some(x);
                proof {
                    assert forall|l: int, r: int|
                        (is_plate(cells, y as int, l, r) && r + 1 < x + 1) implies r + 1 < x by {
                        if r + 1 == x {
                            assert(cells.contains((r, y as int)));
                        }
                    }
                }
            },
            (Some(s), true) => {
                proof {
                    assert forall|l: int, r: int|
                        (is_plate(cells, y as int, l, r) && r + 1 < x + 1) implies r + 1 < x by {
                    }
                }
            },
            (None, false) => {
                proof {
                    assert forall|l: int, r: int|
                        (is_plate(cells, y as int, l, r) && r + 1 < x + 1) implies r + 1 < x by {
                        if r + 1 == x {
                            assert(cells.contains((r, y as int)));
                        }
                    }
                }
            },
        }
        x = x + 1;
    }
    let ghost old_plates = plates@;
    proof {
        assert(!cells.contains((x as int, y as int))) by {
            if cells.contains((x as int, y as int)) {
                grid.lemma_cells_in_grid(x as int, y as int);
            }
        }
    }
    if let Some(s) = plate_start {
        let plate = Plate { left: s, right: x - 1 };
        plates.push(plate);
        proof {
            assert(plates@[old_plates.len() as int] == plate);
            assert(is_plate(cells, y as int, s as int, x - 1));
        }
    }
    proof {
        assert forall|l: int, r: int| is_plate(cells, y as int, l, r) implies lists_plate(
            plates@,
            l,
            r,
        ) by {
            assert(cells.contains((r, y as int)));
            grid.lemma_cells_in_grid(r, y as int);
            if r + 1 < x {
                assert(lists_plate(old_plates, l, r));
                let i = choose|i: int|
                    0 <= i < old_plates.len() && (#[trigger] old_plates[i]).left == l
                        && old_plates[i].right == r;
                assert(plates@[i] == old_plates[i]);
            } else {
                match plate_start {
                    Some(s) => {
                        lemma_plates_sharing_a_cell(cells, y as int, l, r, s as int, x - 1, x - 1);
                        assert(plates@[old_plates.len() as int].left == l);
                    },
                    None => {},
                }
            }
        }
        assert forall|l: int, r: int| lists_plate(plates@, l, r) implies is_plate(
            cells,
            y as int,
            l,
            r,
        ) by {
            let i = choose|i: int|
                0 <= i < plates.len() && (#[trigger] plates[i]).left == l && plates[i].right == r;
            if i < old_plates.len() {
                assert(plates@[i] == old_plates[i]);
                assert(lists_plate(old_plates, l, r));
            }
        }
        assert forall|i: int| 0 <= i < plates.len() implies 0 <= (#[trigger] plates[i]).left
            <= plates[i].right by {
            assert(lists_plate(plates@, plates[i].left as int, plates[i].right as int));
            assert(is_plate(cells, y as int, plates[i].left as int, plates[i].right as int));
            assert(cells.contains((plates[i].left as int, y as int)));
            grid.lemma_cells_in_grid(plates[i].left as int, y as int);
        }
        assert forall|c: int| cells.contains((c, y as int)) implies exists|i: int|
            0 <= i < plates.len() && (#[trigger] plates[i]).left <= c <= plates[i].right by {
            grid.lemma_cells_in_grid(c, y as int);
            match plate_start {
                Some(s) => {
                    if s <= c {
                        assert(plates[old_plates.len() as int].left <= c);
                    } else {
                        let i = choose|i: int|
                            0 <= i < old_plates.len() && (#[trigger] old_plates[i]).left <= c
                                <= old_plates[i].right;
                        assert(plates@[i] == old_plates[i]);
                    }
                },
                None => {},
            }
        }
    }
    plates
}

/// Two stacks of plates with the same span and the same top row, neither of
/// which can start lower, start in the same row.
proof fn lemma_same_bottom(cells: Set<(int, int)>, a: Rect, b: Rect)
    requires
        is_open_rect(cells, a),
        is_open_rect(cells, b),
        a.left == b.left,
        a.right == b.right,
        a.top == b.top,
    ensures
        a == b,
{
    if a.bottom < b.bottom {
        assert(is_plate(cells, b.bottom - 1, a.left as int, a.right as int));
    }
    if b.bottom < a.bottom {
        assert(is_plate(cells, a.bottom - 1, b.left as int, b.right as int));
    }
}

/// Two maximal stacks that share a cell are the same rectangle.
pub proof fn lemma_wall_rects_sharing_a_cell(
    cells: Set<(int, int)>,
    a: Rect,
    b: Rect,
    x: int,
    y: int,
)
    requires
        is_wall_rect(cells, a),
        is_wall_rect(cells, b),
        a.covers(x, y),
        b.covers(x, y),
    ensures
        a == b,
{
    assert(is_plate(cells, y, a.left as int, a.right as int));
    assert(is_plate(cells, y, b.left as int, b.right as int));
    lemma_plates_sharing_a_cell(
        cells,
        y,
        a.left as int,
        a.right as int,
        b.left as int,
        b.right as int,
        x,
    );
    if a.top < b.top {
        assert(is_plate(cells, a.top + 1, b.left as int, b.right as int));
    }
    if b.top < a.top {
        assert(is_plate(cells, b.top + 1, a.left as int, a.right as int));
    }
    lemma_same_bottom(cells, a, b);
}

/// The state of the stacking pass once the rows up to `last` are done:
/// `open` holds the stacks that reach row `last`, one for each of its plates
/// and in their order, and `done` holds every rectangle that ended below it.
spec fn stacked_through(
    cells: Set<(int, int)>,
    last: int,
    open: Seq<Rect>,
    done: Seq<Rect>,
) -> bool {
    &&& forall|i: int, j: int|
        0 <= i < j < open.len() ==> (#[trigger] open[i]).left < (#[trigger] open[j]).left
    &&& forall|i: int|
        0 <= i < open.len() ==> (#[trigger] open[i]).top == last && is_open_rect(cells, open[i])
    &&& forall|l: int, r: int| #[trigger] is_plate(cells, last, l, r) ==> lists_span(open, l, r)
    &&& forall|i: int|
        0 <= i < done.len() ==> is_wall_rect(cells, #[trigger] done[i]) && done[i].top < last
    &&& forall|rect: Rect|
        #[trigger] is_wall_rect(cells, rect) && rect.top < last ==> done.contains(rect)
    &&& forall|i: int, j: int|
        0 <= i < j < done.len() ==> emitted_before(#[trigger] done[i], #[trigger] done[j])
    &&& forall|x: int, r: int|
        r <= last && #[trigger] cells.contains((x, r)) ==> covered(done, x, r) || covered(
            open,
            x,
            r,
        )
}

/// What `next` must be for the plates of row `y`, given the stacks `open`
/// that reach the row below: a plate that continues a stack takes over its
/// bottom, any other starts a stack of its own.
spec fn continues_stacks(
    open: Seq<Rect>,
    plates: Seq<Plate>,
    y: int,
    next: Seq<Rect>,
) -> bool {
    &&& next.len() == plates.len()
    &&& forall|j: int|
        0 <= j < next.len() ==> {
            &&& (#[trigger] next[j]).left == plates[j].left
            &&& next[j].right == plates[j].right
            &&& next[j].top == y
            &&& if lists_span(open, plates[j].left as int, plates[j].right as int) {
                exists|i: int|
                    0 <= i < open.len() && (#[trigger] open[i]).left == plates[j].left
                        && open[i].right == plates[j].right && next[j].bottom == open[i].bottom
            } else {
                next[j].bottom == y
            }
        }
}

/// What `closed` must be: the stacks of `open` that no plate of the new row
/// continues, in their order.
spec fn ends_stacks(open: Seq<Rect>, plates: Seq<Plate>, closed: Seq<Rect>) -> bool {
    &&& forall|a: int|
        0 <= a < closed.len() ==> open.contains(#[trigger] closed[a]) && !lists_plate(
            plates,
            closed[a].left as int,
            closed[a].right as int,
        )
    &&& forall|i: int|
        0 <= i < open.len() && !lists_plate(
            plates,
            (#[trigger] open[i]).left as int,
            open[i].right as int,
        ) ==> closed.contains(open[i])
    &&& (forall|i: int, j: int|
        0 <= i < j < open.len() ==> (#[trigger] open[i]).left < (#[trigger] open[j]).left)
        ==> forall|a: int, b: int|
        0 <= a < b < closed.len() ==> (#[trigger] closed[a]).left < (#[trigger] closed[b]).left
}

/// The number under which a span of columns is stored.
spec fn span_key(left: int, right: int) -> int {
    left * 0x1_0000_0000 + right
}

/// `by_span` holds the rectangles of `rects` and no others, each under the
/// number of its span.
spec fn indexes(by_span: Map<u64, Rect>, rects: Seq<Rect>) -> bool {
    &&& forall|i: int|
        0 <= i < rects.len() ==> {
            &&& 0 <= (#[trigger] rects[i]).left
            &&& 0 <= rects[i].right
            &&& by_span.contains_key(span_key(rects[i].left as int, rects[i].right as int) as u64)
            &&& by_span[span_key(rects[i].left as int, rects[i].right as int) as u64] == rects[i]
        }
    &&& forall|k: u64| #[trigger]
        by_span.contains_key(k) ==> exists|i: int|
            0 <= i < rects.len() && k == span_key(
                (#[trigger] rects[i]).left as int,
                rects[i].right as int,
            )
}

/// Some plate of `plates` has the span that is stored under `k`.
spec fn holds_key(plates: Seq<Plate>, k: u64) -> bool {
    exists|j: int|
        0 <= j < plates.len() && k == span_key(
            (#[trigger] plates[j]).left as int,
            plates[j].right as int,
        )
}

/// The number under which the span `left..=right` is stored.
fn pack_span(left: i32, right: i32) -> (key: u64)
    requires
        0 <= left,
        0 <= right,
    ensures
        key == span_key(left as int, right as int),
{
    (left as u64) * 0x1_0000_0000 + (right as u64)
}

/// Stacks the plates of row `y` onto the stacks that reach the row below.
///
/// `previous` holds those stacks under their spans. Each plate takes the
/// stack of its own span out of it and continues it, or starts a stack of
/// its own; what is left in `previous` has ended. The result is the stacks
/// that reach row `y`, the same under their spans, and the stacks that
/// ended, in the order of `open`.
fn stack_plates(
    previous: &mut HashMap<u64, Rect>,
    open: &Vec<Rect>,
    plates: &Vec<Plate>,
    y: i32,
) -> (stacked: (Vec<Rect>, HashMap<u64, Rect>, Vec<Rect>))
    requires
        indexes(old(previous)@, open@),
        forall|i: int| 0 <= i < open.len() ==> (#[trigger] open[i]).top + 1 == y,
        plates_ordered(plates@),
        forall|j: int| 0 <= j < plates.len() ==> 0 <= (#[trigger] plates[j]).left <= plates[j].right,
    ensures
        continues_stacks(open@, plates@, y as int, stacked.0@),
        indexes(stacked.1@, stacked.0@),
        ends_stacks(open@, plates@, stacked.2@),
{
    let ghost start = previous@;
    let mut next: Vec<Rect> = Vec::new();
    let mut current: HashMap<u64, Rect> = HashMap::new();
    let mut j: usize = 0;
    while j < plates.len()
        invariant
            j <= plates.len(),
            indexes(start, open@),
            forall|i: int| 0 <= i < open.len() ==> (#[trigger] open[i]).top + 1 == y,
            plates_ordered(plates@),
            forall|n: int|
                0 <= n < plates.len() ==> 0 <= (#[trigger] plates[n]).left <= plates[n].right,
            continues_stacks(open@, plates@.take(j as int), y as int, next@),
            indexes(current@, next@),
            forall|k: u64| #[trigger]
                previous@.contains_key(k) <==> start.contains_key(k) && !holds_key(
                    plates@.take(j as int),
                    k,
                ),
            forall|k: u64| #[trigger] previous@.contains_key(k) ==> previous@[k] == start[k],
        decreases plates.len() - j,
    {
        let plate = plates[j];
        let key = pack_span(plate.left, plate.right);
        let ghost shorter = plates@.take(j as int);
        let ghost longer = plates@.take(j as int + 1);
        let ghost next_before = next@;
        let ghost current_before = current@;
        let ghost previous_before = previous@;
        let found = previous.remove(&key);
        proof {
            assert(!holds_key(shorter, key)) by {
                if holds_key(shorter, key) {
                    let n = choose|n: int|
                        0 <= n < shorter.len() && key == span_key(
                            (#[trigger] shorter[n]).left as int,
                            shorter[n].right as int,
                        );
                    assert(shorter[n] == plates[n]);
                    assert(plates[n].right + 1 < plates[j as int].left);
                }
            }
            assert(previous_before.contains_key(key) <==> start.contains_key(key));
            if start.contains_key(key) {
                let i = choose|i: int|
                    0 <= i < open.len() && key == span_key(
                        (#[trigger] open[i]).left as int,
                        open[i].right as int,
                    );
                assert(open[i].left == plate.left && open[i].right == plate.right);
                assert(start[key] == open[i]);
                assert(lists_span(open@, plate.left as int, plate.right as int));
            } else {
                if lists_span(open@, plate.left as int, plate.right as int) {
                    let i = choose|i: int|
                        0 <= i < open.len() && (#[trigger] open[i]).left == plate.left
                            && open[i].right == plate.right;
                    assert(start.contains_key(
                        span_key(open[i].left as int, open[i].right as int) as u64,
                    ));
                }
            }
        }
        let rect = match found {
            Some(below) => Rect {
                left: below.left,
                right: below.right,
                top: below.top + 1,
                bottom: below.bottom,
            },
            None => Rect { left: plate.left, right: plate.right, top: y, bottom: y },
        };
        next.push(rect);
        current.insert(key, rect);
        proof {
            assert(longer == shorter.push(plate));
            assert forall|n: int| 0 <= n < next.len() implies {
                &&& (#[trigger] next[n]).left == longer[n].left
                &&& next[n].right == longer[n].right
                &&& next[n].top == y
                &&& if lists_span(open@, longer[n].left as int, longer[n].right as int) {
                    exists|i: int|
                        0 <= i < open.len() && (#[trigger] open[i]).left == longer[n].left
                            && open[i].right == longer[n].right && next[n].bottom == open[i].bottom
                } else {
                    next[n].bottom == y
                }
            } by {
                if n < j {
                    assert(next[n] == next_before[n]);
                    assert(longer[n] == shorter[n]);
                } else {
                    assert(longer[n] == plate);
                }
            }
            assert forall|n: int| 0 <= n < next.len() implies {
                &&& 0 <= (#[trigger] next[n]).left
                &&& 0 <= next[n].right
                &&& current@.contains_key(span_key(next[n].left as int, next[n].right as int) as u64)
                &&& current@[span_key(next[n].left as int, next[n].right as int) as u64] == next[n]
            } by {
                if n < j {
                    assert(next[n] == next_before[n]);
                    assert(next_before[n].left == shorter[n].left);
                    assert(shorter[n] == plates[n]);
                    assert(plates[n].right + 1 < plates[j as int].left);
                }
            }
            assert forall|k: u64| #[trigger] current@.contains_key(k) implies exists|n: int|
                0 <= n < next.len() && k == span_key(
                    (#[trigger] next[n]).left as int,
                    next[n].right as int,
                ) by {
                if k == key {
                    assert(next[j as int] == rect);
                } else {
                    assert(current_before.contains_key(k));
                    let n = choose|n: int|
                        0 <= n < next_before.len() && k == span_key(
                            (#[trigger] next_before[n]).left as int,
                            next_before[n].right as int,
                        );
                    assert(next[n] == next_before[n]);
                }
            }
            assert forall|k: u64| #[trigger]
                previous@.contains_key(k) <==> start.contains_key(k) && !holds_key(longer, k) by {
                assert(previous@.contains_key(k) <==> previous_before.contains_key(k) && k != key);
                if holds_key(longer, k) {
                    let n = choose|n: int|
                        0 <= n < longer.len() && k == span_key(
                            (#[trigger] longer[n]).left as int,
                            longer[n].right as int,
                        );
                    if n < j {
                        assert(shorter[n] == longer[n]);
                        assert(holds_key(shorter, k));
                    }
                }
                if holds_key(shorter, k) {
                    let n = choose|n: int|
                        0 <= n < shorter.len() && k == span_key(
                            (#[trigger] shorter[n]).left as int,
                            shorter[n].right as int,
                        );
                    assert(longer[n] == shorter[n]);
                    assert(holds_key(longer, k));
                }
                if k == key {
                    assert(longer[j as int] == plate);
                    assert(holds_key(longer, k));
                }
            }
        }
        j = j + 1;
    }
    assert(plates@.take(j as int) == plates@);
    proof {
        assert forall|i: int| 0 <= i < open.len() implies (previous@.contains_key(
            span_key((#[trigger] open[i]).left as int, open[i].right as int) as u64,
        ) <==> !lists_plate(plates@, open[i].left as int, open[i].right as int)) by {
            let k = span_key(open[i].left as int, open[i].right as int) as u64;
            assert(start.contains_key(k));
            assert(previous@.contains_key(k) <==> !holds_key(plates@, k));
            if holds_key(plates@, k) {
                let n = choose|n: int|
                    0 <= n < plates.len() && k == span_key(
                        (#[trigger] plates[n]).left as int,
                        plates[n].right as int,
                    );
                assert(plates[n].left == open[i].left && plates[n].right == open[i].right);
            }
            if lists_plate(plates@, open[i].left as int, open[i].right as int) {
                let n = choose|n: int|
                    0 <= n < plates.len() && (#[trigger] plates[n]).left == open[i].left
                        && plates[n].right == open[i].right;
                assert(holds_key(plates@, k));
            }
        }
    }
    let mut closed: Vec<Rect> = Vec::new();
    let mut i: usize = 0;
    while i < open.len()
        invariant
            i <= open.len(),
            indexes(start, open@),
            forall|n: int|
                0 <= n < open.len() ==> (previous@.contains_key(
                    span_key((#[trigger] open[n]).left as int, open[n].right as int) as u64,
                ) <==> !lists_plate(plates@, open[n].left as int, open[n].right as int)),
            forall|a: int|
                0 <= a < closed.len() ==> (exists|k: int|
                    0 <= k < i && #[trigger] open[k] == closed[a]) && !lists_plate(
                    plates@,
                    (#[trigger] closed[a]).left as int,
                    closed[a].right as int,
                ),
            forall|k: int|
                0 <= k < i && !lists_plate(
                    plates@,
                    (#[trigger] open[k]).left as int,
                    open[k].right as int,
                ) ==> closed@.contains(open[k]),
            (forall|k: int, n: int|
                0 <= k < n < open.len() ==> (#[trigger] open[k]).left < (#[trigger] open[n]).left)
                ==> forall|a: int, b: int|
                0 <= a < b < closed.len() ==> (#[trigger] closed[a]).left < (
                #[trigger] closed[b]).left,
        decreases open.len() - i,
    {
        let rect = open[i];
        let ghost before = closed@;
        let key = pack_span(rect.left, rect.right);
        if previous.contains_key(&key) {
            closed.push(rect);
            proof {
                assert(closed[before.len() as int] == rect);
                assert forall|a: int| 0 <= a < closed.len() implies (exists|k: int|
                    0 <= k < i + 1 && #[trigger] open[k] == closed[a]) && !lists_plate(
                    plates@,
                    (#[trigger] closed[a]).left as int,
                    closed[a].right as int,
                ) by {
                    if a < before.len() {
                        assert(closed[a] == before[a]);
                        let k = choose|k: int| 0 <= k < i && #[trigger] open[k] == before[a];
                        assert(open[k] == closed[a]);
                    } else {
                        assert(open[i as int] == closed[a]);
                    }
                }
                assert forall|k: int|
                    0 <= k < i + 1 && !lists_plate(
                        plates@,
                        (#[trigger] open[k]).left as int,
                        open[k].right as int,
                    ) implies closed@.contains(open[k]) by {
                    if k < i {
                        let a = choose|a: int| 0 <= a < before.len() && before[a] == open[k];
                        assert(closed[a] == open[k]);
                    }
                }
                if forall|k: int, n: int|
                    0 <= k < n < open.len() ==> (#[trigger] open[k]).left < (
                    #[trigger] open[n]).left {
                    assert forall|a: int, b: int| 0 <= a < b < closed.len() implies (
                    #[trigger] closed[a]).left < (#[trigger] closed[b]).left by {
                        assert(closed[a] == before[a]);
                        if b < before.len() {
                            assert(closed[b] == before[b]);
                        } else {
                            let k = choose|k: int| 0 <= k < i && #[trigger] open[k] == before[a];
                            assert(open[k].left < open[i as int].left);
                        }
                    }
                }
            }
        }
        i = i + 1;
    }
    proof {
        assert forall|a: int| 0 <= a < closed.len() implies open@.contains(#[trigger] closed[a]) by {
            let k = choose|k: int| 0 <= k < i && #[trigger] open[k] == closed[a];
        }
    }
    (next, current, closed)
}

/// One step of the stacking pass keeps its state in order: with the plates
/// of row `y` stacked onto the rows below, the rows up to `y` are done.
proof fn lemma_stack_step(
    cells: Set<(int, int)>,
    y: int,
    open: Seq<Rect>,
    done: Seq<Rect>,
    plates: Seq<Plate>,
    next: Seq<Rect>,
    closed: Seq<Rect>,
)
    requires
        stacked_through(cells, y - 1, open, done),
        forall|l: int, r: int| is_plate(cells, y, l, r) <==> lists_plate(plates, l, r),
        plates_ordered(plates),
        forall|x: int|
            cells.contains((x, y)) ==> exists|i: int|
                0 <= i < plates.len() && (#[trigger] plates[i]).left <= x <= plates[i].right,
        continues_stacks(open, plates, y, next),
        ends_stacks(open, plates, closed),
    ensures
        stacked_through(cells, y, next, done + closed),
{
    let all = done + closed;
    assert forall|j: int| 0 <= j < plates.len() implies is_plate(
        cells,
        y,
        (#[trigger] plates[j]).left as int,
        plates[j].right as int,
    ) by {
        assert(lists_plate(plates, plates[j].left as int, plates[j].right as int));
    }
    assert forall|i: int, j: int| 0 <= i < j < next.len() implies (#[trigger] next[i]).left < (
    #[trigger] next[j]).left by {
        assert(is_plate(cells, y, plates[i].left as int, plates[i].right as int));
        assert(plates[i].right + 1 < plates[j].left);
    }
    assert forall|j: int| 0 <= j < next.len() implies (#[trigger] next[j]).top == y
        && is_open_rect(cells, next[j]) by {
        let l = plates[j].left as int;
        let r = plates[j].right as int;
        assert(is_plate(cells, y, l, r));
        if lists_span(open, l, r) {
            let i = choose|i: int|
                0 <= i < open.len() && (#[trigger] open[i]).left == plates[j].left && open[i].right
                    == plates[j].right && next[j].bottom == open[i].bottom;
            assert(is_open_rect(cells, open[i]));
            assert forall|row: int| next[j].bottom <= row <= next[j].top implies #[trigger] is_plate(
                cells,
                row,
                next[j].left as int,
                next[j].right as int,
            ) by {
                if row < y {
                    assert(is_plate(cells, row, open[i].left as int, open[i].right as int));
                }
            }
        } else {
            assert(!is_plate(cells, y - 1, l, r));
        }
    }
    assert forall|l: int, r: int| #[trigger] is_plate(cells, y, l, r) implies lists_span(
        next,
        l,
        r,
    ) by {
        assert(lists_plate(plates, l, r));
        let j = choose|j: int|
            0 <= j < plates.len() && (#[trigger] plates[j]).left == l && plates[j].right == r;
        assert(next[j].left == l && next[j].right == r);
    }
    assert forall|a: int| 0 <= a < all.len() implies is_wall_rect(cells, #[trigger] all[a])
        && all[a].top < y by {
        if a < done.len() {
            assert(all[a] == done[a]);
        } else {
            let c = a - done.len();
            assert(all[a] == closed[c]);
            assert(open.contains(closed[c]));
            let i = choose|i: int| 0 <= i < open.len() && open[i] == closed[c];
            assert(is_open_rect(cells, open[i]));
        }
    }
    assert forall|rect: Rect| #[trigger] is_wall_rect(cells, rect) && rect.top < y implies all.contains(
        rect,
    ) by {
        if rect.top < y - 1 {
            assert(done.contains(rect));
            let a = choose|a: int| 0 <= a < done.len() && done[a] == rect;
            assert(all[a] == rect);
        } else {
            assert(is_plate(cells, rect.top as int, rect.left as int, rect.right as int));
            assert(lists_span(open, rect.left as int, rect.right as int));
            let i = choose|i: int|
                0 <= i < open.len() && (#[trigger] open[i]).left == rect.left && open[i].right
                    == rect.right;
            lemma_same_bottom(cells, open[i], rect);
            assert(!lists_plate(plates, open[i].left as int, open[i].right as int));
            assert(closed.contains(open[i]));
            let c = choose|c: int| 0 <= c < closed.len() && closed[c] == rect;
            assert(all[done.len() + c] == rect);
        }
    }
    assert forall|a: int, b: int| 0 <= a < b < all.len() implies emitted_before(
        #[trigger] all[a],
        #[trigger] all[b],
    ) by {
        if b < done.len() {
            assert(all[a] == done[a] && all[b] == done[b]);
        } else {
            let cb = b - done.len();
            assert(all[b] == closed[cb]);
            assert(open.contains(closed[cb]));
            let ib = choose|i: int| 0 <= i < open.len() && open[i] == closed[cb];
            assert(open[ib].top == y - 1);
            if a < done.len() {
                assert(all[a] == done[a]);
            } else {
                let ca = a - done.len();
                assert(all[a] == closed[ca]);
                assert(open.contains(closed[ca]));
                let ia = choose|i: int| 0 <= i < open.len() && open[i] == closed[ca];
                assert(open[ia].top == y - 1);
                assert(closed[ca].left < closed[cb].left);
            }
        }
    }
    assert forall|x: int, r: int| r <= y && #[trigger] cells.contains((x, r)) implies covered(
        all,
        x,
        r,
    ) || covered(next, x, r) by {
        if r == y {
            let j = choose|j: int|
                0 <= j < plates.len() && (#[trigger] plates[j]).left <= x <= plates[j].right;
            assert(is_open_rect(cells, next[j]));
            assert(next[j].covers(x, r));
        } else if covered(done, x, r) {
            let a = choose|a: int| 0 <= a < done.len() && (#[trigger] done[a]).covers(x, r);
            assert(all[a] == done[a]);
            assert(all[a].covers(x, r));
        } else {
            assert(covered(open, x, r));
            let i = choose|i: int| 0 <= i < open.len() && (#[trigger] open[i]).covers(x, r);
            let l = open[i].left as int;
            let rt = open[i].right as int;
            if lists_plate(plates, l, rt) {
                let j = choose|j: int|
                    0 <= j < plates.len() && (#[trigger] plates[j]).left == l && plates[j].right
                        == rt;
                assert(lists_span(open, l, rt));
                let k = choose|k: int|
                    0 <= k < open.len() && (#[trigger] open[k]).left == plates[j].left
                        && open[k].right == plates[j].right && next[j].bottom == open[k].bottom;
                lemma_same_bottom(cells, open[k], open[i]);
                assert(next[j].covers(x, r));
            } else {
                assert(closed.contains(open[i]));
                let c = choose|c: int| 0 <= c < closed.len() && closed[c] == open[i];
                assert(all[done.len() + c] == open[i]);
                assert(all[done.len() + c].covers(x, r));
            }
        }
    }
}

/// No cell is covered by two rectangles of `rects`.
pub open spec fn pairwise_disjoint(rects: Seq<Rect>) -> bool {
    forall|i: int, j: int, x: int, y: int|
        0 <= i < rects.len() && 0 <= j < rects.len() && i != j && #[trigger] rects[i].covers(x, y)
            ==> !#[trigger] rects[j].covers(x, y)
}

/// What the aggregation of a set of wall cells is: exactly the maximal
/// stacks of equal plates, each once, in the order in which they end.
pub open spec fn is_aggregation(rects: Seq<Rect>, cells: Set<(int, int)>) -> bool {
    &&& forall|rect: Rect| #[trigger] rects.contains(rect) <==> is_wall_rect(cells, rect)
    &&& forall|i: int, j: int|
        0 <= i < j < rects.len() ==> emitted_before(#[trigger] rects[i], #[trigger] rects[j])
}

/// The rectangles of an aggregation tile the wall cells: every wall cell is
/// covered, nothing else is, and no cell is covered twice.
pub proof fn lemma_aggregation_tiles(rects: Seq<Rect>, cells: Set<(int, int)>)
    requires
        is_aggregation(rects, cells),
    ensures
        forall|x: int, y: int| #[trigger] covered(rects, x, y) ==> cells.contains((x, y)),
        pairwise_disjoint(rects),
{
    assert forall|x: int, y: int| #[trigger] covered(rects, x, y) implies cells.contains(
        (x, y),
    ) by {
        let i = choose|i: int| 0 <= i < rects.len() && (#[trigger] rects[i]).covers(x, y);
        assert(rects.contains(rects[i]));
        assert(is_plate(cells, y, rects[i].left as int, rects[i].right as int));
    }
    assert forall|i: int, j: int, x: int, y: int|
        0 <= i < rects.len() && 0 <= j < rects.len() && i != j && #[trigger] rects[i].covers(
            x,
            y,
        ) implies !#[trigger] rects[j].covers(x, y) by {
        if rects[j].covers(x, y) {
            assert(rects.contains(rects[i]));
            assert(rects.contains(rects[j]));
            lemma_wall_rects_sharing_a_cell(cells, rects[i], rects[j], x, y);
            if i < j {
                assert(emitted_before(rects[i], rects[j]));
            } else {
                assert(emitted_before(rects[j], rects[i]));
            }
        }
    }
}

impl WallGrid {
    /// Stacks the plates of row `y` onto the stacks that reach the row below.
    fn stack_row(
        &self,
        y: i32,
        open: &mut Vec<Rect>,
        previous: &mut HashMap<u64, Rect>,
        done: &mut Vec<Rect>,
    )
        requires
            stacked_through(self.cells(), y - 1, old(open)@, old(done)@),
            indexes(old(previous)@, old(open)@),
        ensures
            stacked_through(self.cells(), y as int, final(open)@, final(done)@),
            indexes(final(previous)@, final(open)@),
    {
        let ghost open0 = open@;
        let ghost done0 = done@;
        let plates = row_plates(self, y);
        let (next, current, mut closed) = stack_plates(previous, open, &plates, y);
        let ghost closed0 = closed@;
        done.append(&mut closed);
        *open = next;
        *previous = current;
        proof {
            lemma_stack_step(self.cells(), y as int, open0, done0, plates@, open@, closed0);
        }
    }

    /// The collision rectangles of this grid.
    ///
    /// Rows are stacked from the bottom up, and one row past the top, where
    /// no cell is a wall, so that a stack touching the top edge is emitted
    /// like any other. The rectangles cover the wall cells and nothing else,
    /// and no two of them overlap.
    pub fn rectangles(&self) -> (rects: Vec<Rect>)
        ensures
            is_aggregation(rects@, self.cells()),
            forall|x: int, y: int| self.cells().contains((x, y)) <==> covered(rects@, x, y),
            pairwise_disjoint(rects@),
    {
        let ghost cells = self.cells();
        let height: i32 = if self.height < 0 {
            0
        } else {
            self.height
        };
        let mut done: Vec<Rect> = Vec::new();
        let mut open: Vec<Rect> = Vec::new();
        let mut previous: HashMap<u64, Rect> = HashMap::new();
        let mut y: i32 = 0;
        proof {
            assert forall|c: (int, int)| cells.contains(c) implies 0 <= c.1 < self.rows() by {
                self.lemma_cells_in_grid(c.0, c.1);
            }
            assert forall|l: int, r: int| !#[trigger] is_plate(cells, -1, l, r) by {
                if is_plate(cells, -1, l, r) {
                    assert(cells.contains((l, -1)));
                }
            }
            assert forall|rect: Rect| #[trigger] is_wall_rect(cells, rect) implies rect.top
                >= 0 by {
                assert(is_plate(cells, rect.top as int, rect.left as int, rect.right as int));
                assert(cells.contains((rect.left as int, rect.top as int)));
            }
        }
        while y < height
            invariant
                0 <= y <= height,
                height == if self.height < 0 { 0 } else { self.height as int },
                cells == self.cells(),
                stacked_through(cells, y - 1, open@, done@),
                indexes(previous@, open@),
            decreases height - y,
        {
            self.stack_row(y, &mut open, &mut previous, &mut done);
            y = y + 1;
        }
        self.stack_row(y, &mut open, &mut previous, &mut done);
        proof {
            assert forall|c: (int, int)| cells.contains(c) implies 0 <= c.1 < y by {
                self.lemma_cells_in_grid(c.0, c.1);
            }
            assert forall|rect: Rect| #[trigger] is_wall_rect(cells, rect) implies rect.top < y by {
                assert(is_plate(cells, rect.top as int, rect.left as int, rect.right as int));
                assert(cells.contains((rect.left as int, rect.top as int)));
            }
            assert forall|rect: Rect| #[trigger] done@.contains(rect) implies is_wall_rect(
                cells,
                rect,
            ) by {
                let a = choose|a: int| 0 <= a < done.len() && done[a] == rect;
            }
            assert(is_aggregation(done@, cells));
            lemma_aggregation_tiles(done@, cells);
            assert forall|x: int, r: int| cells.contains((x, r)) implies covered(done@, x, r) by {
                if covered(open@, x, r) {
                    let i = choose|i: int| 0 <= i < open.len() && (#[trigger] open[i]).covers(x, r);
                    assert(is_plate(cells, y as int, open[i].left as int, open[i].right as int));
                    assert(cells.contains((open[i].left as int, y as int)));
                }
            }
        }
        done
    }
}

/// The collision rectangles for the wall tiles of one level.
///
/// `walls` names the wall tiles of a grid of `width` columns and `height`
/// rows; a tile outside that grid contributes nothing, and naming a tile
/// twice changes nothing. Adjacent wall tiles of a row are joined into
/// plates, and plates of equal span in consecutive rows into rectangles.
/// The result covers exactly the wall tiles, without overlap.
pub fn wall_rectangles(walls: &Vec<GridCoords>, width: i32, height: i32) -> (rects: Vec<Rect>)
    ensures
        is_aggregation(rects@, wall_cells(walls@, width as int, height as int)),
        forall|x: int, y: int|
            wall_cells(walls@, width as int, height as int).contains((x, y)) <==> covered(
                rects@,
                x,
                y,
            ),
        pairwise_disjoint(rects@),
{
    let grid = WallGrid::new(walls, width, height);
    grid.rectangles()
}

} // verus!
