use vstd::prelude::*;
use crate::geometry::{Pos2, Vec2, Rect, POS_LIMIT, SIZE_LIMIT, coord_in_range, clamp_pos, clamp_coord, floor_div};
use crate::ids::WidgetId;

verus! {

/// A fixed grid of `rows` x `columns` cells separated by `spacing`.
#[derive(Debug, Clone, Copy)]
pub struct GridLayout {
    pub rows: usize,
    pub columns: usize,
    pub cell_size: Vec2,
    pub spacing: i64,
}

/// Index of the cell along one axis: `floor((v - spacing) / step)`, kept within `[0, n - 1]`.
pub open spec fn axis_cell(v: int, spacing: int, step: int, n: int) -> int {
    let q = (v - spacing) / step;
    if v < spacing {
        0
    } else if q > n - 1 {
        n - 1
    } else {
        q
    }
}

impl GridLayout {
    pub open spec fn step_x(&self) -> int {
        self.cell_size.x + self.spacing
    }

    pub open spec fn step_y(&self) -> int {
        self.cell_size.y + self.spacing
    }

    /// Extent of the grid along x: the far edge of the last column plus spacing.
    pub open spec fn width(&self) -> int {
        self.columns * self.step_x() + self.spacing
    }

    pub open spec fn height(&self) -> int {
        self.rows * self.step_y() + self.spacing
    }

    pub open spec fn wf(&self) -> bool {
        &&& self.rows >= 1
        &&& self.columns >= 1
        &&& self.cell_size.valid_size()
        &&& 0 <= self.spacing <= SIZE_LIMIT
        &&& self.width() <= POS_LIMIT
        &&& self.height() <= POS_LIMIT
    }

    pub open spec fn spec_cell_of(&self, p: Pos2) -> (usize, usize) {
        (
            axis_cell(p.y as int, self.spacing as int, self.step_y(), self.rows as int) as usize,
            axis_cell(p.x as int, self.spacing as int, self.step_x(), self.columns as int) as usize,
        )
    }

    pub open spec fn spec_cell_origin(&self, row: int, col: int) -> Pos2 {
        Pos2 {
            x: (col * self.step_x() + self.spacing) as i64,
            y: (row * self.step_y() + self.spacing) as i64,
        }
    }

    /// Four rows and six columns of 200 x 150 cells, 10 apart.
    pub fn default() -> (r: GridLayout)
        ensures
            r.rows == 4,
            r.columns == 6,
            r.cell_size == (Vec2 { x: 200, y: 150 }),
            r.spacing == 10,
            r.wf(),
    {
        GridLayout { rows: 4, columns: 6, cell_size: Vec2 { x: 200, y: 150 }, spacing: 10 }
    }

    /// The default cells and spacing with the given number of rows and columns.
    pub fn new(rows: usize, columns: usize) -> (r: GridLayout)
        requires
            1 <= rows,
            1 <= columns,
            rows * 160 + 10 <= POS_LIMIT,
            columns * 210 + 10 <= POS_LIMIT,
        ensures
            r.rows == rows,
            r.columns == columns,
            r.cell_size == (Vec2 { x: 200, y: 150 }),
            r.spacing == 10,
            r.wf(),
    {
        GridLayout { rows, columns, cell_size: Vec2 { x: 200, y: 150 }, spacing: 10 }
    }

    /// Top-left corner of the cell at `row`, `col`.
    pub fn get_cell_position(&self, row: usize, col: usize) -> (r: Pos2)
        requires
            self.wf(),
            row < self.rows,
            col < self.columns,
        ensures
            r == self.spec_cell_origin(row as int, col as int),
            r.valid(),
    {
        proof {
            assert(col * self.step_x() <= self.columns * self.step_x()) by (nonlinear_arith)
                requires col < self.columns, self.step_x() > 0;
            assert(row * self.step_y() <= self.rows * self.step_y()) by (nonlinear_arith)
                requires row < self.rows, self.step_y() > 0;
        }
        let sx = (self.cell_size.x + self.spacing) as u128;
        let sy = (self.cell_size.y + self.spacing) as u128;
        Pos2 {
            x: ((col as u128) * sx) as i64 + self.spacing,
            y: ((row as u128) * sy) as i64 + self.spacing,
        }
    }

    /// The cell (row, column) that holds `position`; points outside the grid
    /// go to the nearest edge cell.
    pub fn get_grid_cell(&self, position: Pos2) -> (r: (usize, usize))
        requires
            self.wf(),
        ensures
            r == self.spec_cell_of(position),
            r.0 < self.rows,
            r.1 < self.columns,
    {
        let col = axis_index(position.x, self.spacing, self.cell_size.x + self.spacing, self.columns);
        let row = axis_index(position.y, self.spacing, self.cell_size.y + self.spacing, self.rows);
        (row, col)
    }

    /// The top-left corner of the cell that holds `position`.
    pub fn snap_to_grid(&self, position: Pos2) -> (r: Pos2)
        requires
            self.wf(),
        ensures
            r == self.spec_cell_origin(
                self.spec_cell_of(position).0 as int,
                self.spec_cell_of(position).1 as int,
            ),
    {
        let (row, col) = self.get_grid_cell(position);
        self.get_cell_position(row, col)
    }
}

fn axis_index(v: i64, spacing: i64, step: i64, n: usize) -> (r: usize)
    requires
        0 <= spacing,
        0 < step,
        1 <= n,
    ensures
        r == axis_cell(v as int, spacing as int, step as int, n as int),
        r < n,
{
    if v < spacing {
        0
    } else {
        let q: u128 = ((v as i128 - spacing as i128) as u128) / (step as u128);
        if q > (n - 1) as u128 {
            n - 1
        } else {
            q as usize
        }
    }
}

/// A cell's corner maps back to that cell.
pub proof fn lemma_cell_round_trip(g: GridLayout, row: usize, col: usize)
    requires
        g.wf(),
        row < g.rows,
        col < g.columns,
    ensures
        g.spec_cell_of(g.spec_cell_origin(row as int, col as int)) == (row, col),
{
    assert(col * g.step_x() <= g.columns * g.step_x()) by (nonlinear_arith)
        requires col < g.columns, g.step_x() > 0;
    assert(row * g.step_y() <= g.rows * g.step_y()) by (nonlinear_arith)
        requires row < g.rows, g.step_y() > 0;
    assert((col * g.step_x()) / g.step_x() == col) by (nonlinear_arith)
        requires g.step_x() > 0, col >= 0;
    assert((row * g.step_y()) / g.step_y() == row) by (nonlinear_arith)
        requires g.step_y() > 0, row >= 0;
}

proof fn lemma_axis_near(v: int, spacing: int, step: int, n: int)
    requires
        0 <= spacing < step,
        1 <= n,
        0 <= v <= n * step + spacing,
    ensures
        ({
            let o = axis_cell(v, spacing, step, n) * step + spacing;
            -step <= v - o <= step
        }),
{
    if v >= spacing {
        let q = (v - spacing) / step;
        vstd::arithmetic::div_mod::lemma_fundamental_div_mod(v - spacing, step);
        assert(0 <= (v - spacing) % step < step);
        assert(q * step <= v - spacing < q * step + step) by (nonlinear_arith)
            requires v - spacing == step * q + (v - spacing) % step, 0 <= (v - spacing) % step < step;
        assert(q >= 0) by (nonlinear_arith)
            requires q == (v - spacing) / step, v - spacing >= 0, step > 0;
        if q > n - 1 {
            assert(q <= n) by (nonlinear_arith)
                requires q * step <= v - spacing, v - spacing <= n * step, step > 0;
            assert((n - 1) * step + step == n * step) by (nonlinear_arith);
        }
    }
}

/// A point inside the grid's extent lies within one cell step of the corner
/// of the cell that it maps to.
pub proof fn lemma_cell_origin_near_point(g: GridLayout, p: Pos2)
    requires
        g.wf(),
        0 <= p.x <= g.width(),
        0 <= p.y <= g.height(),
    ensures
        ({
            let c = g.spec_cell_of(p);
            let o = g.spec_cell_origin(c.0 as int, c.1 as int);
            &&& -g.step_x() <= p.x - o.x <= g.step_x()
            &&& -g.step_y() <= p.y - o.y <= g.step_y()
        }),
{
    lemma_axis_near(p.x as int, g.spacing as int, g.step_x(), g.columns as int);
    lemma_axis_near(p.y as int, g.spacing as int, g.step_y(), g.rows as int);
    let c = g.spec_cell_of(p);
    assert(c.1 * g.step_x() <= g.columns * g.step_x()) by (nonlinear_arith)
        requires c.1 < g.columns, g.step_x() > 0;
    assert(c.0 * g.step_y() <= g.rows * g.step_y()) by (nonlinear_arith)
        requires c.0 < g.rows, g.step_y() > 0;
}

/// One widget's identity, position and size, as the layout operations see it.
pub type Placement = (WidgetId, Pos2, Vec2);

pub open spec fn placement_valid(p: Placement) -> bool {
    p.1.valid() && p.2.valid_size()
}

pub open spec fn placements_valid(s: Seq<Placement>) -> bool {
    forall|i: int| 0 <= i < s.len() ==> #[trigger] placement_valid(s[i])
}

#[derive(Debug, Clone, Copy, PartialEq, Eq, Structural)]
pub enum Alignment {
    Left,
    Right,
    Top,
    Bottom,
    CenterHorizontal,
    CenterVertical,
}

/// How the designer places widgets.
#[derive(Debug, Clone, Copy)]
pub enum LayoutMode {
    FreeForm,
    Grid(GridLayout),
    Auto,
}

impl LayoutMode {
    pub fn default() -> (r: LayoutMode)
        ensures
            r is FreeForm,
    {
        LayoutMode::FreeForm
    }
}

pub open spec fn is_horizontal(a: Alignment) -> bool {
    a is Left || a is Right || a is CenterHorizontal
}

pub open spec fn coord(p: Pos2, h: bool) -> int {
    if h { p.x as int } else { p.y as int }
}

pub open spec fn extent(v: Vec2, h: bool) -> int {
    if h { v.x as int } else { v.y as int }
}

pub open spec fn with_coord(p: Pos2, h: bool, v: int) -> Pos2 {
    if h { Pos2 { x: v as i64, y: p.y } } else { Pos2 { x: p.x, y: v as i64 } }
}

/// Smallest start coordinate among the first `k` placements.
pub open spec fn min_start(s: Seq<Placement>, k: int, h: bool) -> int
    decreases k,
{
    if k <= 1 {
        coord(s[0].1, h)
    } else {
        let m = min_start(s, k - 1, h);
        let c = coord(s[k - 1].1, h);
        if c < m { c } else { m }
    }
}

/// Largest end coordinate (start plus extent) among the first `k` placements.
pub open spec fn max_end(s: Seq<Placement>, k: int, h: bool) -> int
    decreases k,
{
    if k <= 1 {
        coord(s[0].1, h) + extent(s[0].2, h)
    } else {
        let m = max_end(s, k - 1, h);
        let c = coord(s[k - 1].1, h) + extent(s[k - 1].2, h);
        if c > m { c } else { m }
    }
}

/// Sum of the doubled centers (`2 * start + extent`) of the first `k` placements.
pub open spec fn center2_sum(s: Seq<Placement>, k: int, h: bool) -> int
    decreases k,
{
    if k <= 0 {
        0
    } else {
        center2_sum(s, k - 1, h) + 2 * coord(s[k - 1].1, h) + extent(s[k - 1].2, h)
    }
}

/// The start coordinate that `align_widgets` gives to the placement at `i`.
pub open spec fn aligned_start(s: Seq<Placement>, a: Alignment, i: int) -> int {
    let h = is_horizontal(a);
    let n = s.len() as int;
    let e = extent(s[i].2, h);
    match a {
        Alignment::Left | Alignment::Top => min_start(s, n, h),
        Alignment::Right | Alignment::Bottom => clamp_pos(max_end(s, n, h) - e),
        _ => clamp_pos((center2_sum(s, n, h) / n - e) / 2),
    }
}

pub open spec fn aligned(s: Seq<Placement>, a: Alignment) -> Seq<Placement> {
    Seq::new(
        s.len(),
        |i: int| (s[i].0, with_coord(s[i].1, is_horizontal(a), aligned_start(s, a, i)), s[i].2),
    )
}

proof fn lemma_min_start_bounds(s: Seq<Placement>, k: int, h: bool)
    requires
        1 <= k <= s.len(),
        placements_valid(s),
    ensures
        coord_in_range(min_start(s, k, h)),
        forall|j: int| 0 <= j < k ==> min_start(s, k, h) <= coord(#[trigger] s[j].1, h),
        exists|j: int| 0 <= j < k && min_start(s, k, h) == coord(#[trigger] s[j].1, h),
    decreases k,
{
    assert(placement_valid(s[k - 1]));
    if k > 1 {
        lemma_min_start_bounds(s, k - 1, h);
        let j0 = choose|j: int| 0 <= j < k - 1 && min_start(s, k - 1, h) == coord(#[trigger] s[j].1, h);
        if coord(s[k - 1].1, h) < min_start(s, k - 1, h) {
            assert(min_start(s, k, h) == coord(s[k - 1].1, h));
        } else {
            assert(min_start(s, k, h) == coord(s[j0].1, h));
        }
    } else {
        assert(min_start(s, k, h) == coord(s[0].1, h));
    }
}

proof fn lemma_max_end_bounds(s: Seq<Placement>, k: int, h: bool)
    requires
        1 <= k <= s.len(),
        placements_valid(s),
    ensures
        -POS_LIMIT < max_end(s, k, h) <= POS_LIMIT + SIZE_LIMIT,
        forall|j: int| 0 <= j < k ==> coord(#[trigger] s[j].1, h) + extent(s[j].2, h) <= max_end(s, k, h),
    decreases k,
{
    assert(placement_valid(s[k - 1]));
    assert(placement_valid(s[0]));
    if k > 1 {
        lemma_max_end_bounds(s, k - 1, h);
    }
}

proof fn lemma_center2_sum_bounds(s: Seq<Placement>, k: int, h: bool)
    requires
        0 <= k <= s.len(),
        placements_valid(s),
    ensures
        k * (-2 * POS_LIMIT) <= center2_sum(s, k, h) <= k * (2 * POS_LIMIT + SIZE_LIMIT),
    decreases k,
{
    if k > 0 {
        assert(placement_valid(s[k - 1]));
        lemma_center2_sum_bounds(s, k - 1, h);
        assert(k * (-2 * POS_LIMIT) == (k - 1) * (-2 * POS_LIMIT) + (-2 * POS_LIMIT)) by (nonlinear_arith);
        assert(k * (2 * POS_LIMIT + SIZE_LIMIT) == (k - 1) * (2 * POS_LIMIT + SIZE_LIMIT) + (2
            * POS_LIMIT + SIZE_LIMIT)) by (nonlinear_arith);
    }
}

/// Lines the given widgets up along one edge or center line.
///
/// Left and Top move every start edge to the smallest one; Right and Bottom move
/// every end edge to the largest one, keeping sizes; the center modes move each
/// center onto the mean center (kept in doubled coordinates, rounded down).
/// A position beyond the stored range is clamped to it. Empty input is left as it is.
pub fn align_widgets(widget_positions: &mut [Placement], alignment: Alignment)
    requires
        placements_valid(old(widget_positions)@),
    ensures
        final(widget_positions)@ == aligned(old(widget_positions)@, alignment),
        placements_valid(final(widget_positions)@),
{
    let n = widget_positions.len();
    let ghost s = widget_positions@;
    if n == 0 {
        assert(widget_positions@ =~= aligned(s, alignment));
        return;
    }
    let h = match alignment {
        Alignment::Left | Alignment::Right | Alignment::CenterHorizontal => true,
        _ => false,
    };
    proof {
        lemma_min_start_bounds(s, n as int, h);
        lemma_max_end_bounds(s, n as int, h);
        lemma_center2_sum_bounds(s, n as int, h);
        assert(placement_valid(s[0]));
    }
    let mut lo: i64 = if h { widget_positions[0].1.x } else { widget_positions[0].1.y };
    let mut hi: i64 = if h { widget_positions[0].1.x + widget_positions[0].2.x } else {
        widget_positions[0].1.y + widget_positions[0].2.y
    };
    let mut sum: i128 = 0;
    let mut i: usize = 0;
    while i < n
        invariant
            n == widget_positions@.len(),
            widget_positions@ == s,
            placements_valid(s),
            0 <= i <= n,
            i == 0 ==> lo == min_start(s, 1, h) && hi == max_end(s, 1, h),
            i >= 1 ==> lo == min_start(s, i as int, h) && hi == max_end(s, i as int, h),
            sum == center2_sum(s, i as int, h),
            i * (-2 * POS_LIMIT) <= sum <= i * (2 * POS_LIMIT + SIZE_LIMIT),
        decreases n - i,
    {
        proof {
            assert(placement_valid(s[i as int]));
            lemma_center2_sum_bounds(s, i + 1, h);
            assert((i + 1) * (2 * POS_LIMIT + SIZE_LIMIT) < 0x1000_0000_0000_0000_0000_0000_0000) by (nonlinear_arith)
                requires i < 0xffff_ffff_ffff_ffff;
            assert((i + 1) * (-2 * POS_LIMIT) > -0x1000_0000_0000_0000_0000_0000_0000) by (nonlinear_arith)
                requires i < 0xffff_ffff_ffff_ffff;
        }
        let p = widget_positions[i];
        let c: i64 = if h { p.1.x } else { p.1.y };
        let e: i64 = if h { p.2.x } else { p.2.y };
        if c < lo {
            lo = c;
        }
        if c + e > hi {
            hi = c + e;
        }
        sum = sum + 2 * (c as i128) + (e as i128);
        i = i + 1;
    }
    assert(n * (2 * POS_LIMIT + SIZE_LIMIT) < 0x1000_0000_0000_0000_0000_0000_0000) by (nonlinear_arith)
        requires n <= 0xffff_ffff_ffff_ffff;
    assert(n * (-2 * POS_LIMIT) > -0x1000_0000_0000_0000_0000_0000_0000) by (nonlinear_arith)
        requires n <= 0xffff_ffff_ffff_ffff;
    let mean2 = floor_div(sum, n as i128);
    proof {
        assert(-2 * POS_LIMIT <= mean2 <= 2 * POS_LIMIT + SIZE_LIMIT) by (nonlinear_arith)
            requires mean2 as int == (sum as int) / (n as int), n >= 1,
                n * (-2 * POS_LIMIT) <= sum <= n * (2 * POS_LIMIT + SIZE_LIMIT);
    }
    let mut k: usize = 0;
    while k < n
        invariant
            n == widget_positions@.len(),
            n == s.len(),
            placements_valid(s),
            0 <= k <= n,
            lo == min_start(s, n as int, h),
            hi == max_end(s, n as int, h),
            mean2 == center2_sum(s, n as int, h) / (n as int),
            -2 * POS_LIMIT <= mean2 <= 2 * POS_LIMIT + SIZE_LIMIT,
            -POS_LIMIT < hi <= POS_LIMIT + SIZE_LIMIT,
            coord_in_range(lo as int),
            h == is_horizontal(alignment),
            forall|j: int| 0 <= j < k ==> #[trigger] widget_positions@[j] == aligned(s, alignment)[j],
            forall|j: int| k <= j < n ==> #[trigger] widget_positions@[j] == s[j],
        decreases n - k,
    {
        let p = widget_positions[k];
        proof {
            assert(placement_valid(s[k as int]));
        }
        let e: i64 = if h { p.2.x } else { p.2.y };
        let v: i64 = match alignment {
            Alignment::Left | Alignment::Top => lo,
            Alignment::Right | Alignment::Bottom => clamp_coord(hi as i128 - e as i128),
            _ => clamp_coord(floor_div(mean2 - e as i128, 2)),
        };
        let np = if h { Pos2 { x: v, y: p.1.y } } else { Pos2 { x: p.1.x, y: v } };
        widget_positions[k] = (p.0, np, p.2);
        k = k + 1;
    }
    assert(widget_positions@ =~= aligned(s, alignment));
    assert forall|j: int| 0 <= j < n implies #[trigger] placement_valid(widget_positions@[j]) by {
        assert(placement_valid(s[j]));
    }
}

/// After a Left (Top) alignment every start coordinate equals the smallest
/// start coordinate before the call.
pub proof fn lemma_align_left_uses_minimum(s: Seq<Placement>)
    requires
        s.len() >= 1,
        placements_valid(s),
    ensures
        forall|i: int| 0 <= i < s.len() ==> #[trigger] aligned(s, Alignment::Left)[i].1.x == min_start(s, s.len() as int, true),
        forall|j: int| 0 <= j < s.len() ==> min_start(s, s.len() as int, true) <= (#[trigger] s[j]).1.x,
        exists|j: int| 0 <= j < s.len() && min_start(s, s.len() as int, true) == (#[trigger] s[j]).1.x,
{
    lemma_min_start_bounds(s, s.len() as int, true);
    assert forall|j: int| 0 <= j < s.len() implies min_start(s, s.len() as int, true) <= (#[trigger] s[j]).1.x by {
        assert(coord(s[j].1, true) == s[j].1.x);
    }
    let j0 = choose|j: int| 0 <= j < s.len() && min_start(s, s.len() as int, true) == coord(#[trigger] s[j].1, true);
    assert(s[j0].1.x == coord(s[j0].1, true));
}

pub open spec fn placement_rect(p: Placement) -> Rect {
    Rect { min: p.1, max: Pos2 { x: (p.1.x + p.2.x) as i64, y: (p.1.y + p.2.y) as i64 } }
}

pub open spec fn overlaps(s: Seq<Placement>, i: int, j: int) -> bool {
    placement_rect(s[i]).spec_intersects(placement_rect(s[j]))
}

/// Pairs `(s[i], s[j])` with `i < j < k` whose rectangles overlap, in order of `j`.
pub open spec fn row_hits(s: Seq<Placement>, i: int, k: int) -> Seq<(WidgetId, WidgetId)>
    decreases k - i,
{
    if k <= i + 1 {
        Seq::empty()
    } else if overlaps(s, i, k - 1) {
        row_hits(s, i, k - 1).push((s[i].0, s[k - 1].0))
    } else {
        row_hits(s, i, k - 1)
    }
}

/// Overlapping pairs whose first member is among the first `i` placements.
pub open spec fn hits_before(s: Seq<Placement>, i: int) -> Seq<(WidgetId, WidgetId)>
    decreases i,
{
    if i <= 0 {
        Seq::empty()
    } else {
        hits_before(s, i - 1) + row_hits(s, i - 1, s.len() as int)
    }
}

/// Every unordered pair of overlapping placements, as `(earlier, later)`,
/// ordered by the earlier one, then the later one.
pub open spec fn collisions(s: Seq<Placement>) -> Seq<(WidgetId, WidgetId)> {
    hits_before(s, s.len() as int)
}

/// Reports each pair of widgets whose rectangles share positive area.
pub fn detect_collisions(widgets: &[Placement]) -> (r: Vec<(WidgetId, WidgetId)>)
    requires
        placements_valid(widgets@),
    ensures
        r@ == collisions(widgets@),
{
    let ghost s = widgets@;
    let n = widgets.len();
    let mut out: Vec<(WidgetId, WidgetId)> = Vec::new();
    let mut i: usize = 0;
    while i < n
        invariant
            s == widgets@,
            n == s.len(),
            placements_valid(s),
            0 <= i <= n,
            out@ == hits_before(s, i as int),
        decreases n - i,
    {
        let (id1, pos1, size1) = widgets[i];
        proof {
            assert(placement_valid(s[i as int]));
        }
        let rect1 = Rect::from_min_size(pos1, size1);
        let mut j: usize = i + 1;
        while j < n
            invariant
                s == widgets@,
                n == s.len(),
                placements_valid(s),
                i < n,
                i + 1 <= j <= n,
                rect1 == placement_rect(s[i as int]),
                id1 == s[i as int].0,
                out@ == hits_before(s, i as int) + row_hits(s, i as int, j as int),
            decreases n - j,
        {
            let (id2, pos2, size2) = widgets[j];
            proof {
                assert(placement_valid(s[j as int]));
            }
            let rect2 = Rect::from_min_size(pos2, size2);
            if rect1.intersects(&rect2) {
                out.push((id1, id2));
                assert(out@ =~= hits_before(s, i as int) + row_hits(s, i as int, j + 1));
            } else {
                assert(out@ =~= hits_before(s, i as int) + row_hits(s, i as int, j + 1));
            }
            j = j + 1;
        }
        i = i + 1;
    }
    out
}

proof fn lemma_row_hits_len(s: Seq<Placement>, i: int, k: int)
    requires
        0 <= i,
    ensures
        row_hits(s, i, k).len() <= if k > i + 1 { k - i - 1 } else { 0 },
    decreases k,
{
    if k > i + 1 {
        lemma_row_hits_len(s, i, k - 1);
    }
}

proof fn lemma_hits_before_len(s: Seq<Placement>, i: int)
    requires
        0 <= i <= s.len(),
    ensures
        2 * hits_before(s, i).len() <= i * (2 * s.len() - i - 1),
    decreases i,
{
    if i > 0 {
        lemma_hits_before_len(s, i - 1);
        lemma_row_hits_len(s, i - 1, s.len() as int);
        let n = s.len() as int;
        assert((i - 1) * (2 * n - (i - 1) - 1) + 2 * (n - i) == i * (2 * n - i - 1)) by (nonlinear_arith);
    }
}

/// Each unordered pair of widgets is reported at most once, so `n` widgets give
/// at most `n * (n - 1) / 2` pairs.
pub proof fn lemma_collision_count_bound(s: Seq<Placement>)
    ensures
        collisions(s).len() <= s.len() * (s.len() - 1) / 2,
{
    lemma_hits_before_len(s, s.len() as int);
    let n = s.len() as int;
    assert(n * (2 * n - n - 1) == 2 * (n * (n - 1) / 2) || n * (2 * n - n - 1) == 2 * (n * (n - 1) / 2) + 1) by (nonlinear_arith);
}

pub open spec fn placement_ids_unique(s: Seq<Placement>) -> bool {
    forall|i: int, j: int| 0 <= i < s.len() && 0 <= j < s.len() && i != j ==> #[trigger] s[i].0 != #[trigger] s[j].0
}

pub open spec fn no_repeats<T>(q: Seq<T>) -> bool {
    forall|a: int, b: int| 0 <= a < b < q.len() ==> #[trigger] q[a] != #[trigger] q[b]
}

proof fn lemma_row_hits_shape(s: Seq<Placement>, i: int, k: int)
    requires
        0 <= i < s.len(),
        k <= s.len(),
        placement_ids_unique(s),
    ensures
        forall|m: int| 0 <= m < row_hits(s, i, k).len() ==> (#[trigger] row_hits(s, i, k)[m]).0 == s[i].0
            && exists|j: int| i < j < k && row_hits(s, i, k)[m].1 == (#[trigger] s[j]).0 && overlaps(s, i, j),
        no_repeats(row_hits(s, i, k)),
    decreases k - i,
{
    if k > i + 1 {
        lemma_row_hits_shape(s, i, k - 1);
        let prev = row_hits(s, i, k - 1);
        if overlaps(s, i, k - 1) {
            let cur = row_hits(s, i, k);
            assert(cur == prev.push((s[i].0, s[k - 1].0)));
            assert forall|m: int| 0 <= m < cur.len() implies (#[trigger] cur[m]).0 == s[i].0
                && exists|j: int| i < j < k && cur[m].1 == (#[trigger] s[j]).0 && overlaps(s, i, j) by {
                if m == cur.len() - 1 {
                    assert(cur[m].1 == s[k - 1].0);
                } else {
                    assert(cur[m] == prev[m]);
                }
            }
            assert forall|a: int, b: int| 0 <= a < b < cur.len() implies #[trigger] cur[a] != #[trigger] cur[b] by {
                if b == cur.len() - 1 {
                    assert(cur[a] == prev[a]);
                    let j = choose|j: int| i < j < k - 1 && prev[a].1 == (#[trigger] s[j]).0 && overlaps(s, i, j);
                    assert(s[j].0 != s[k - 1].0);
                } else {
                    assert(cur[a] == prev[a]);
                    assert(cur[b] == prev[b]);
                }
            }
        }
    }
}

proof fn lemma_hits_before_shape(s: Seq<Placement>, i: int)
    requires
        0 <= i <= s.len(),
        placement_ids_unique(s),
    ensures
        forall|m: int| 0 <= m < hits_before(s, i).len() ==> exists|a: int, b: int| 0 <= a < b < s.len() && a < i
            && #[trigger] hits_before(s, i)[m] == (s[a].0, s[b].0) && overlaps(s, a, b),
        no_repeats(hits_before(s, i)),
    decreases i,
{
    if i > 0 {
        lemma_hits_before_shape(s, i - 1);
        lemma_row_hits_shape(s, i - 1, s.len() as int);
        let prev = hits_before(s, i - 1);
        let row = row_hits(s, i - 1, s.len() as int);
        let cur = hits_before(s, i);
        assert(cur == prev + row);
        assert forall|m: int| 0 <= m < cur.len() implies exists|a: int, b: int| 0 <= a < b < s.len() && a < i
            && #[trigger] cur[m] == (s[a].0, s[b].0) && overlaps(s, a, b) by {
            if m < prev.len() {
                assert(cur[m] == prev[m]);
            } else {
                assert(cur[m] == row[m - prev.len()]);
                let j = choose|j: int| i - 1 < j < s.len() && row[m - prev.len()].1 == (#[trigger] s[j]).0 && overlaps(s, i - 1, j);
                assert(cur[m] == (s[i - 1].0, s[j].0));
            }
        }
        assert forall|x: int, y: int| 0 <= x < y < cur.len() implies #[trigger] cur[x] != #[trigger] cur[y] by {
            if y < prev.len() {
                assert(cur[x] == prev[x] && cur[y] == prev[y]);
            } else if x >= prev.len() {
                assert(cur[x] == row[x - prev.len()] && cur[y] == row[y - prev.len()]);
            } else {
                assert(cur[x] == prev[x]);
                assert(cur[y] == row[y - prev.len()]);
                assert(cur[y].0 == s[i - 1].0);
                let (a, b) = choose|a: int, b: int| 0 <= a < b < s.len() && a < i - 1
                    && #[trigger] prev[x] == (s[a].0, s[b].0) && overlaps(s, a, b);
                assert(s[a].0 != s[i - 1].0);
            }
        }
    }
}

/// `p` is the ids of two overlapping placements, the earlier one first.
pub open spec fn is_overlapping_pair(s: Seq<Placement>, p: (WidgetId, WidgetId)) -> bool {
    exists|a: int, b: int| 0 <= a < b < s.len() && p == (#[trigger] s[a].0, #[trigger] s[b].0) && overlaps(s, a, b)
}

/// With distinct ids, no pair is reported twice, and every reported pair is
/// two overlapping widgets, the earlier one first.
pub proof fn lemma_collisions_reported_once(s: Seq<Placement>)
    requires
        placement_ids_unique(s),
    ensures
        no_repeats(collisions(s)),
        forall|m: int| 0 <= m < collisions(s).len() ==> is_overlapping_pair(s, #[trigger] collisions(s)[m]),
{
    lemma_hits_before_shape(s, s.len() as int);
    let c = collisions(s);
    assert forall|m: int| 0 <= m < c.len() implies is_overlapping_pair(s, #[trigger] c[m]) by {
        let (a, b) = choose|a: int, b: int| 0 <= a < b < s.len() && a < s.len()
            && #[trigger] hits_before(s, s.len() as int)[m] == (s[a].0, s[b].0) && overlaps(s, a, b);
        assert(c[m] == (s[a].0, s[b].0));
    }
}

/// The smallest `c >= start` with `c * c >= n` (or `c >= n`).
pub open spec fn ceil_sqrt_from(n: int, c: int) -> int
    decreases n - c,
{
    if c >= n || c * c >= n {
        c
    } else {
        ceil_sqrt_from(n, c + 1)
    }
}

/// Number of columns that auto-arrangement uses for `n` widgets: `ceil(sqrt(n))`.
pub open spec fn arrange_cols(n: int) -> int {
    ceil_sqrt_from(n, 1)
}

pub open spec fn arrange_rows(n: int) -> int {
    (n + arrange_cols(n) - 1) / arrange_cols(n)
}

/// Position and size that auto-arrangement gives to entry `i` of `n`.
pub open spec fn arranged_entry(n: int, i: int, container: Vec2) -> (Pos2, Vec2) {
    let cols = arrange_cols(n);
    let cw = container.x as int / cols;
    let ch = container.y as int / arrange_rows(n);
    (
        Pos2 { x: ((i % cols) * cw + 10) as i64, y: ((i / cols) * ch + 10) as i64 },
        Vec2 {
            x: (if cw - 20 > 100 { cw - 20 } else { 100 }) as i64,
            y: (if ch - 20 > 80 { ch - 20 } else { 80 }) as i64,
        },
    )
}

pub open spec fn arranged(s: Seq<Placement>, container: Vec2) -> Seq<Placement> {
    Seq::new(
        s.len(),
        |i: int|
            (
                s[i].0,
                arranged_entry(s.len() as int, i, container).0,
                arranged_entry(s.len() as int, i, container).1,
            ),
    )
}

proof fn lemma_ceil_sqrt_from(n: int, c: int)
    requires
        1 <= c,
        1 <= n,
        c <= n,
        (c - 1) * (c - 1) < n,
    ensures
        1 <= ceil_sqrt_from(n, c) <= n,
        ceil_sqrt_from(n, c) * ceil_sqrt_from(n, c) >= n,
    decreases n - c,
{
    if c >= n {
        assert(c * c >= n) by (nonlinear_arith) requires c >= n, n >= 1;
    } else if c * c >= n {
    } else {
        lemma_ceil_sqrt_from(n, c + 1);
    }
}

/// Packs the widgets, in the given order, into a near-square grid that fills
/// `container_size`: `ceil(sqrt(n))` columns, as many rows as needed, a 10-pixel
/// margin in each cell and a floor of 100 x 80 on each size.
pub fn auto_arrange_widgets(widget_positions: &mut Vec<Placement>, container_size: Vec2)
    requires
        0 <= container_size.x <= SIZE_LIMIT,
        0 <= container_size.y <= SIZE_LIMIT,
    ensures
        final(widget_positions)@ == arranged(old(widget_positions)@, container_size),
        placements_valid(final(widget_positions)@),
{
    let ghost s = widget_positions@;
    let n = widget_positions.len();
    if n == 0 {
        assert(widget_positions@ =~= arranged(s, container_size));
        return;
    }
    let mut cols: u128 = 1;
    loop
        invariant
            1 <= cols <= n,
            ceil_sqrt_from(n as int, cols as int) == arrange_cols(n as int),
            (cols - 1) * (cols - 1) < n,
        ensures
            1 <= cols <= n,
            ceil_sqrt_from(n as int, cols as int) == cols,
            cols == arrange_cols(n as int),
            (cols - 1) * (cols - 1) < n,
        decreases n - cols,
    {
        proof {
            assert(cols * cols < 0x1_0000_0000_0000_0000_0000_0000_0000_0000) by (nonlinear_arith)
                requires cols <= 0xffff_ffff_ffff_ffff;
        }
        if cols >= n as u128 || cols * cols >= n as u128 {
            break;
        }
        cols = cols + 1;
    }
    proof {
        lemma_ceil_sqrt_from(n as int, cols as int);
    }
    let rows: u128 = (n as u128 + cols - 1) / cols;
    proof {
        assert(rows >= 1) by (nonlinear_arith)
            requires rows as int == (n as int + cols as int - 1) / (cols as int), n >= 1, cols >= 1;
        vstd::arithmetic::div_mod::lemma_fundamental_div_mod((n + cols - 1) as int, cols as int);
        assert(rows * cols >= n) by (nonlinear_arith)
            requires (n + cols - 1) as int == cols * rows + (n + cols - 1) as int % (cols as int),
                (n + cols - 1) as int % (cols as int) < cols;
    }
    let cw: u128 = (container_size.x as u128) / cols;
    let ch: u128 = (container_size.y as u128) / rows;
    proof {
        vstd::arithmetic::div_mod::lemma_fundamental_div_mod(container_size.x as int, cols as int);
        vstd::arithmetic::div_mod::lemma_fundamental_div_mod(container_size.y as int, rows as int);
        assert(cols * cw <= container_size.x) by (nonlinear_arith)
            requires container_size.x as int == cols * cw + (container_size.x as int) % (cols as int),
                (container_size.x as int) % (cols as int) >= 0;
        assert(rows * ch <= container_size.y) by (nonlinear_arith)
            requires container_size.y as int == rows * ch + (container_size.y as int) % (rows as int),
                (container_size.y as int) % (rows as int) >= 0;
        assert(cw <= container_size.x) by (nonlinear_arith) requires cols * cw <= container_size.x, cols >= 1;
        assert(ch <= container_size.y) by (nonlinear_arith) requires rows * ch <= container_size.y, rows >= 1;
    }
    let w: i64 = if cw as i64 - 20 > 100 { cw as i64 - 20 } else { 100 };
    let hgt: i64 = if ch as i64 - 20 > 80 { ch as i64 - 20 } else { 80 };
    let mut k: usize = 0;
    while k < n
        invariant
            n == widget_positions@.len(),
            n == s.len(),
            0 <= k <= n,
            1 <= cols <= n,
            cols == arrange_cols(n as int),
            rows == arrange_rows(n as int),
            rows * cols >= n,
            cw == container_size.x as int / cols as int,
            ch == container_size.y as int / rows as int,
            cols * cw <= container_size.x,
            rows * ch <= container_size.y,
            0 <= container_size.x <= SIZE_LIMIT,
            0 <= container_size.y <= SIZE_LIMIT,
            w == arranged_entry(n as int, 0, container_size).1.x,
            hgt == arranged_entry(n as int, 0, container_size).1.y,
            forall|j: int| 0 <= j < k ==> #[trigger] widget_positions@[j] == arranged(s, container_size)[j],
            forall|j: int| 0 <= j < k ==> placement_valid(#[trigger] widget_positions@[j]),
            forall|j: int| k <= j < n ==> #[trigger] widget_positions@[j] == s[j],
        decreases n - k,
    {
        let row: u128 = k as u128 / cols;
        let col: u128 = k as u128 % cols;
        proof {
            assert(col < cols);
            assert(col * cw <= cols * cw) by (nonlinear_arith) requires col < cols, cw >= 0;
            assert(row < rows) by (nonlinear_arith)
                requires row == (k as int) / (cols as int), k < n, n <= rows * cols, cols >= 1;
            assert(row * ch <= rows * ch) by (nonlinear_arith) requires row < rows, ch >= 0;
        }
        let x: i64 = (col * cw) as i64 + 10;
        let y: i64 = (row * ch) as i64 + 10;
        let id = widget_positions[k].0;
        widget_positions[k] = (id, Pos2 { x, y }, Vec2 { x: w, y: hgt });
        k = k + 1;
    }
    assert(widget_positions@ =~= arranged(s, container_size));
}

/// The positions and sizes that auto-arrangement produces depend only on how
/// many widgets there are, each one's place in the order, and the container:
/// the same input order and container always give the same layout.
pub proof fn lemma_auto_arrange_deterministic(s1: Seq<Placement>, s2: Seq<Placement>, container: Vec2)
    requires
        s1.len() == s2.len(),
    ensures
        forall|i: int| 0 <= i < s1.len() ==> (#[trigger] arranged(s1, container)[i]).1 == arranged(s2, container)[i].1
            && arranged(s1, container)[i].2 == arranged(s2, container)[i].2,
        s1.map_values(|p: Placement| p.0) == s2.map_values(|p: Placement| p.0) ==> arranged(s1, container) == arranged(s2, container),
{
    if s1.map_values(|p: Placement| p.0) == s2.map_values(|p: Placement| p.0) {
        assert forall|i: int| 0 <= i < s1.len() implies arranged(s1, container)[i] == arranged(s2, container)[i] by {
            assert(s1.map_values(|p: Placement| p.0)[i] == s1[i].0);
            assert(s2.map_values(|p: Placement| p.0)[i] == s2[i].0);
        }
        assert(arranged(s1, container) =~= arranged(s2, container));
    }
}

} // verus!
