use vstd::prelude::*;
use crate::geometry::{Pos2, Vec2, SIZE_LIMIT, clamp_pos, clamp_coord, round_to_multiple, round_coord};
use crate::ids::WidgetId;
use crate::layout::{Placement, placements_valid, placement_valid};
use crate::widgets::DashboardWidget;

verus! {

/// Why a dashboard operation did not take place.
#[derive(Debug, Clone, Copy, PartialEq, Eq, Structural)]
pub enum DashboardError {
    /// A widget with that id is already on the dashboard.
    DuplicateId,
    /// No widget with that id is on the dashboard.
    NotFound,
}

/// The widgets of one dashboard, keyed by id, with its grid settings.
///
/// The widgets are held in a `Vec` with unique ids rather than a hash map:
/// iteration then follows insertion order, which keeps rendering and the
/// layout operations stable from one frame (and one process) to the next,
/// where a hash map's order would depend on its per-process seed.
pub struct Dashboard {
    widgets: Vec<DashboardWidget>,
    grid_size: i64,
    snap_to_grid: bool,
}

pub open spec fn ids_unique(s: Seq<DashboardWidget>) -> bool {
    forall|i: int, j: int| 0 <= i < s.len() && 0 <= j < s.len() && i != j ==> #[trigger] s[i].id != #[trigger] s[j].id
}

pub open spec fn all_wf(s: Seq<DashboardWidget>) -> bool {
    forall|i: int| 0 <= i < s.len() ==> (#[trigger] s[i]).wf()
}

pub open spec fn contains_id(s: Seq<DashboardWidget>, id: WidgetId) -> bool {
    exists|i: int| 0 <= i < s.len() && (#[trigger] s[i]).id == id
}

/// Index of the widget with `id`, or -1.
pub open spec fn position_of(s: Seq<DashboardWidget>, id: WidgetId) -> int
    decreases s.len(),
{
    if s.len() == 0 {
        -1
    } else if s.last().id == id {
        s.len() - 1
    } else {
        position_of(s.drop_last(), id)
    }
}

/// `s` without the widget with `id` (unchanged if there is none).
pub open spec fn without_id(s: Seq<DashboardWidget>, id: WidgetId) -> Seq<DashboardWidget> {
    if position_of(s, id) >= 0 {
        s.remove(position_of(s, id))
    } else {
        s
    }
}

pub open spec fn to_placement(w: DashboardWidget) -> Placement {
    (w.id, w.position, w.size)
}

/// The position that snapping gives to `p` on a grid of `g` pixels.
pub open spec fn snapped(p: Pos2, g: int) -> Pos2 {
    Pos2 {
        x: clamp_pos(round_to_multiple(p.x as int, g)) as i64,
        y: clamp_pos(round_to_multiple(p.y as int, g)) as i64,
    }
}

pub proof fn lemma_position_of(s: Seq<DashboardWidget>, id: WidgetId)
    ensures
        -1 <= position_of(s, id) < s.len(),
        position_of(s, id) >= 0 ==> s[position_of(s, id)].id == id,
        position_of(s, id) == -1 <==> !contains_id(s, id),
    decreases s.len(),
{
    if s.len() > 0 {
        lemma_position_of(s.drop_last(), id);
        if s.last().id != id && position_of(s, id) == -1 {
            assert forall|i: int| 0 <= i < s.len() implies (#[trigger] s[i]).id != id by {
                if i < s.len() - 1 {
                    assert(s.drop_last()[i] == s[i]);
                }
            }
        }
        if position_of(s, id) >= 0 && s.last().id != id {
            assert(s.drop_last()[position_of(s, id)] == s[position_of(s, id)]);
        }
    }
}

proof fn lemma_position_unique(s: Seq<DashboardWidget>, id: WidgetId, i: int)
    requires
        ids_unique(s),
        0 <= i < s.len(),
        s[i].id == id,
    ensures
        position_of(s, id) == i,
{
    lemma_position_of(s, id);
}

/// Replacing widgets by well-formed ones with the same ids, position by
/// position, keeps a dashboard's widgets well formed with unique ids.
proof fn lemma_same_ids_keep_wf(a: Seq<DashboardWidget>, b: Seq<DashboardWidget>)
    requires
        ids_unique(a),
        a.len() == b.len(),
        forall|k: int| 0 <= k < a.len() ==> (#[trigger] b[k]).id == a[k].id && b[k].wf(),
    ensures
        ids_unique(b),
        all_wf(b),
{
    assert forall|x: int, y: int| 0 <= x < b.len() && 0 <= y < b.len() && x != y
        implies #[trigger] b[x].id != #[trigger] b[y].id by {
        assert(b[x].id == a[x].id);
        assert(b[y].id == a[y].id);
    }
}

impl View for Dashboard {
    type V = Seq<DashboardWidget>;

    closed spec fn view(&self) -> Seq<DashboardWidget> {
        self.widgets@
    }
}

impl Dashboard {
    pub closed spec fn spec_grid_size(&self) -> int {
        self.grid_size as int
    }

    pub closed spec fn spec_snap_enabled(&self) -> bool {
        self.snap_to_grid
    }

    /// Ids are unique, every widget is well formed and the grid size is usable.
    pub open spec fn wf(&self) -> bool {
        &&& ids_unique(self@)
        &&& all_wf(self@)
        &&& 0 < self.spec_grid_size() <= SIZE_LIMIT
    }

    /// The widget with `id`, if there is one.
    pub open spec fn lookup(&self, id: WidgetId) -> Option<DashboardWidget> {
        if position_of(self@, id) >= 0 {
            Some(self@[position_of(self@, id)])
        } else {
            None
        }
    }

    /// An empty dashboard on a 20-pixel grid with snapping on.
    pub fn new() -> (r: Dashboard)
        ensures
            r.wf(),
            r@ == Seq::<DashboardWidget>::empty(),
            r.spec_grid_size() == 20,
            r.spec_snap_enabled(),
    {
        Dashboard { widgets: Vec::new(), grid_size: 20, snap_to_grid: true }
    }

    /// An empty dashboard with the given grid size and snapping setting.
    pub fn with_grid(grid_size: i64, snap_to_grid: bool) -> (r: Dashboard)
        requires
            0 < grid_size <= SIZE_LIMIT,
        ensures
            r.wf(),
            r@ == Seq::<DashboardWidget>::empty(),
            r.spec_grid_size() == grid_size,
            r.spec_snap_enabled() == snap_to_grid,
    {
        Dashboard { widgets: Vec::new(), grid_size, snap_to_grid }
    }

    pub fn grid_size(&self) -> (r: i64)
        ensures
            r == self.spec_grid_size(),
    {
        self.grid_size
    }

    pub fn snap_enabled(&self) -> (r: bool)
        ensures
            r == self.spec_snap_enabled(),
    {
        self.snap_to_grid
    }

    pub fn set_snap_enabled(&mut self, on: bool)
        requires
            old(self).wf(),
        ensures
            final(self).wf(),
            final(self)@ == old(self)@,
            final(self).spec_grid_size() == old(self).spec_grid_size(),
            final(self).spec_snap_enabled() == on,
    {
        self.snap_to_grid = on;
    }

    pub fn len(&self) -> (r: usize)
        ensures
            r == self@.len(),
    {
        self.widgets.len()
    }

    /// The widgets, in the order in which they were added.
    pub fn widgets(&self) -> (r: &Vec<DashboardWidget>)
        ensures
            r@ == self@,
    {
        &self.widgets
    }

    fn find(&self, id: WidgetId) -> (r: Option<usize>)
        requires
            self.wf(),
        ensures
            match r {
                Some(i) => i == position_of(self@, id) && i < self@.len(),
                None => position_of(self@, id) == -1,
            },
    {
        proof {
            lemma_position_of(self@, id);
        }
        let n = self.widgets.len();
        let mut i: usize = 0;
        while i < n
            invariant
                n == self@.len(),
                ids_unique(self@),
                0 <= i <= n,
                forall|j: int| 0 <= j < i ==> (#[trigger] self@[j]).id != id,
            decreases n - i,
        {
            if self.widgets[i].id == id {
                proof {
                    lemma_position_unique(self@, id, i as int);
                }
                return Some(i);
            }
            i = i + 1;
        }
        None
    }

    /// Adds `widget`; fails with `DuplicateId`, changing nothing, if its id is
    /// already present.
    pub fn add_widget(&mut self, widget: DashboardWidget) -> (r: Result<(), DashboardError>)
        requires
            old(self).wf(),
            widget.wf(),
        ensures
            final(self).wf(),
            final(self).spec_grid_size() == old(self).spec_grid_size(),
            final(self).spec_snap_enabled() == old(self).spec_snap_enabled(),
            contains_id(old(self)@, widget.id) ==> r == Err::<(), DashboardError>(DashboardError::DuplicateId)
                && final(self)@ == old(self)@,
            !contains_id(old(self)@, widget.id) ==> r is Ok && final(self)@ == old(self)@.push(widget),
    {
        proof {
            lemma_position_of(self@, widget.id);
        }
        match self.find(widget.id) {
            Some(_) => Err(DashboardError::DuplicateId),
            None => {
                self.widgets.push(widget);
                Ok(())
            },
        }
    }

    /// Removes the widget with `id`; nothing happens if there is none.
    pub fn remove_widget(&mut self, widget_id: WidgetId)
        requires
            old(self).wf(),
        ensures
            final(self).wf(),
            final(self)@ == without_id(old(self)@, widget_id),
            !contains_id(final(self)@, widget_id),
            final(self).spec_grid_size() == old(self).spec_grid_size(),
            final(self).spec_snap_enabled() == old(self).spec_snap_enabled(),
    {
        proof {
            lemma_position_of(self@, widget_id);
        }
        match self.find(widget_id) {
            Some(i) => {
                let ghost before = self@;
                self.widgets.remove(i);
                proof {
                    assert forall|a: int, b: int| 0 <= a < self@.len() && 0 <= b < self@.len() && a != b
                        implies #[trigger] self@[a].id != #[trigger] self@[b].id by {
                        let a0 = if a < i { a } else { a + 1 };
                        let b0 = if b < i { b } else { b + 1 };
                        assert(self@[a] == before[a0]);
                        assert(self@[b] == before[b0]);
                    }
                    assert forall|a: int| 0 <= a < self@.len() implies (#[trigger] self@[a]).wf() by {
                        let a0 = if a < i { a } else { a + 1 };
                        assert(self@[a] == before[a0]);
                    }
                    if contains_id(self@, widget_id) {
                        let a = choose|a: int| 0 <= a < self@.len() && (#[trigger] self@[a]).id == widget_id;
                        let a0 = if a < i { a } else { a + 1 };
                        assert(self@[a] == before[a0]);
                    }
                }
            },
            None => {},
        }
    }

    /// The widget with `widget_id`, or `None` if there is none.
    pub fn get_widget(&self, widget_id: WidgetId) -> (r: Option<&DashboardWidget>)
        requires
            self.wf(),
        ensures
            match r {
                Some(w) => self.lookup(widget_id) == Some(*w),
                None => self.lookup(widget_id) is None,
            },
    {
        match self.find(widget_id) {
            Some(i) => Some(&self.widgets[i]),
            None => None,
        }
    }

    /// Mutable access to the widget with `widget_id`, or `None` if there is none.
    /// The dashboard stays well formed as long as the caller keeps the widget's
    /// id and leaves it well formed.
    pub fn get_widget_mut(&mut self, widget_id: WidgetId) -> (r: Option<&mut DashboardWidget>)
        requires
            old(self).wf(),
        ensures
            match r {
                Some(w) => {
                    &&& old(self).lookup(widget_id) == Some(*w)
                    &&& final(self)@ == old(self)@.update(position_of(old(self)@, widget_id), *final(w))
                    &&& final(self).spec_grid_size() == old(self).spec_grid_size()
                    &&& final(self).spec_snap_enabled() == old(self).spec_snap_enabled()
                    &&& (final(w).id == widget_id && final(w).wf()) ==> final(self).wf()
                },
                None => old(self).lookup(widget_id) is None && *final(self) == *old(self),
            },
    {
        match self.find(widget_id) {
            Some(i) => {
                proof {
                    lemma_position_of(self@, widget_id);
                }
                Some(&mut self.widgets[i])
            },
            None => None,
        }
    }

    /// `pos` rounded to the nearest grid multiple on each axis when snapping
    /// is on; `pos` itself when it is off.
    pub fn snap_position(&self, pos: Pos2) -> (r: Pos2)
        requires
            self.wf(),
            pos.valid(),
        ensures
            self.spec_snap_enabled() ==> r == snapped(pos, self.spec_grid_size()),
            !self.spec_snap_enabled() ==> r == pos,
            r.valid(),
    {
        if self.snap_to_grid {
            Pos2 { x: round_coord(pos.x, self.grid_size), y: round_coord(pos.y, self.grid_size) }
        } else {
            pos
        }
    }

    /// Moves the widget with `widget_id` by `delta`, free-form (no snapping);
    /// the result is kept within the stored coordinate range.
    pub fn drag_widget(&mut self, widget_id: WidgetId, delta: Vec2) -> (r: Result<(), DashboardError>)
        requires
            old(self).wf(),
        ensures
            final(self).wf(),
            final(self).spec_grid_size() == old(self).spec_grid_size(),
            final(self).spec_snap_enabled() == old(self).spec_snap_enabled(),
            old(self).lookup(widget_id) is None ==> r == Err::<(), DashboardError>(DashboardError::NotFound)
                && final(self)@ == old(self)@,
            old(self).lookup(widget_id) is Some ==> {
                let p = position_of(old(self)@, widget_id);
                let w = old(self)@[p];
                &&& r is Ok
                &&& final(self)@ == old(self)@.update(p, DashboardWidget {
                    position: Pos2 {
                        x: clamp_pos(w.position.x + delta.x) as i64,
                        y: clamp_pos(w.position.y + delta.y) as i64,
                    },
                    ..w
                })
            },
    {
        match self.find(widget_id) {
            Some(i) => {
                let ghost before = self@;
                let w = &mut self.widgets[i];
                let x = clamp_coord(w.position.x as i128 + delta.x as i128);
                let y = clamp_coord(w.position.y as i128 + delta.y as i128);
                w.position = Pos2 { x, y };
                proof {
                    assert(self@[i as int].wf());
                    assert forall|a: int| 0 <= a < self@.len() implies (#[trigger] self@[a]).id == before[a].id
                        && self@[a].wf() by {
                        if a != i { assert(self@[a] == before[a]); }
                    }
                    lemma_same_ids_keep_wf(before, self@);
                }
                Ok(())
            },
            None => Err(DashboardError::NotFound),
        }
    }

    /// Ends a drag of the widget with `widget_id`: its position is snapped to the
    /// grid when snapping is on, and left as it is otherwise.
    pub fn release_drag(&mut self, widget_id: WidgetId) -> (r: Result<(), DashboardError>)
        requires
            old(self).wf(),
        ensures
            final(self).wf(),
            final(self).spec_grid_size() == old(self).spec_grid_size(),
            final(self).spec_snap_enabled() == old(self).spec_snap_enabled(),
            old(self).lookup(widget_id) is None ==> r == Err::<(), DashboardError>(DashboardError::NotFound)
                && final(self)@ == old(self)@,
            old(self).lookup(widget_id) is Some ==> {
                let p = position_of(old(self)@, widget_id);
                let w = old(self)@[p];
                &&& r is Ok
                &&& old(self).spec_snap_enabled() ==> final(self)@ == old(self)@.update(p, DashboardWidget {
                    position: snapped(w.position, old(self).spec_grid_size()),
                    ..w
                })
                &&& !old(self).spec_snap_enabled() ==> final(self)@ == old(self)@
            },
    {
        match self.find(widget_id) {
            Some(i) => {
                if self.snap_to_grid {
                    let ghost before = self@;
                    proof {
                        assert(self@[i as int].wf());
                    }
                    let snapped_pos = self.snap_position(self.widgets[i].position);
                    let w = &mut self.widgets[i];
                    w.position = snapped_pos;
                    proof {
                        assert(self@[i as int].wf());
                        assert forall|a: int| 0 <= a < self@.len() implies (#[trigger] self@[a]).id == before[a].id
                            && self@[a].wf() by {
                            if a != i { assert(self@[a] == before[a]); }
                        }
                        lemma_same_ids_keep_wf(before, self@);
                    }
                }
                Ok(())
            },
            None => Err(DashboardError::NotFound),
        }
    }

    /// Snaps every widget's position to the grid when snapping is on; changes
    /// nothing when it is off.
    pub fn snap_all(&mut self)
        requires
            old(self).wf(),
        ensures
            final(self).wf(),
            final(self).spec_grid_size() == old(self).spec_grid_size(),
            final(self).spec_snap_enabled() == old(self).spec_snap_enabled(),
            !old(self).spec_snap_enabled() ==> final(self)@ == old(self)@,
            old(self).spec_snap_enabled() ==> final(self)@ == old(self)@.map_values(
                |w: DashboardWidget| DashboardWidget { position: snapped(w.position, old(self).spec_grid_size()), ..w },
            ),
    {
        if !self.snap_to_grid {
            return;
        }
        let ghost orig = self@;
        let ghost g = self.spec_grid_size();
        let n = self.widgets.len();
        let mut i: usize = 0;
        while i < n
            invariant
                n == self@.len(),
                orig.len() == n,
                0 <= i <= n,
                g == self.spec_grid_size(),
                0 < g <= SIZE_LIMIT,
                self.spec_snap_enabled(),
                self.spec_grid_size() == old(self).spec_grid_size(),
                orig == old(self)@,
                ids_unique(orig),
                all_wf(orig),
                forall|k: int| 0 <= k < i ==> #[trigger] self@[k] == (DashboardWidget {
                    position: snapped(orig[k].position, g),
                    ..orig[k]
                }),
                forall|k: int| i <= k < n ==> #[trigger] self@[k] == orig[k],
            decreases n - i,
        {
            proof {
                assert(orig[i as int].wf());
            }
            let p = self.widgets[i].position;
            let np = Pos2 { x: round_coord(p.x, self.grid_size), y: round_coord(p.y, self.grid_size) };
            let w = &mut self.widgets[i];
            w.position = np;
            i = i + 1;
        }
        proof {
            assert(self@ =~= orig.map_values(
                |w: DashboardWidget| DashboardWidget { position: snapped(w.position, g), ..w },
            ));
            assert forall|a: int| 0 <= a < n implies (#[trigger] self@[a]).id == orig[a].id && self@[a].wf() by {
                assert(orig[a].wf());
            }
            lemma_same_ids_keep_wf(orig, self@);
        }
    }

    /// Each widget's id, position and size, in order.
    pub fn placements(&self) -> (r: Vec<Placement>)
        requires
            self.wf(),
        ensures
            r@ == self@.map_values(|w: DashboardWidget| to_placement(w)),
            placements_valid(r@),
    {
        let n = self.widgets.len();
        let mut out: Vec<Placement> = Vec::new();
        let mut i: usize = 0;
        while i < n
            invariant
                n == self@.len(),
                all_wf(self@),
                0 <= i <= n,
                out@ == self@.take(i as int).map_values(|w: DashboardWidget| to_placement(w)),
            decreases n - i,
        {
            let w = &self.widgets[i];
            out.push((w.id, w.position, w.size));
            proof {
                assert(self@.take(i + 1) == self@.take(i as int).push(self@[i as int]));
            }
            assert(out@ =~= self@.take(i + 1).map_values(|w: DashboardWidget| to_placement(w)));
            i = i + 1;
        }
        assert(self@.take(n as int) =~= self@);
        assert forall|k: int| 0 <= k < out@.len() implies #[trigger] placement_valid(out@[k]) by {
            assert(self@[k].wf());
        }
        out
    }

    /// Writes back positions and sizes produced by a layout operation, entry `i`
    /// to widget `i`; ids must line up with `placements()`.
    pub fn apply_placements(&mut self, ps: &Vec<Placement>)
        requires
            old(self).wf(),
            ps@.len() == old(self)@.len(),
            placements_valid(ps@),
            forall|i: int| 0 <= i < ps@.len() ==> (#[trigger] ps@[i]).0 == old(self)@[i].id,
        ensures
            final(self).wf(),
            final(self).spec_grid_size() == old(self).spec_grid_size(),
            final(self).spec_snap_enabled() == old(self).spec_snap_enabled(),
            final(self)@.len() == old(self)@.len(),
            forall|i: int| 0 <= i < ps@.len() ==> (#[trigger] final(self)@[i]) == (DashboardWidget {
                position: ps@[i].1,
                size: ps@[i].2,
                ..old(self)@[i]
            }),
    {
        let ghost orig = self@;
        let n = ps.len();
        let mut i: usize = 0;
        while i < n
            invariant
                n == ps@.len(),
                n == self@.len(),
                orig.len() == n,
                0 <= i <= n,
                0 < self.spec_grid_size() <= SIZE_LIMIT,
                self.spec_grid_size() == old(self).spec_grid_size(),
                self.spec_snap_enabled() == old(self).spec_snap_enabled(),
                ids_unique(orig),
                all_wf(orig),
                placements_valid(ps@),
                forall|k: int| 0 <= k < n ==> (#[trigger] ps@[k]).0 == orig[k].id,
                forall|k: int| 0 <= k < i ==> (#[trigger] self@[k]) == (DashboardWidget {
                    position: ps@[k].1,
                    size: ps@[k].2,
                    ..orig[k]
                }),
                forall|k: int| i <= k < n ==> #[trigger] self@[k] == orig[k],
            decreases n - i,
        {
            let p = ps[i];
            let w = &mut self.widgets[i];
            w.position = p.1;
            w.size = p.2;
            i = i + 1;
        }
        proof {
            assert forall|a: int| 0 <= a < n implies (#[trigger] self@[a]).id == orig[a].id && self@[a].wf() by {
                assert(orig[a].wf());
                assert(placement_valid(ps@[a]));
            }
            lemma_same_ids_keep_wf(orig, self@);
        }
    }
}

/// The selection to hold after one interaction pass: a clicked widget wins,
/// a click on the background clears it, and otherwise it stays.
pub fn resolve_selection(
    current: Option<WidgetId>,
    background_clicked: bool,
    clicked_widget: Option<WidgetId>,
) -> (r: Option<WidgetId>)
    ensures
        clicked_widget is Some ==> r == clicked_widget,
        clicked_widget is None && background_clicked ==> r is None,
        clicked_widget is None && !background_clicked ==> r == current,
{
    match clicked_widget {
        Some(id) => Some(id),
        None => if background_clicked {
            None
        } else {
            current
        },
    }
}

} // verus!
