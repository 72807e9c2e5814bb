use vstd::prelude::*;
use crate::dashboard::{Dashboard, DashboardError, contains_id, without_id};
use crate::geometry::{Pos2, Vec2};
use crate::ids::WidgetId;
use crate::widgets::{DashboardWidget, WidgetType, all_types, kind_name, default_title};

verus! {

/// What `str::to_lowercase` gives for a string with these characters.
pub uninterp spec fn lower_of(s: Seq<char>) -> Seq<char>;

/// Relies on str::to_lowercase: the lowercase form, which depends on the
/// characters alone; an empty string stays empty.
#[verifier::external_body]
fn lowercase(s: &str) -> (r: String)
    ensures
        r@ == lower_of(s@),
        s@.len() == 0 ==> r@.len() == 0,
{
    s.to_lowercase()
}

/// `needle` occurs in `hay` as a contiguous run of characters.
pub open spec fn has_substring(hay: Seq<char>, needle: Seq<char>) -> bool {
    exists|i: int| 0 <= i <= hay.len() - needle.len() && #[trigger] hay.subrange(i, i + needle.len()) == needle
}

/// Whether a widget named `name` passes the palette's search `filter`: an
/// empty filter passes everything, otherwise the lowercase filter must occur
/// in the lowercase name.
pub open spec fn passes_filter(name: Seq<char>, filter: Seq<char>) -> bool {
    filter.len() == 0 || has_substring(lower_of(name), lower_of(filter))
}

fn matches_at(hay: &str, needle: &str, i: usize, hn: usize, nn: usize) -> (r: bool)
    requires
        hn == hay@.len(),
        nn == needle@.len(),
        i + nn <= hn,
    ensures
        r == (hay@.subrange(i as int, i + nn) == needle@),
{
    let mut k: usize = 0;
    while k < nn
        invariant
            hn == hay@.len(),
            nn == needle@.len(),
            i + nn <= hn,
            0 <= k <= nn,
            hay@.subrange(i as int, i + k) == needle@.subrange(0, k as int),
        decreases nn - k,
    {
        if hay.get_char(i + k) != needle.get_char(k) {
            assert(hay@.subrange(i as int, i + nn)[k as int] != needle@[k as int]);
            return false;
        }
        assert(hay@.subrange(i as int, i + k + 1) =~= needle@.subrange(0, k + 1));
        k = k + 1;
    }
    assert(needle@.subrange(0, nn as int) =~= needle@);
    true
}

/// Whether `needle` occurs in `hay`.
pub fn contains_text(hay: &str, needle: &str) -> (r: bool)
    ensures
        r == has_substring(hay@, needle@),
{
    let hn = hay.unicode_len();
    let nn = needle.unicode_len();
    if nn > hn {
        return false;
    }
    if nn == 0 {
        assert(hay@.subrange(0int, 0int + needle@.len()) =~= needle@);
        return true;
    }
    let mut i: usize = 0;
    while i <= hn - nn
        invariant
            hn == hay@.len(),
            nn == needle@.len(),
            1 <= nn <= hn,
            i <= hn - nn + 1,
            forall|j: int| 0 <= j < i ==> #[trigger] hay@.subrange(j, j + nn) != needle@,
        decreases hn + 1 - i,
    {
        if matches_at(hay, needle, i, hn, nn) {
            assert(hay@.subrange(i as int, i as int + needle@.len()) == needle@);
            return true;
        }
        i = i + 1;
    }
    assert forall|j: int| 0 <= j <= hay@.len() - needle@.len() implies #[trigger] hay@.subrange(j, j + needle@.len()) != needle@ by {
        assert(j < i);
    }
    false
}

/// The palette's test on lowercase forms already computed: `filter_lower` is
/// empty or occurs in `name_lower`.
pub fn matches_folded(name_lower: &str, filter_lower: &str) -> (r: bool)
    ensures
        r == (filter_lower@.len() == 0 || has_substring(name_lower@, filter_lower@)),
{
    if filter_lower.unicode_len() == 0 {
        return true;
    }
    contains_text(name_lower, filter_lower)
}

/// Whether a widget named `name` passes the search `filter`, ignoring case.
pub fn name_passes_filter(name: &str, filter: &str) -> (r: bool)
    ensures
        r == passes_filter(name@, filter@),
{
    if filter.unicode_len() == 0 {
        return true;
    }
    let n = lowercase(name);
    let f = lowercase(filter);
    contains_text(n.as_str(), f.as_str())
}

/// The types among the first `k` of `all_types()` that pass `filter`, in order.
pub open spec fn visible_prefix(filter: Seq<char>, k: int) -> Seq<WidgetType>
    decreases k,
{
    if k <= 0 {
        Seq::empty()
    } else if passes_filter(kind_name(all_types()[k - 1]), filter) {
        visible_prefix(filter, k - 1).push(all_types()[k - 1])
    } else {
        visible_prefix(filter, k - 1)
    }
}

/// The palette of widget types, with its search text.
pub struct WidgetPanel {
    pub search_filter: String,
}

impl WidgetPanel {
    pub fn new() -> (r: WidgetPanel)
        ensures
            r.search_filter@ == Seq::<char>::empty(),
    {
        WidgetPanel { search_filter: String::new() }
    }

    /// The widget types that the palette lists for its search text, in order.
    pub fn visible_types(&self) -> (r: Vec<WidgetType>)
        ensures
            r@ == visible_prefix(self.search_filter@, 6),
    {
        let all = WidgetType::all();
        let mut out: Vec<WidgetType> = Vec::new();
        let mut i: usize = 0;
        while i < all.len()
            invariant
                all@ == all_types(),
                0 <= i <= 6,
                out@ == visible_prefix(self.search_filter@, i as int),
            decreases 6 - i,
        {
            let t = all[i];
            if name_passes_filter(t.name(), self.search_filter.as_str()) {
                out.push(t);
            }
            i = i + 1;
        }
        out
    }
}

/// The property editor's record of which widget it edits.
pub struct PropertyPanel {
    pub selected_widget_id: Option<WidgetId>,
}

impl PropertyPanel {
    pub fn new() -> (r: PropertyPanel)
        ensures
            r.selected_widget_id is None,
    {
        PropertyPanel { selected_widget_id: None }
    }

    pub fn set_selected_widget(&mut self, widget_id: Option<WidgetId>)
        ensures
            final(self).selected_widget_id == widget_id,
    {
        self.selected_widget_id = widget_id;
    }
}

/// The designer's state: the dashboard, the two panels and the selection,
/// which may name a widget that is gone.
pub struct DashboardApp {
    pub dashboard: Dashboard,
    pub widget_panel: WidgetPanel,
    pub property_panel: PropertyPanel,
    pub selected_widget_id: Option<WidgetId>,
}

impl DashboardApp {
    pub open spec fn wf(&self) -> bool {
        &&& self.dashboard.wf()
        &&& self.property_panel.selected_widget_id == self.selected_widget_id
    }

    pub fn new() -> (r: DashboardApp)
        ensures
            r.wf(),
            r.dashboard@.len() == 0,
            r.selected_widget_id is None,
            r.widget_panel.search_filter@.len() == 0,
    {
        DashboardApp {
            dashboard: Dashboard::new(),
            widget_panel: WidgetPanel::new(),
            property_panel: PropertyPanel::new(),
            selected_widget_id: None,
        }
    }

    /// Makes `widget_id` the selection, here and in the property panel.
    pub fn handle_widget_selection(&mut self, widget_id: Option<WidgetId>)
        requires
            old(self).wf(),
        ensures
            final(self).wf(),
            final(self).selected_widget_id == widget_id,
            final(self).dashboard@ == old(self).dashboard@,
    {
        self.selected_widget_id = widget_id;
        self.property_panel.set_selected_widget(widget_id);
    }

    /// Adds a new widget of `widget_type` at `position` with id `id` and selects
    /// it; fails with `DuplicateId`, changing nothing, if the id is taken.
    pub fn add_widget_with_id(&mut self, id: WidgetId, widget_type: WidgetType, position: Pos2) -> (r: Result<
        WidgetId,
        DashboardError,
    >)
        requires
            old(self).wf(),
            position.valid(),
        ensures
            final(self).wf(),
            r is Err <==> contains_id(old(self).dashboard@, id),
            match r {
                Ok(new_id) => {
                    &&& new_id == id
                    &&& final(self).dashboard@.len() == old(self).dashboard@.len() + 1
                    &&& final(self).dashboard@.drop_last() == old(self).dashboard@
                    &&& final(self).dashboard@.last().id == id
                    &&& final(self).dashboard@.last().widget_type == widget_type
                    &&& final(self).dashboard@.last().position == position
                    &&& final(self).dashboard@.last().size == (Vec2 { x: 200, y: 150 })
                    &&& final(self).dashboard@.last().title@ == default_title(widget_type)
                    &&& final(self).dashboard@.last().data.is_default_for(widget_type)
                    &&& final(self).selected_widget_id == Some(id)
                },
                Err(e) => e == DashboardError::DuplicateId && final(self).dashboard@ == old(self).dashboard@
                    && final(self).selected_widget_id == old(self).selected_widget_id,
            },
    {
        let widget = DashboardWidget::with_id(id, widget_type, position);
        match self.dashboard.add_widget(widget) {
            Ok(()) => {
                assert(self.dashboard@.drop_last() =~= old(self).dashboard@);
                self.handle_widget_selection(Some(id));
                Ok(id)
            },
            Err(e) => Err(e),
        }
    }

    /// Adds a new widget of `widget_type` at `position` with a fresh random id
    /// and selects it. Should the drawn id already be taken, nothing changes
    /// and `DuplicateId` is returned; on an empty dashboard that cannot happen.
    pub fn add_widget(&mut self, widget_type: WidgetType, position: Pos2) -> (r: Result<WidgetId, DashboardError>)
        requires
            old(self).wf(),
            position.valid(),
        ensures
            final(self).wf(),
            old(self).dashboard@.len() == 0 ==> r is Ok,
            match r {
                Ok(id) => {
                    &&& !contains_id(old(self).dashboard@, id)
                    &&& final(self).dashboard@.len() == old(self).dashboard@.len() + 1
                    &&& final(self).dashboard@.drop_last() == old(self).dashboard@
                    &&& final(self).dashboard@.last().id == id
                    &&& final(self).dashboard@.last().widget_type == widget_type
                    &&& final(self).dashboard@.last().position == position
                    &&& final(self).dashboard@.last().size == (Vec2 { x: 200, y: 150 })
                    &&& final(self).dashboard@.last().title@ == default_title(widget_type)
                    &&& final(self).dashboard@.last().data.is_default_for(widget_type)
                    &&& final(self).selected_widget_id == Some(id)
                },
                Err(e) => e == DashboardError::DuplicateId && final(self).dashboard@ == old(self).dashboard@
                    && final(self).selected_widget_id == old(self).selected_widget_id,
            },
    {
        self.add_widget_with_id(WidgetId::new_random(), widget_type, position)
    }

    /// Removes the selected widget, if any, and clears the selection.
    pub fn delete_selected(&mut self)
        requires
            old(self).wf(),
        ensures
            final(self).wf(),
            final(self).selected_widget_id is None,
            match old(self).selected_widget_id {
                Some(id) => final(self).dashboard@ == without_id(old(self).dashboard@, id),
                None => final(self).dashboard@ == old(self).dashboard@,
            },
    {
        match self.selected_widget_id {
            Some(id) => {
                self.dashboard.remove_widget(id);
            },
            None => {},
        }
        self.handle_widget_selection(None);
    }
}

} // verus!
