use vstd::prelude::*;
use crate::chart::{Chart, ChartType, sample_points, sample_points_vec};
use crate::gauge::Gauge;
use crate::gauge::clamp_value;
use crate::geometry::{Pos2, Vec2};
use crate::ids::WidgetId;
use crate::text::{numbered, numbered_text};
use crate::table::{strs_view, rows_view, fitted, rows_have_len, fit_row, push_cell_to_rows, truncate_rows};

verus! {

broadcast use vstd::string::group_string_axioms;

/// The six kinds of widget.
#[derive(Debug, Clone, Copy, PartialEq, Eq, Structural)]
pub enum WidgetType {
    Chart,
    Gauge,
    Table,
    Text,
    Button,
    Image,
}

/// The data a widget carries; its variant is fixed when the widget is made.
/// Chart samples are in thousandths; an image's scale is in percent.
#[derive(Debug, Clone)]
pub enum WidgetData {
    Chart { data_points: Vec<(i64, i64)>, chart_type: ChartType },
    Gauge { value: i64, min: i64, max: i64, unit: String },
    Table { headers: Vec<String>, rows: Vec<Vec<String>> },
    Text { content: String, font_size: u32 },
    Button { label: String, action: String },
    Image { path: String, scale_percent: u32 },
}

/// A positioned, sized, titled widget.
#[derive(Debug, Clone)]
pub struct DashboardWidget {
    pub id: WidgetId,
    pub widget_type: WidgetType,
    pub position: Pos2,
    pub size: Vec2,
    pub title: String,
    pub data: WidgetData,
}

pub open spec fn all_types() -> Seq<WidgetType> {
    seq![
        WidgetType::Chart,
        WidgetType::Gauge,
        WidgetType::Table,
        WidgetType::Text,
        WidgetType::Button,
        WidgetType::Image,
    ]
}

pub open spec fn kind_name(t: WidgetType) -> Seq<char> {
    match t {
        WidgetType::Chart => "Chart"@,
        WidgetType::Gauge => "Gauge"@,
        WidgetType::Table => "Table"@,
        WidgetType::Text => "Text"@,
        WidgetType::Button => "Button"@,
        WidgetType::Image => "Image"@,
    }
}

/// The title a new widget gets: its type's name followed by " Widget".
pub open spec fn default_title(t: WidgetType) -> Seq<char> {
    kind_name(t) + " Widget"@
}

impl WidgetType {
    pub fn all() -> (r: Vec<WidgetType>)
        ensures
            r@ == all_types(),
    {
        let r = vec![
            WidgetType::Chart,
            WidgetType::Gauge,
            WidgetType::Table,
            WidgetType::Text,
            WidgetType::Button,
            WidgetType::Image,
        ];
        assert(r@ =~= all_types());
        r
    }

    pub fn name(&self) -> (r: &'static str)
        ensures
            r@ == kind_name(*self),
    {
        match self {
            WidgetType::Chart => "Chart",
            WidgetType::Gauge => "Gauge",
            WidgetType::Table => "Table",
            WidgetType::Text => "Text",
            WidgetType::Button => "Button",
            WidgetType::Image => "Image",
        }
    }
}

impl WidgetData {
    pub open spec fn kind(&self) -> WidgetType {
        match self {
            WidgetData::Chart { .. } => WidgetType::Chart,
            WidgetData::Gauge { .. } => WidgetType::Gauge,
            WidgetData::Table { .. } => WidgetType::Table,
            WidgetData::Text { .. } => WidgetType::Text,
            WidgetData::Button { .. } => WidgetType::Button,
            WidgetData::Image { .. } => WidgetType::Image,
        }
    }

    /// Each variant's own invariant.
    pub open spec fn wf(&self) -> bool {
        match self {
            WidgetData::Gauge { value, min, max, .. } => *min <= *value <= *max,
            WidgetData::Table { headers, rows } => rows_have_len(rows_view(rows@), headers@.len() as int),
            WidgetData::Text { font_size, .. } => *font_size > 0,
            WidgetData::Image { scale_percent, .. } => *scale_percent > 0,
            _ => true,
        }
    }

    pub open spec fn table_headers(&self) -> Seq<Seq<char>> {
        match self {
            WidgetData::Table { headers, .. } => strs_view(headers@),
            _ => Seq::empty(),
        }
    }

    pub open spec fn table_rows(&self) -> Seq<Seq<Seq<char>>> {
        match self {
            WidgetData::Table { rows, .. } => rows_view(rows@),
            _ => Seq::empty(),
        }
    }

    /// The payload that a new widget of type `t` starts with.
    pub open spec fn is_default_for(&self, t: WidgetType) -> bool {
        match t {
            WidgetType::Chart => match self {
                WidgetData::Chart { data_points, chart_type } => data_points@ == sample_points()
                    && *chart_type == ChartType::Line,
                _ => false,
            },
            WidgetType::Gauge => match self {
                WidgetData::Gauge { value, min, max, unit } => *value == 50 && *min == 0 && *max == 100
                    && unit@ == "%"@,
                _ => false,
            },
            WidgetType::Table => match self {
                WidgetData::Table { headers, rows } => strs_view(headers@) == seq!["Name"@, "Value"@]
                    && rows_view(rows@) == seq![seq!["Item 1"@, "100"@], seq!["Item 2"@, "200"@]],
                _ => false,
            },
            WidgetType::Text => match self {
                WidgetData::Text { content, font_size } => content@ == "Sample Text"@ && *font_size == 14,
                _ => false,
            },
            WidgetType::Button => match self {
                WidgetData::Button { label, action } => label@ == "Click Me"@ && action@ == "action"@,
                _ => false,
            },
            WidgetType::Image => match self {
                WidgetData::Image { path, scale_percent } => path@ == "path/to/image.png"@
                    && *scale_percent == 100,
                _ => false,
            },
        }
    }

    /// The payload that a new widget of type `widget_type` starts with.
    pub fn default_for(widget_type: WidgetType) -> (r: WidgetData)
        ensures
            r.is_default_for(widget_type),
            r.kind() == widget_type,
            r.wf(),
    {
        match widget_type {
            WidgetType::Chart => WidgetData::Chart {
                data_points: sample_points_vec(),
                chart_type: ChartType::Line,
            },
            WidgetType::Gauge => WidgetData::Gauge {
                value: 50,
                min: 0,
                max: 100,
                unit: "%".to_string(),
            },
            WidgetType::Table => {
                let headers = vec!["Name".to_string(), "Value".to_string()];
                let rows = vec![
                    vec!["Item 1".to_string(), "100".to_string()],
                    vec!["Item 2".to_string(), "200".to_string()],
                ];
                assert(strs_view(headers@) =~= seq!["Name"@, "Value"@]);
                assert(strs_view(rows@[0]@) =~= seq!["Item 1"@, "100"@]);
                assert(strs_view(rows@[1]@) =~= seq!["Item 2"@, "200"@]);
                assert(rows_view(rows@) =~= seq![seq!["Item 1"@, "100"@], seq!["Item 2"@, "200"@]]);
                WidgetData::Table { headers, rows }
            },
            WidgetType::Text => WidgetData::Text { content: "Sample Text".to_string(), font_size: 14 },
            WidgetType::Button => WidgetData::Button {
                label: "Click Me".to_string(),
                action: "action".to_string(),
            },
            WidgetType::Image => WidgetData::Image {
                path: "path/to/image.png".to_string(),
                scale_percent: 100,
            },
        }
    }

    /// On a gauge, stores `v` moved into `[min, max]`; other payloads are left as they are.
    pub fn set_gauge_value(&mut self, v: i64)
        requires
            old(self).wf(),
        ensures
            final(self).wf(),
            final(self).kind() == old(self).kind(),
            match *old(self) {
                WidgetData::Gauge { value: _, min, max, unit } => *final(self) == (WidgetData::Gauge {
                    value: clamp_value(v as int, min as int, max as int) as i64,
                    min,
                    max,
                    unit,
                }),
                _ => *final(self) == *old(self),
            },
    {
        match self {
            WidgetData::Gauge { value, min, max, .. } => {
                *value = if v < *min {
                    *min
                } else if v > *max {
                    *max
                } else {
                    v
                };
            },
            _ => {},
        }
    }

    /// On a table, appends `header` and an empty cell to every row.
    pub fn add_table_header(&mut self, header: String)
        requires
            old(self).wf(),
        ensures
            final(self).wf(),
            final(self).kind() == old(self).kind(),
            (*old(self)) is Table ==> final(self).table_headers() == old(self).table_headers().push(header@)
                && final(self).table_rows() == old(self).table_rows().map_values(
                |r: Seq<Seq<char>>| r.push(Seq::<char>::empty()),
            ),
            !((*old(self)) is Table) ==> *final(self) == *old(self),
    {
        match self {
            WidgetData::Table { headers, rows } => {
                let ghost oh = strs_view(headers@);
                let ghost orows = rows_view(rows@);
                headers.push(header);
                assert(strs_view(headers@) =~= oh.push(header@));
                let empty = String::new();
                push_cell_to_rows(rows, &empty);
                proof {
                    assert forall|i: int| 0 <= i < rows_view(rows@).len() implies (#[trigger] rows_view(rows@)[i]).len() == headers@.len() by {
                        assert(orows[i].len() == oh.len());
                    }
                }
            },
            _ => {},
        }
    }

    /// On a table with headers, drops the last header and cuts every row to
    /// the new number of headers.
    pub fn remove_table_header(&mut self)
        requires
            old(self).wf(),
        ensures
            final(self).wf(),
            final(self).kind() == old(self).kind(),
            (*old(self)) is Table && old(self).table_headers().len() > 0 ==> {
                let n = old(self).table_headers().len() - 1;
                &&& final(self).table_headers() == old(self).table_headers().take(n)
                &&& final(self).table_rows() == old(self).table_rows().map_values(|r: Seq<Seq<char>>| r.take(n))
            },
            !((*old(self)) is Table && old(self).table_headers().len() > 0) ==> *final(self) == *old(self),
    {
        match self {
            WidgetData::Table { headers, rows } => {
                if headers.len() > 0 {
                    let ghost oh = strs_view(headers@);
                    let ghost orows = rows_view(rows@);
                    headers.pop();
                    let n = headers.len();
                    assert(strs_view(headers@) =~= oh.take(n as int));
                    truncate_rows(rows, n);
                    proof {
                        assert forall|i: int| 0 <= i < orows.len() implies (#[trigger] orows[i]).len() > n by {}
                        assert(rows_view(rows@) =~= orows.map_values(|r: Seq<Seq<char>>| r.take(n as int)));
                    }
                }
            },
            _ => {},
        }
    }

    /// On a table, appends `cells` cut or padded with empty cells to the number of headers.
    pub fn add_table_row(&mut self, cells: Vec<String>)
        requires
            old(self).wf(),
        ensures
            final(self).wf(),
            final(self).kind() == old(self).kind(),
            (*old(self)) is Table ==> final(self).table_headers() == old(self).table_headers()
                && final(self).table_rows() == old(self).table_rows().push(
                fitted(strs_view(cells@), old(self).table_headers().len() as int),
            ),
            !((*old(self)) is Table) ==> *final(self) == *old(self),
    {
        match self {
            WidgetData::Table { headers, rows } => {
                let ghost orows = rows_view(rows@);
                let row = fit_row(cells, headers.len());
                rows.push(row);
                assert(rows_view(rows@) =~= orows.push(strs_view(row@)));
            },
            _ => {},
        }
    }

    /// On a table with rows, drops the last row.
    pub fn remove_table_row(&mut self)
        requires
            old(self).wf(),
        ensures
            final(self).wf(),
            final(self).kind() == old(self).kind(),
            (*old(self)) is Table && old(self).table_rows().len() > 0 ==> final(self).table_headers()
                == old(self).table_headers() && final(self).table_rows() == old(self).table_rows().drop_last(),
            !((*old(self)) is Table && old(self).table_rows().len() > 0) ==> *final(self) == *old(self),
    {
        match self {
            WidgetData::Table { headers, rows } => {
                if rows.len() > 0 {
                    let ghost orows = rows_view(rows@);
                    rows.pop();
                    assert(rows_view(rows@) =~= orows.drop_last());
                }
            },
            _ => {},
        }
    }
}

/// A copy of `points`.
pub fn copy_points(points: &Vec<(i64, i64)>) -> (r: Vec<(i64, i64)>)
    ensures
        r@ == points@,
{
    let mut out: Vec<(i64, i64)> = Vec::new();
    let mut i: usize = 0;
    while i < points.len()
        invariant
            0 <= i <= points@.len(),
            out@ == points@.take(i as int),
        decreases points@.len() - i,
    {
        out.push(points[i]);
        assert(out@ =~= points@.take(i + 1));
        i = i + 1;
    }
    assert(out@ =~= points@);
    out
}

impl WidgetData {
    /// On a chart, appends the point `(n, 0)`, where `n` is the number of
    /// points before (in thousandths, as all samples).
    pub fn add_chart_point(&mut self)
        requires
            old(self).wf(),
        ensures
            final(self).wf(),
            final(self).kind() == old(self).kind(),
            match *old(self) {
                WidgetData::Chart { data_points, chart_type } => match *final(self) {
                    WidgetData::Chart { data_points: p, chart_type: t } => t == chart_type
                        && (data_points@.len() * 1000 <= i64::MAX ==> p@ == data_points@.push(
                        ((data_points@.len() * 1000) as i64, 0i64),
                    )) && (data_points@.len() * 1000 > i64::MAX ==> p@ == data_points@),
                    _ => false,
                },
                _ => *final(self) == *old(self),
            },
    {
        match self {
            WidgetData::Chart { data_points, .. } => {
                let n = data_points.len();
                if (n as u64) <= 9_223_372_036_854_775u64 {
                    data_points.push(((n as i64) * 1000, 0));
                }
            },
            _ => {},
        }
    }

    /// On a chart, removes the point at `index` if there is one.
    pub fn remove_chart_point(&mut self, index: usize)
        requires
            old(self).wf(),
        ensures
            final(self).wf(),
            final(self).kind() == old(self).kind(),
            match *old(self) {
                WidgetData::Chart { data_points, chart_type } => match *final(self) {
                    WidgetData::Chart { data_points: p, chart_type: t } => t == chart_type
                        && (index < data_points@.len() ==> p@ == data_points@.remove(index as int))
                        && (index >= data_points@.len() ==> p@ == data_points@),
                    _ => false,
                },
                _ => *final(self) == *old(self),
            },
    {
        match self {
            WidgetData::Chart { data_points, .. } => {
                if index < data_points.len() {
                    data_points.remove(index);
                }
            },
            _ => {},
        }
    }

    /// On a chart, changes how it is drawn.
    pub fn set_chart_type(&mut self, t: ChartType)
        requires
            old(self).wf(),
        ensures
            final(self).wf(),
            final(self).kind() == old(self).kind(),
            match *old(self) {
                WidgetData::Chart { data_points, chart_type: _ } => *final(self) == (WidgetData::Chart {
                    data_points,
                    chart_type: t,
                }),
                _ => *final(self) == *old(self),
            },
    {
        match self {
            WidgetData::Chart { chart_type, .. } => {
                *chart_type = t;
            },
            _ => {},
        }
    }

    /// On a gauge, sets the range to `[min, max]` and clamps the value into it;
    /// an empty range (`min > max`) and other payloads are left as they are.
    pub fn set_gauge_range(&mut self, new_min: i64, new_max: i64)
        requires
            old(self).wf(),
        ensures
            final(self).wf(),
            final(self).kind() == old(self).kind(),
            match *old(self) {
                WidgetData::Gauge { value, min, max, unit } => if new_min <= new_max {
                    *final(self) == (WidgetData::Gauge {
                        value: clamp_value(value as int, new_min as int, new_max as int) as i64,
                        min: new_min,
                        max: new_max,
                        unit,
                    })
                } else {
                    *final(self) == *old(self)
                },
                _ => *final(self) == *old(self),
            },
    {
        match self {
            WidgetData::Gauge { value, min, max, .. } => {
                if new_min <= new_max {
                    *min = new_min;
                    *max = new_max;
                    *value = if *value < new_min {
                        new_min
                    } else if *value > new_max {
                        new_max
                    } else {
                        *value
                    };
                }
            },
            _ => {},
        }
    }

    /// On a gauge, sets the unit text.
    pub fn set_gauge_unit(&mut self, new_unit: String)
        requires
            old(self).wf(),
        ensures
            final(self).wf(),
            final(self).kind() == old(self).kind(),
            match *old(self) {
                WidgetData::Gauge { value, min, max, unit: _ } => *final(self) == (WidgetData::Gauge {
                    value,
                    min,
                    max,
                    unit: new_unit,
                }),
                _ => *final(self) == *old(self),
            },
    {
        match self {
            WidgetData::Gauge { unit, .. } => {
                *unit = new_unit;
            },
            _ => {},
        }
    }

    /// On a chart, replaces the point at `index` if there is one.
    pub fn set_chart_point(&mut self, index: usize, point: (i64, i64))
        requires
            old(self).wf(),
        ensures
            final(self).wf(),
            final(self).kind() == old(self).kind(),
            match *old(self) {
                WidgetData::Chart { data_points, chart_type } => match *final(self) {
                    WidgetData::Chart { data_points: p, chart_type: t } => t == chart_type
                        && (index < data_points@.len() ==> p@ == data_points@.update(index as int, point))
                        && (index >= data_points@.len() ==> p@ == data_points@),
                    _ => false,
                },
                _ => *final(self) == *old(self),
            },
    {
        match self {
            WidgetData::Chart { data_points, .. } => {
                if index < data_points.len() {
                    data_points[index] = point;
                }
            },
            _ => {},
        }
    }

    /// On a table, renames the header at `index` if there is one.
    pub fn rename_table_header(&mut self, index: usize, name: String)
        requires
            old(self).wf(),
        ensures
            final(self).wf(),
            final(self).kind() == old(self).kind(),
            (*old(self)) is Table ==> final(self).table_rows() == old(self).table_rows()
                && (index < old(self).table_headers().len() ==> final(self).table_headers()
                == old(self).table_headers().update(index as int, name@))
                && (index >= old(self).table_headers().len() ==> final(self).table_headers()
                == old(self).table_headers()),
            !((*old(self)) is Table) ==> *final(self) == *old(self),
    {
        match self {
            WidgetData::Table { headers, rows } => {
                if index < headers.len() {
                    let ghost oh = strs_view(headers@);
                    headers[index] = name;
                    assert(strs_view(headers@) =~= oh.update(index as int, name@));
                }
            },
            _ => {},
        }
    }

    /// On a table with `n` headers, appends the header "Header <n + 1>" and an
    /// empty cell to every row.
    pub fn add_default_table_header(&mut self)
        requires
            old(self).wf(),
            old(self).table_headers().len() < usize::MAX,
        ensures
            final(self).wf(),
            final(self).kind() == old(self).kind(),
            (*old(self)) is Table ==> final(self).table_headers() == old(self).table_headers().push(
                numbered("Header"@, (old(self).table_headers().len() + 1) as nat),
            ) && final(self).table_rows() == old(self).table_rows().map_values(
                |r: Seq<Seq<char>>| r.push(Seq::<char>::empty()),
            ),
            !((*old(self)) is Table) ==> *final(self) == *old(self),
    {
        let n: usize = match self {
            WidgetData::Table { headers, .. } => headers.len(),
            _ => 0,
        };
        if let WidgetData::Table { .. } = self {
            let name = numbered_text("Header", n + 1);
            self.add_table_header(name);
        }
    }

    /// On a table with `n` headers, appends the row "Cell 1", ..., "Cell <n>".
    pub fn add_default_table_row(&mut self)
        requires
            old(self).wf(),
        ensures
            final(self).wf(),
            final(self).kind() == old(self).kind(),
            (*old(self)) is Table ==> final(self).table_headers() == old(self).table_headers()
                && final(self).table_rows() == old(self).table_rows().push(
                Seq::new(old(self).table_headers().len(), |i: int| numbered("Cell"@, (i + 1) as nat)),
            ),
            !((*old(self)) is Table) ==> *final(self) == *old(self),
    {
        let n: usize = match self {
            WidgetData::Table { headers, .. } => headers.len(),
            _ => 0,
        };
        if let WidgetData::Table { .. } = self {
            let mut cells: Vec<String> = Vec::new();
            let mut i: usize = 0;
            while i < n
                invariant
                    0 <= i <= n,
                    strs_view(cells@) == Seq::new(i as nat, |k: int| numbered("Cell"@, (k + 1) as nat)),
                decreases n - i,
            {
                let c = numbered_text("Cell", i + 1);
                let ghost prev = cells@;
                cells.push(c);
                assert(strs_view(cells@) =~= strs_view(prev).push(c@));
                assert(c@ == numbered("Cell"@, ((i as int) + 1) as nat));
                assert(strs_view(cells@) =~= Seq::new((i + 1) as nat, |k: int| numbered("Cell"@, (k + 1) as nat)));
                i = i + 1;
            }
            assert(fitted(strs_view(cells@), n as int) =~= strs_view(cells@));
            self.add_table_row(cells);
        }
    }
}

impl DashboardWidget {
    /// A chart of `data_points` titled and typed as this widget, if it is a chart.
    pub fn get_chart_instance(&self, data_points: &Vec<(i64, i64)>) -> (r: Option<Chart>)
        ensures
            match self.data {
                WidgetData::Chart { chart_type, .. } => r is Some && r->0.data@ == data_points@
                    && r->0.title@ == self.title@ && r->0.chart_type == chart_type,
                _ => r is None,
            },
    {
        match &self.data {
            WidgetData::Chart { chart_type, .. } => {
                let mut chart = Chart::new(self.title.clone());
                chart.update_data(copy_points(data_points));
                chart.set_chart_type(*chart_type);
                Some(chart)
            },
            _ => None,
        }
    }

    /// A gauge over `[min, max]` titled as this widget, holding `value`
    /// clamped into the range, with the given unit.
    pub fn get_gauge_instance(&self, value: i64, min: i64, max: i64, unit: &str) -> (r: Option<Gauge>)
        requires
            min <= max,
        ensures
            r is Some,
            r->0.wf(),
            r->0.title@ == self.title@,
            r->0.min_value == min,
            r->0.max_value == max,
            r->0.value == clamp_value(value as int, min as int, max as int),
            r->0.unit@ == unit@,
    {
        let mut gauge = Gauge::new(self.title.clone(), min, max);
        gauge.set_value(value);
        gauge.unit = unit.to_string();
        Some(gauge)
    }
}

impl DashboardWidget {
    pub open spec fn wf(&self) -> bool {
        &&& self.position.valid()
        &&& self.size.valid_size()
        &&& self.data.wf()
        &&& self.data.kind() == self.widget_type
    }

    /// A widget of type `widget_type` with the given id at `position`: default
    /// payload, size 200 x 150, and the title "<type name> Widget".
    pub fn with_id(id: WidgetId, widget_type: WidgetType, position: Pos2) -> (r: DashboardWidget)
        requires
            position.valid(),
        ensures
            r.wf(),
            r.id == id,
            r.widget_type == widget_type,
            r.position == position,
            r.size == (Vec2 { x: 200, y: 150 }),
            r.title@ == default_title(widget_type),
            r.data.is_default_for(widget_type),
    {
        let title = match widget_type {
            WidgetType::Chart => "Chart Widget".to_string(),
            WidgetType::Gauge => "Gauge Widget".to_string(),
            WidgetType::Table => "Table Widget".to_string(),
            WidgetType::Text => "Text Widget".to_string(),
            WidgetType::Button => "Button Widget".to_string(),
            WidgetType::Image => "Image Widget".to_string(),
        };
        proof {
            reveal_strlit("Chart Widget");
            reveal_strlit("Gauge Widget");
            reveal_strlit("Table Widget");
            reveal_strlit("Text Widget");
            reveal_strlit("Button Widget");
            reveal_strlit("Image Widget");
            reveal_strlit("Chart");
            reveal_strlit("Gauge");
            reveal_strlit("Table");
            reveal_strlit("Text");
            reveal_strlit("Button");
            reveal_strlit("Image");
            reveal_strlit(" Widget");
            assert(title@ =~= default_title(widget_type));
        }
        DashboardWidget {
            id,
            widget_type,
            position,
            size: Vec2 { x: 200, y: 150 },
            title,
            data: WidgetData::default_for(widget_type),
        }
    }

    /// A new widget of type `widget_type` at `position`, with a fresh random id.
    pub fn new(widget_type: WidgetType, position: Pos2) -> (r: DashboardWidget)
        requires
            position.valid(),
        ensures
            r.wf(),
            r.widget_type == widget_type,
            r.position == position,
            r.size == (Vec2 { x: 200, y: 150 }),
            r.title@ == default_title(widget_type),
            r.data.is_default_for(widget_type),
    {
        DashboardWidget::with_id(WidgetId::new_random(), widget_type, position)
    }
}

} // verus!
