use vstd::prelude::*;

verus! {

/// How a chart draws its samples.
#[derive(Debug, Clone, Copy, PartialEq, Eq, Structural)]
pub enum ChartType {
    Line,
    Scatter,
    Bar,
}

/// A titled series of `(x, y)` samples in display order, each coordinate in
/// thousandths.
#[derive(Debug, Clone)]
pub struct Chart {
    pub data: Vec<(i64, i64)>,
    pub title: String,
    pub chart_type: ChartType,
    pub show_axes: bool,
    pub show_grid: bool,
}

/// The four sample points that a new chart shows: (0, 0), (1, 1), (2, 0.5), (3, 2).
pub open spec fn sample_points() -> Seq<(i64, i64)> {
    seq![(0i64, 0i64), (1000i64, 1000i64), (2000i64, 500i64), (3000i64, 2000i64)]
}

pub fn sample_points_vec() -> (r: Vec<(i64, i64)>)
    ensures
        r@ == sample_points(),
{
    let r = vec![(0i64, 0i64), (1000i64, 1000i64), (2000i64, 500i64), (3000i64, 2000i64)];
    assert(r@ =~= sample_points());
    r
}

impl Chart {
    /// A line chart of the sample points, with axes and grid shown.
    pub fn new(title: String) -> (r: Chart)
        ensures
            r.data@ == sample_points(),
            r.title == title,
            r.chart_type == ChartType::Line,
            r.show_axes,
            r.show_grid,
    {
        Chart {
            data: sample_points_vec(),
            title,
            chart_type: ChartType::Line,
            show_axes: true,
            show_grid: true,
        }
    }

    pub fn update_data(&mut self, new_data: Vec<(i64, i64)>)
        ensures
            final(self).data@ == new_data@,
            final(self).title == old(self).title,
            final(self).chart_type == old(self).chart_type,
            final(self).show_axes == old(self).show_axes,
            final(self).show_grid == old(self).show_grid,
    {
        self.data = new_data;
    }

    pub fn set_chart_type(&mut self, chart_type: ChartType)
        ensures
            final(self).chart_type == chart_type,
            final(self).data@ == old(self).data@,
            final(self).title == old(self).title,
            final(self).show_axes == old(self).show_axes,
            final(self).show_grid == old(self).show_grid,
    {
        self.chart_type = chart_type;
    }
}

} // verus!
