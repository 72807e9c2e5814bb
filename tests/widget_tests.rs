use dashboard_designer::chart::{Chart, ChartType};
use dashboard_designer::gauge::Gauge;
use dashboard_designer::geometry::{Pos2, Vec2};
use dashboard_designer::ids::WidgetId;
use dashboard_designer::panels::{matches_folded, name_passes_filter, WidgetPanel};
use dashboard_designer::table::Table;
use dashboard_designer::widgets::{DashboardWidget, WidgetData, WidgetType};

fn s(x: &str) -> String {
    x.to_string()
}

#[test]
fn widget_types_and_names() {
    let all = WidgetType::all();
    assert_eq!(all.len(), 6);
    let names: Vec<&str> = all.iter().map(|t| t.name()).collect();
    assert_eq!(names, vec!["Chart", "Gauge", "Table", "Text", "Button", "Image"]);
}

#[test]
fn new_widget_defaults() {
    let w = DashboardWidget::with_id(WidgetId::from_u128(9), WidgetType::Gauge, Pos2::new(100, 110));
    assert_eq!(w.title, "Gauge Widget");
    assert_eq!(w.size, Vec2::new(200, 150));
    assert_eq!(w.position, Pos2::new(100, 110));
    match w.data {
        WidgetData::Gauge { value, min, max, unit } => {
            assert_eq!((value, min, max), (50, 0, 100));
            assert_eq!(unit, "%");
        }
        _ => panic!("wrong payload"),
    }
    let c = DashboardWidget::new(WidgetType::Chart, Pos2::new(0, 0));
    assert_eq!(c.title, "Chart Widget");
    match c.data {
        WidgetData::Chart { data_points, chart_type } => {
            assert_eq!(data_points, vec![(0, 0), (1000, 1000), (2000, 500), (3000, 2000)]);
            assert_eq!(chart_type, ChartType::Line);
        }
        _ => panic!("wrong payload"),
    }
}

#[test]
fn random_ids_differ() {
    let a = DashboardWidget::new(WidgetType::Text, Pos2::new(0, 0));
    let b = DashboardWidget::new(WidgetType::Text, Pos2::new(0, 0));
    assert_ne!(a.id, b.id);
}

#[test]
fn gauge_set_value_clamps_to_nearest_bound() {
    let mut g = Gauge::new(s("g"), 0, 100);
    assert_eq!(g.value, 50);
    g.set_value(150);
    assert_eq!(g.value, 100);
    g.set_value(-20);
    assert_eq!(g.value, 0);
    g.set_value(42);
    assert_eq!(g.value, 42);
}

#[test]
fn gauge_zones_and_colors() {
    let mut g = Gauge::new(s("g"), 0, 100);
    assert_eq!(g.color_zones.len(), 3);
    assert_eq!((g.color_zones[0].min, g.color_zones[0].max), (0, 70));
    assert_eq!((g.color_zones[1].min, g.color_zones[1].max), (70, 90));
    assert_eq!((g.color_zones[2].min, g.color_zones[2].max), (90, 100));
    g.set_value(50);
    assert_eq!(g.get_value_color(), [0, 255, 0]);
    g.set_value(80);
    assert_eq!(g.get_value_color(), [255, 255, 0]);
    g.set_value(95);
    assert_eq!(g.get_value_color(), [255, 0, 0]);
    g.color_zones.clear();
    assert_eq!(g.get_value_color(), [160, 160, 160]);
    let h = Gauge::new(s("h"), 100, 200);
    assert_eq!(h.value, 150);
    assert_eq!(h.color_zones[0].max, 170);
}

#[test]
fn payload_gauge_write_clamps() {
    let mut d = WidgetData::default_for(WidgetType::Gauge);
    d.set_gauge_value(1000);
    assert!(matches!(d, WidgetData::Gauge { value: 100, .. }));
    d.set_gauge_value(-1000);
    assert!(matches!(d, WidgetData::Gauge { value: 0, .. }));
}

#[test]
fn table_remove_header_then_add_row_has_one_cell() {
    let mut d = WidgetData::default_for(WidgetType::Table);
    d.remove_table_header();
    d.add_table_row(vec![s("Cell 1"), s("Cell 2")]);
    match d {
        WidgetData::Table { headers, rows } => {
            assert_eq!(headers, vec![s("Name")]);
            assert_eq!(rows.len(), 3);
            assert_eq!(rows[2], vec![s("Cell 1")]);
            assert_eq!(rows[0], vec![s("Item 1")]);
        }
        _ => panic!("wrong payload"),
    }
}

#[test]
fn table_add_header_pads_rows() {
    let mut d = WidgetData::default_for(WidgetType::Table);
    d.add_table_header(s("Header 3"));
    d.add_table_row(Vec::new());
    d.remove_table_row();
    match d {
        WidgetData::Table { headers, rows } => {
            assert_eq!(headers.len(), 3);
            assert_eq!(rows.len(), 2);
            assert_eq!(rows[1], vec![s("Item 2"), s("200"), s("")]);
        }
        _ => panic!("wrong payload"),
    }
}

#[test]
fn table_edits_leave_other_payloads_alone() {
    let mut d = WidgetData::default_for(WidgetType::Text);
    d.add_table_header(s("x"));
    d.add_table_row(vec![s("y")]);
    match d {
        WidgetData::Text { content, font_size } => {
            assert_eq!(content, "Sample Text");
            assert_eq!(font_size, 14);
        }
        _ => panic!("wrong payload"),
    }
}

#[test]
fn table_struct_rows_and_columns() {
    let mut t = Table::new(s("t"), vec![s("a"), s("b")], vec![vec![s("1"), s("2")]]);
    t.add_row(vec![s("3")]);
    assert_eq!(t.data[1], vec![s("3"), s("")]);
    t.add_row(vec![s("4"), s("5"), s("6")]);
    assert_eq!(t.data[2], vec![s("4"), s("5")]);
    t.add_column(s("c"), s("-"));
    assert_eq!(t.headers, vec![s("a"), s("b"), s("c")]);
    assert_eq!(t.data[0], vec![s("1"), s("2"), s("-")]);
    assert!(t.sortable && t.striped && !t.filterable && t.sort_column.is_none());
}

#[test]
fn chart_updates() {
    let mut c = Chart::new(s("c"));
    assert_eq!(c.data.len(), 4);
    c.update_data(vec![(1, 2)]);
    c.set_chart_type(ChartType::Bar);
    assert_eq!(c.data, vec![(1, 2)]);
    assert_eq!(c.chart_type, ChartType::Bar);
}

#[test]
fn palette_filter_ignores_case() {
    assert!(name_passes_filter("Chart", "CH"));
    assert!(name_passes_filter("Button", "tTo"));
    assert!(!name_passes_filter("Gauge", "x"));
    assert!(name_passes_filter("Gauge", ""));
    assert!(matches_folded("table", "abl"));
    assert!(!matches_folded("table", "ABL"));
    let mut p = WidgetPanel::new();
    assert_eq!(p.visible_types().len(), 6);
    p.search_filter = s("TA");
    assert_eq!(p.visible_types(), vec![WidgetType::Table]);
    p.search_filter = s("t");
    assert_eq!(
        p.visible_types(),
        vec![WidgetType::Chart, WidgetType::Table, WidgetType::Text, WidgetType::Button]
    );
}

fn rows_of(t: &Table) -> Vec<Vec<&str>> {
    t.data.iter().map(|r| r.iter().map(|c| c.as_str()).collect()).collect()
}

#[test]
fn sort_by_column_numbers_then_toggle_direction() {
    let mut t = Table::new(
        s("t"),
        vec![s("name"), s("value")],
        vec![vec![s("b"), s("10")], vec![s("a"), s("9")], vec![s("c"), s("-3")]],
    );
    t.sort_by_column(1);
    assert_eq!(rows_of(&t), vec![vec!["c", "-3"], vec!["a", "9"], vec!["b", "10"]]);
    assert_eq!(t.sort_column, Some(1));
    assert!(t.sort_ascending);
    t.sort_by_column(1);
    assert_eq!(rows_of(&t), vec![vec!["b", "10"], vec!["a", "9"], vec!["c", "-3"]]);
    assert!(!t.sort_ascending);
    t.sort_by_column(0);
    assert_eq!(rows_of(&t), vec![vec!["a", "9"], vec!["b", "10"], vec!["c", "-3"]]);
    assert!(t.sort_ascending);
}

#[test]
fn sort_by_column_text_short_rows_and_bad_column() {
    let mut t = Table::new(
        s("t"),
        vec![s("x"), s("y")],
        vec![vec![s("pear"), s("b")], vec![s("apple")], vec![s("fig"), s("a")]],
    );
    t.sort_by_column(1);
    assert_eq!(rows_of(&t), vec![vec!["apple"], vec!["fig", "a"], vec!["pear", "b"]]);
    t.sort_by_column(5);
    assert_eq!(t.sort_column, Some(1));
    assert_eq!(rows_of(&t), vec![vec!["apple"], vec!["fig", "a"], vec!["pear", "b"]]);
}

#[test]
fn chart_point_edits() {
    let mut d = WidgetData::default_for(WidgetType::Chart);
    d.add_chart_point();
    d.remove_chart_point(0);
    d.remove_chart_point(99);
    d.set_chart_type(ChartType::Scatter);
    match d {
        WidgetData::Chart { data_points, chart_type } => {
            assert_eq!(data_points, vec![(1000, 1000), (2000, 500), (3000, 2000), (4000, 0)]);
            assert_eq!(chart_type, ChartType::Scatter);
        }
        _ => panic!("wrong payload"),
    }
}

#[test]
fn instances_built_from_a_widget() {
    let w = DashboardWidget::with_id(WidgetId::from_u128(1), WidgetType::Chart, Pos2::new(0, 0));
    let c = w.get_chart_instance(&vec![(5, 6)]).unwrap();
    assert_eq!(c.title, "Chart Widget");
    assert_eq!(c.data, vec![(5, 6)]);
    assert_eq!(c.chart_type, ChartType::Line);
    let g = w.get_gauge_instance(500, 0, 100, "rpm").unwrap();
    assert_eq!((g.value, g.min_value, g.max_value), (100, 0, 100));
    assert_eq!(g.unit, "rpm");
    let t = DashboardWidget::with_id(WidgetId::from_u128(2), WidgetType::Text, Pos2::new(0, 0));
    assert!(t.get_chart_instance(&vec![]).is_none());
}

#[test]
fn gauge_range_and_unit_edits() {
    let mut d = WidgetData::default_for(WidgetType::Gauge);
    d.set_gauge_range(60, 200);
    assert!(matches!(d, WidgetData::Gauge { value: 60, min: 60, max: 200, .. }));
    d.set_gauge_range(0, 10);
    assert!(matches!(d, WidgetData::Gauge { value: 10, min: 0, max: 10, .. }));
    d.set_gauge_range(5, 1);
    assert!(matches!(d, WidgetData::Gauge { value: 10, min: 0, max: 10, .. }));
    d.set_gauge_unit(s("rpm"));
    match d {
        WidgetData::Gauge { unit, .. } => assert_eq!(unit, "rpm"),
        _ => panic!("wrong payload"),
    }
}

#[test]
fn default_header_and_row_texts() {
    let mut d = WidgetData::default_for(WidgetType::Table);
    d.add_default_table_header();
    d.add_default_table_row();
    d.rename_table_header(0, s("Key"));
    d.rename_table_header(9, s("ignored"));
    match d {
        WidgetData::Table { headers, rows } => {
            assert_eq!(headers, vec![s("Key"), s("Value"), s("Header 3")]);
            assert_eq!(rows[2], vec![s("Cell 1"), s("Cell 2"), s("Cell 3")]);
            assert_eq!(rows[0], vec![s("Item 1"), s("100"), s("")]);
        }
        _ => panic!("wrong payload"),
    }
}

#[test]
fn chart_point_replacement() {
    let mut d = WidgetData::default_for(WidgetType::Chart);
    d.set_chart_point(1, (7, -7));
    d.set_chart_point(10, (0, 0));
    match d {
        WidgetData::Chart { data_points, .. } => {
            assert_eq!(data_points, vec![(0, 0), (7, -7), (2000, 500), (3000, 2000)]);
        }
        _ => panic!("wrong payload"),
    }
}

#[test]
fn sort_numbers_with_signs_and_fractions() {
    let mut t = Table::new(
        s("t"),
        vec![s("v")],
        vec![vec![s("+12")], vec![s("-4")], vec![s("1.5")], vec![s("3")]],
    );
    t.sort_by_column(0);
    let cells: Vec<&str> = t.data.iter().map(|r| r[0].as_str()).collect();
    // "1.5" is not an integer, so it compares to its neighbours as text
    assert_eq!(cells, vec!["-4", "+12", "1.5", "3"]);
}

#[test]
fn add_widget_with_id_reports_duplicates() {
    let mut app = dashboard_designer::panels::DashboardApp::new();
    let id = WidgetId::from_u128(77);
    assert_eq!(app.add_widget_with_id(id, WidgetType::Gauge, Pos2::new(1, 2)), Ok(id));
    assert_eq!(
        app.add_widget_with_id(id, WidgetType::Text, Pos2::new(3, 4)),
        Err(dashboard_designer::dashboard::DashboardError::DuplicateId)
    );
    assert_eq!(app.dashboard.len(), 1);
    assert_eq!(app.selected_widget_id, Some(id));
}
