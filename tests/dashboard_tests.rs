use dashboard_designer::dashboard::{resolve_selection, Dashboard, DashboardError};
use dashboard_designer::geometry::{Pos2, Vec2};
use dashboard_designer::ids::WidgetId;
use dashboard_designer::layout::{align_widgets, detect_collisions, Alignment};
use dashboard_designer::panels::DashboardApp;
use dashboard_designer::widgets::{DashboardWidget, WidgetType};

#[test]
fn end_to_end_chart_and_gauge() {
    let mut d = Dashboard::new();
    let chart = DashboardWidget::new(WidgetType::Chart, Pos2::new(100, 100));
    let gauge = DashboardWidget::new(WidgetType::Gauge, Pos2::new(100, 110));
    let chart_id = chart.id;
    let gauge_id = gauge.id;
    assert_eq!(d.add_widget(chart), Ok(()));
    assert_eq!(d.add_widget(gauge), Ok(()));
    let ps = d.placements();
    let hits = detect_collisions(&ps);
    assert_eq!(hits, vec![(chart_id, gauge_id)]);
    let mut ps = ps;
    align_widgets(&mut ps, Alignment::Left);
    d.apply_placements(&ps);
    assert_eq!(d.get_widget(chart_id).unwrap().position.x, 100);
    assert_eq!(d.get_widget(gauge_id).unwrap().position.x, 100);
    d.remove_widget(chart_id);
    assert_eq!(d.len(), 1);
    assert!(d.get_widget(chart_id).is_none());
    assert_eq!(d.get_widget(gauge_id).unwrap().widget_type, WidgetType::Gauge);
}

#[test]
fn duplicate_id_is_rejected() {
    let mut d = Dashboard::new();
    let id = WidgetId::from_u128(7);
    let a = DashboardWidget::with_id(id, WidgetType::Text, Pos2::new(0, 0));
    let b = DashboardWidget::with_id(id, WidgetType::Image, Pos2::new(5, 5));
    assert_eq!(d.add_widget(a), Ok(()));
    assert_eq!(d.add_widget(b), Err(DashboardError::DuplicateId));
    assert_eq!(d.len(), 1);
    assert_eq!(d.get_widget(id).unwrap().widget_type, WidgetType::Text);
}

#[test]
fn remove_absent_is_a_no_op_and_lookup_reports_not_found() {
    let mut d = Dashboard::new();
    d.remove_widget(WidgetId::from_u128(1));
    assert_eq!(d.len(), 0);
    assert!(d.get_widget(WidgetId::from_u128(1)).is_none());
    assert!(d.get_widget_mut(WidgetId::from_u128(1)).is_none());
    assert_eq!(d.drag_widget(WidgetId::from_u128(1), Vec2::new(1, 1)), Err(DashboardError::NotFound));
    assert_eq!(d.release_drag(WidgetId::from_u128(1)), Err(DashboardError::NotFound));
}

#[test]
fn drag_then_release_snaps_to_grid() {
    let mut d = Dashboard::new();
    let id = WidgetId::from_u128(3);
    d.add_widget(DashboardWidget::with_id(id, WidgetType::Button, Pos2::new(100, 100))).unwrap();
    assert_eq!(d.drag_widget(id, Vec2::new(9, -31)), Ok(()));
    assert_eq!(d.get_widget(id).unwrap().position, Pos2::new(109, 69));
    assert_eq!(d.release_drag(id), Ok(()));
    assert_eq!(d.get_widget(id).unwrap().position, Pos2::new(100, 60));
}

#[test]
fn snap_rounds_halves_away_from_zero() {
    let d = Dashboard::new();
    assert_eq!(d.snap_position(Pos2::new(10, -10)), Pos2::new(20, -20));
    assert_eq!(d.snap_position(Pos2::new(29, -29)), Pos2::new(20, -20));
    let mut off = Dashboard::with_grid(20, false);
    assert_eq!(off.snap_position(Pos2::new(13, 7)), Pos2::new(13, 7));
    let id = WidgetId::from_u128(4);
    off.add_widget(DashboardWidget::with_id(id, WidgetType::Text, Pos2::new(13, 7))).unwrap();
    off.release_drag(id).unwrap();
    assert_eq!(off.get_widget(id).unwrap().position, Pos2::new(13, 7));
    off.set_snap_enabled(true);
    assert!(off.snap_enabled());
    assert_eq!(off.grid_size(), 20);
}

#[test]
fn get_widget_mut_edits_in_place() {
    let mut d = Dashboard::new();
    let id = WidgetId::from_u128(5);
    d.add_widget(DashboardWidget::with_id(id, WidgetType::Text, Pos2::new(0, 0))).unwrap();
    d.get_widget_mut(id).unwrap().title = "Renamed".to_string();
    assert_eq!(d.get_widget(id).unwrap().title, "Renamed");
    assert_eq!(d.widgets().len(), 1);
}

#[test]
fn selection_reporting() {
    let a = Some(WidgetId::from_u128(1));
    let b = Some(WidgetId::from_u128(2));
    assert_eq!(resolve_selection(a, true, b), b);
    assert_eq!(resolve_selection(a, true, None), None);
    assert_eq!(resolve_selection(a, false, None), a);
}

#[test]
fn app_add_select_and_delete() {
    let mut app = DashboardApp::new();
    let id = app.add_widget(WidgetType::Table, Pos2::new(400, 300)).unwrap();
    assert_eq!(app.selected_widget_id, Some(id));
    assert_eq!(app.property_panel.selected_widget_id, Some(id));
    assert_eq!(app.dashboard.len(), 1);
    app.delete_selected();
    assert_eq!(app.selected_widget_id, None);
    assert_eq!(app.dashboard.len(), 0);
}

#[test]
fn snap_all_moves_every_widget_to_the_grid() {
    let mut d = Dashboard::new();
    let a = WidgetId::from_u128(10);
    let b = WidgetId::from_u128(11);
    d.add_widget(DashboardWidget::with_id(a, WidgetType::Text, Pos2::new(31, 49))).unwrap();
    d.add_widget(DashboardWidget::with_id(b, WidgetType::Image, Pos2::new(-11, 5))).unwrap();
    d.snap_all();
    assert_eq!(d.get_widget(a).unwrap().position, Pos2::new(40, 40));
    assert_eq!(d.get_widget(b).unwrap().position, Pos2::new(-20, 0));
    let mut off = Dashboard::with_grid(20, false);
    off.add_widget(DashboardWidget::with_id(a, WidgetType::Text, Pos2::new(31, 49))).unwrap();
    off.snap_all();
    assert_eq!(off.get_widget(a).unwrap().position, Pos2::new(31, 49));
}
