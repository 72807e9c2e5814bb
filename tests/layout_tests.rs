use dashboard_designer::geometry::{Pos2, Rect, Vec2};
use dashboard_designer::ids::WidgetId;
use dashboard_designer::layout::{
    align_widgets, auto_arrange_widgets, detect_collisions, Alignment, GridLayout, LayoutMode,
};

fn entry(id: u128, x: i64, y: i64, w: i64, h: i64) -> (WidgetId, Pos2, Vec2) {
    (WidgetId::from_u128(id), Pos2::new(x, y), Vec2::new(w, h))
}

#[test]
fn grid_cell_of_point_inside() {
    let g = GridLayout::default();
    assert_eq!(g.get_grid_cell(Pos2::new(225, 175)), (1, 1));
    assert_eq!(g.get_grid_cell(Pos2::new(10, 10)), (0, 0));
}

#[test]
fn grid_cell_clamps_out_of_range_points() {
    let g = GridLayout::default();
    assert_eq!(g.get_grid_cell(Pos2::new(-500, -500)), (0, 0));
    assert_eq!(g.get_grid_cell(Pos2::new(100_000, 100_000)), (3, 5));
}

#[test]
fn grid_cell_origin_round_trip() {
    let g = GridLayout::new(3, 4);
    for r in 0..3 {
        for c in 0..4 {
            let p = g.get_cell_position(r, c);
            assert_eq!(g.get_grid_cell(p), (r, c));
        }
    }
    assert_eq!(g.get_cell_position(1, 2), Pos2::new(430, 170));
}

#[test]
fn grid_origin_lies_within_one_cell_of_point() {
    let g = GridLayout::default();
    let p = Pos2::new(333, 222);
    let o = g.snap_to_grid(p);
    assert!((p.x - o.x).abs() <= 210);
    assert!((p.y - o.y).abs() <= 160);
    assert_eq!(o, Pos2::new(220, 170));
}

#[test]
fn layout_mode_defaults_to_free_form() {
    assert!(matches!(LayoutMode::default(), LayoutMode::FreeForm));
}

#[test]
fn intersects_is_symmetric_and_edges_do_not_count() {
    let a = Rect::from_min_size(Pos2::new(0, 0), Vec2::new(100, 100));
    let b = Rect::from_min_size(Pos2::new(50, 50), Vec2::new(100, 100));
    let c = Rect::from_min_size(Pos2::new(100, 0), Vec2::new(10, 10));
    let d = Rect::from_min_size(Pos2::new(0, 100), Vec2::new(10, 10));
    assert!(a.intersects(&b));
    assert!(b.intersects(&a));
    assert!(!a.intersects(&c));
    assert!(!c.intersects(&a));
    assert!(!a.intersects(&d));
    assert!(!d.intersects(&a));
}

#[test]
fn collisions_reports_each_overlapping_pair_once() {
    let ws = vec![
        entry(1, 0, 0, 100, 100),
        entry(2, 50, 50, 100, 100),
        entry(3, 500, 500, 10, 10),
        entry(4, 60, 60, 10, 10),
    ];
    let r = detect_collisions(&ws);
    let ids: Vec<(u128, u128)> = r.iter().map(|(a, b)| (a.value, b.value)).collect();
    assert_eq!(ids, vec![(1, 2), (1, 4), (2, 4)]);
    assert!(r.len() <= 4 * 3 / 2);
}

#[test]
fn collisions_of_fully_overlapping_widgets_hit_the_bound() {
    let ws = vec![entry(1, 0, 0, 10, 10), entry(2, 0, 0, 10, 10), entry(3, 0, 0, 10, 10)];
    assert_eq!(detect_collisions(&ws).len(), 3);
    assert!(detect_collisions(&[]).is_empty());
}

#[test]
fn auto_arrange_four_widgets() {
    let mut ws = vec![
        entry(1, 0, 0, 1, 1),
        entry(2, 0, 0, 1, 1),
        entry(3, 0, 0, 1, 1),
        entry(4, 0, 0, 1, 1),
    ];
    auto_arrange_widgets(&mut ws, Vec2::new(800, 600));
    assert_eq!(ws[0].1, Pos2::new(10, 10));
    assert_eq!(ws[1].1, Pos2::new(410, 10));
    assert_eq!(ws[2].1, Pos2::new(10, 310));
    assert_eq!(ws[3].1, Pos2::new(410, 310));
    for w in &ws {
        assert_eq!(w.2, Vec2::new(380, 280));
    }
}

#[test]
fn auto_arrange_applies_size_floor() {
    let mut ws = vec![entry(1, 5, 5, 1, 1), entry(2, 5, 5, 1, 1), entry(3, 5, 5, 1, 1)];
    auto_arrange_widgets(&mut ws, Vec2::new(200, 100));
    // two columns of 100, two rows of 50
    assert_eq!(ws[0].1, Pos2::new(10, 10));
    assert_eq!(ws[1].1, Pos2::new(110, 10));
    assert_eq!(ws[2].1, Pos2::new(10, 60));
    assert_eq!(ws[2].2, Vec2::new(100, 80));
}

#[test]
fn auto_arrange_is_deterministic() {
    let mut a = vec![entry(1, 3, 4, 5, 6), entry(2, 7, 8, 9, 10), entry(3, 1, 1, 1, 1)];
    let mut b = vec![entry(1, 90, 40, 50, 60), entry(2, 0, 0, 1, 1), entry(3, 11, 12, 13, 14)];
    auto_arrange_widgets(&mut a, Vec2::new(640, 480));
    auto_arrange_widgets(&mut b, Vec2::new(640, 480));
    assert_eq!(a, b);
    let mut empty: Vec<(WidgetId, Pos2, Vec2)> = Vec::new();
    auto_arrange_widgets(&mut empty, Vec2::new(640, 480));
    assert!(empty.is_empty());
}

#[test]
fn align_left_uses_minimum_x() {
    let mut ws = vec![entry(1, 120, 5, 10, 10), entry(2, 40, 50, 30, 10), entry(3, 300, 9, 5, 5)];
    align_widgets(&mut ws, Alignment::Left);
    for w in &ws {
        assert_eq!(w.1.x, 40);
    }
    assert_eq!(ws[0].1.y, 5);
    assert_eq!(ws[1].1.y, 50);
}

#[test]
fn align_right_and_bottom_keep_sizes() {
    let mut ws = vec![entry(1, 0, 0, 10, 20), entry(2, 100, 50, 30, 10)];
    align_widgets(&mut ws, Alignment::Right);
    assert_eq!(ws[0].1.x, 120);
    assert_eq!(ws[1].1.x, 100);
    align_widgets(&mut ws, Alignment::Bottom);
    assert_eq!(ws[0].1.y, 40);
    assert_eq!(ws[1].1.y, 50);
    assert_eq!(ws[0].2, Vec2::new(10, 20));
}

#[test]
fn align_top_and_centers() {
    let mut ws = vec![entry(1, 0, 30, 10, 10), entry(2, 100, 10, 30, 20)];
    align_widgets(&mut ws, Alignment::Top);
    assert_eq!(ws[0].1.y, 10);
    assert_eq!(ws[1].1.y, 10);
    // centers 5 and 115: mean 60
    align_widgets(&mut ws, Alignment::CenterHorizontal);
    assert_eq!(ws[0].1.x, 55);
    assert_eq!(ws[1].1.x, 45);
    // centers 15 and 20: mean 17.5, kept as doubled 35
    align_widgets(&mut ws, Alignment::CenterVertical);
    assert_eq!(ws[0].1.y, 12);
    assert_eq!(ws[1].1.y, 7);
}

#[test]
fn align_empty_is_a_no_op() {
    let mut ws: Vec<(WidgetId, Pos2, Vec2)> = Vec::new();
    align_widgets(&mut ws, Alignment::Left);
    assert!(ws.is_empty());
}
