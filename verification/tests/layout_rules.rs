use lamda_red::layout::{layout_statements, shape_geometry, ShapeSettings};
use lamda_red::parser::parse_lines;

fn standard() -> ShapeSettings {
    ShapeSettings { width: 120, height: 60 }
}

#[test]
fn short_label_keeps_baseline_geometry() {
    for n in [0usize, 1, 8, 16] {
        let g = shape_geometry(n, 0, standard());
        assert_eq!(g.x, 120);
        assert_eq!(g.y, 60);
        assert_eq!(g.width, 120);
        assert_eq!(g.height, 60);
    }
}

#[test]
fn rows_stack_by_one_hundred() {
    let g = shape_geometry(5, 3, standard());
    assert_eq!(g.y, 60 + 3 * 100);
    assert_eq!(g.x, 120);
}

#[test]
fn mid_label_width_exceeds_baseline_and_grows() {
    let mut previous: i64 = 120;
    for n in 17usize..33 {
        let g = shape_geometry(n, 0, standard());
        assert!(g.width > 120);
        assert!(g.width > previous);
        assert_eq!(g.height, 60);
        previous = g.width;
    }
}

#[test]
fn mid_label_shifts_left_and_down() {
    let g = shape_geometry(20, 0, standard());
    assert_eq!(g.x, 120 - 3 * 4);
    assert_eq!(g.y, 60 + 4);
    assert_eq!(g.width, 120 + 6 * 4);
}

#[test]
fn long_label_grows_width_and_height() {
    let g = shape_geometry(40, 0, standard());
    assert_eq!(g.width, 120 + 8 * 24);
    assert_eq!(g.height, 60 + 2 * 24);
    assert_eq!(g.x, 120 - 4 * 24);
    assert_eq!(g.y, 60 + 2 * 24);
}

#[test]
fn wrap_mark_starts_at_thirty_three() {
    let stmts = parse_lines(&vec![
        format!("goal \"{}\"", "a".repeat(32)),
        format!("goal \"{}\"", "a".repeat(33)),
    ])
    .unwrap();
    let placements = layout_statements(&stmts, standard());
    assert!(!placements[0].wrap);
    assert!(placements[1].wrap);
}

#[test]
fn three_short_statements_stack_at_baseline() {
    let stmts = parse_lines(&vec![
        "goal \"Ship v1\"".to_string(),
        "risk \"Scope creep\"".to_string(),
        "agent \"QA team\"".to_string(),
    ])
    .unwrap();
    let placements = layout_statements(&stmts, standard());
    assert_eq!(placements.len(), 3);
    let expected_y = [60i64, 160, 260];
    for (i, p) in placements.iter().enumerate() {
        assert_eq!(p.geometry.x, 120);
        assert_eq!(p.geometry.y, expected_y[i]);
        assert_eq!(p.geometry.width, 120);
        assert_eq!(p.geometry.height, 60);
        assert!(!p.wrap);
    }
}

#[test]
fn position_reads_the_coordinates() {
    let g = shape_geometry(10, 2, standard());
    let c = g.position();
    assert_eq!(c.x, g.x);
    assert_eq!(c.y, g.y);
}
