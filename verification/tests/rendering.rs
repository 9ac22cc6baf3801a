use lamda_red::builder::GraphCell;
use lamda_red::layout::Geometry;
use lamda_red::render::{render_cell, RenderError};
use lamda_red::style::StyleMap;

fn cell(style: &str, label: &str, g: Geometry) -> GraphCell {
    GraphCell {
        id: "cellid01".to_string(),
        label: label.to_string(),
        style: StyleMap::decode(style),
        geometry: g,
    }
}

#[test]
fn hexagon_vertex_zero_sits_at_the_right_middle() {
    let g = Geometry { x: 0, y: 0, width: 100, height: 50 };
    let plan = render_cell(&cell("shape=hexagon", "h", g)).unwrap();
    assert_eq!(plan.outline.len(), 6);
    // Quarter-pixel units: vertex 0 is (50, 0) in pixels.
    assert_eq!(plan.outline[0].qx, 4 * 50);
    assert_eq!(plan.outline[0].qy, 0);
}

#[test]
fn hexagon_vertices_are_exact() {
    let g = Geometry { x: 0, y: 0, width: 100, height: 50 };
    let plan = render_cell(&cell("shape=hexagon", "h", g)).unwrap();
    let expected = [(200, 0), (100, 100), (-100, 100), (-200, 0), (-100, -100), (100, -100)];
    for (v, e) in plan.outline.iter().zip(expected.iter()) {
        assert_eq!((v.qx, v.qy), *e);
    }
}

#[test]
fn parallelogram_skews_right_without_flip() {
    let g = Geometry { x: 10, y: 20, width: 120, height: 60 };
    let plan = render_cell(&cell("shape=parallelogram;flipH=0", "p", g)).unwrap();
    let expected = [(40, 80), (520, 80), (400, 320), (-80, 320)];
    assert_eq!(plan.outline.len(), 4);
    for (v, e) in plan.outline.iter().zip(expected.iter()) {
        assert_eq!((v.qx, v.qy), *e);
    }
}

#[test]
fn flipped_parallelogram_skews_left() {
    let g = Geometry { x: 10, y: 20, width: 120, height: 60 };
    let plan = render_cell(&cell("shape=parallelogram;flipH=1", "p", g)).unwrap();
    // Bottom edge shifts the other way: skew is -30.
    let expected = [(40, 80), (520, 80), (640, 320), (160, 320)];
    for (v, e) in plan.outline.iter().zip(expected.iter()) {
        assert_eq!((v.qx, v.qy), *e);
    }
}

#[test]
fn absent_flip_means_flipped() {
    let g = Geometry { x: 10, y: 20, width: 120, height: 60 };
    let plan = render_cell(&cell("shape=parallelogram", "p", g)).unwrap();
    assert_eq!((plan.outline[2].qx, plan.outline[2].qy), (640, 320));
}

#[test]
fn missing_shape_is_fatal() {
    let g = Geometry { x: 0, y: 0, width: 10, height: 10 };
    let e = render_cell(&cell("html=1", "x", g)).unwrap_err();
    assert!(matches!(e, RenderError::MissingShape));
}

#[test]
fn unknown_shape_is_fatal() {
    let g = Geometry { x: 0, y: 0, width: 10, height: 10 };
    let e = render_cell(&cell("shape=circle", "x", g)).unwrap_err();
    match e {
        RenderError::UnknownShape { value } => assert_eq!(value, "circle"),
        _ => panic!("expected an unknown-shape error"),
    }
}

#[test]
fn malformed_flip_is_fatal() {
    let g = Geometry { x: 0, y: 0, width: 10, height: 10 };
    let e = render_cell(&cell("shape=parallelogram;flipH=2", "x", g)).unwrap_err();
    match e {
        RenderError::InvalidFlip { value } => assert_eq!(value, "2"),
        _ => panic!("expected an invalid-flip error"),
    }
}

#[test]
fn short_label_draws_one_line() {
    let g = Geometry { x: 30, y: 40, width: 120, height: 60 };
    let plan = render_cell(&cell("shape=hexagon", "short label", g)).unwrap();
    assert_eq!(plan.lines.len(), 1);
    assert_eq!(plan.lines[0].x, 30);
    assert_eq!(plan.lines[0].y, 40 + 35);
    assert_eq!(plan.lines[0].text, "short label");
}

#[test]
fn long_label_wraps_into_spaced_lines() {
    // Nine words, 49 characters: wrapped into eight words and one.
    let label = "alpha beta gamma delta epsilon zeta eta theta iota";
    let g = Geometry { x: 0, y: 100, width: 400, height: 120 };
    let plan = render_cell(&cell("shape=hexagon", label, g)).unwrap();
    assert_eq!(plan.lines.len(), 2);
    assert_eq!(plan.lines[0].text, "alpha beta gamma delta epsilon zeta eta theta");
    assert_eq!(plan.lines[1].text, "iota");
    assert_eq!(plan.lines[0].y, 135);
    assert_eq!(plan.lines[1].y, 155);
    for line in plan.lines.iter() {
        assert_eq!(line.x, 0);
        assert!(!line.text.is_empty());
        assert!(!line.text.ends_with(' '));
    }
}
