use lamda_red::builder::{compile_document, mx_cell_builder, xml_escape};
use lamda_red::layout::{Geometry, ShapeSettings};
use lamda_red::statement::{ShapeKind, Statement};
use lamda_red::style::StyleMap;

fn geometry() -> Geometry {
    Geometry { x: 120, y: 60, width: 120, height: 60 }
}

fn statement(kind: ShapeKind, label: &str) -> Statement {
    Statement { kind, label: label.to_string() }
}

fn is_alnum(s: &str) -> bool {
    s.chars().all(|c| c.is_ascii_alphanumeric())
}

#[test]
fn goal_cell_styles() {
    let cell = mx_cell_builder(&statement(ShapeKind::Goal, "g"), geometry());
    assert_eq!(cell.style.get("shape").unwrap().as_str(), "parallelogram");
    assert_eq!(cell.style.get("flipH").unwrap().as_str(), "0");
}

#[test]
fn risk_cell_styles() {
    let cell = mx_cell_builder(&statement(ShapeKind::Risk, "r"), geometry());
    assert_eq!(cell.style.get("shape").unwrap().as_str(), "parallelogram");
    assert_eq!(cell.style.get("flipH").unwrap().as_str(), "1");
}

#[test]
fn agent_cell_styles() {
    let cell = mx_cell_builder(&statement(ShapeKind::Agent, "a"), geometry());
    assert_eq!(cell.style.get("shape").unwrap().as_str(), "hexagon");
    assert_eq!(cell.style.get("flipH").unwrap().as_str(), "0");
}

#[test]
fn cell_carries_fixed_attributes_label_and_geometry() {
    let cell = mx_cell_builder(&statement(ShapeKind::Goal, "the label"), geometry());
    assert_eq!(cell.label, "the label");
    assert_eq!(cell.geometry, geometry());
    assert_eq!(cell.style.get("whiteSpace").unwrap().as_str(), "wrap");
    assert_eq!(cell.style.get("html").unwrap().as_str(), "1");
    assert_eq!(cell.style.get("fixedSize").unwrap().as_str(), "1");
}

#[test]
fn cell_identifiers_are_random_tokens() {
    let cell = mx_cell_builder(&statement(ShapeKind::Goal, "g"), geometry());
    assert_eq!(cell.id.len(), 8);
    assert!(is_alnum(cell.id.as_str()));
    let perimeter = cell.style.get("perimeter").unwrap();
    assert_eq!(perimeter.len(), 2);
    assert!(is_alnum(perimeter.as_str()));
}

#[test]
fn built_style_survives_codec_round_trip() {
    let cell = mx_cell_builder(&statement(ShapeKind::Risk, "r"), geometry());
    let encoded = cell.style.encode();
    let back = StyleMap::decode(encoded.as_str());
    assert_eq!(back.len(), 6);
    for key in ["shape", "perimeter", "whiteSpace", "html", "fixedSize", "flipH"] {
        assert_eq!(back.get(key).unwrap(), cell.style.get(key).unwrap());
    }
}

#[test]
fn built_style_encodes_in_canonical_order() {
    let cell = mx_cell_builder(&statement(ShapeKind::Agent, "a"), geometry());
    let perimeter = cell.style.get("perimeter").unwrap().clone();
    let expected = format!(
        "shape=hexagon;perimeter={};whiteSpace=wrap;html=1;fixedSize=1;flipH=0",
        perimeter
    );
    assert_eq!(cell.style.encode(), expected);
}

#[test]
fn escape_rewrites_reserved_characters() {
    assert_eq!(xml_escape("a&b<c>'\""), "a&amp;b&lt;c&gt;&apos;&quot;");
    assert_eq!(xml_escape("plain text"), "plain text");
    assert_eq!(xml_escape(""), "");
}

#[test]
fn compile_document_builds_three_cells() {
    let lines: Vec<String> = vec![
        "goal \"Ship v1\"".to_string(),
        "risk \"Scope creep\"".to_string(),
        "agent \"QA team\"".to_string(),
    ];
    let shape = ShapeSettings { width: 120, height: 60 };
    let cells = compile_document(&lines, shape).unwrap();
    assert_eq!(cells.len(), 3);
    let expected_y = [60i64, 160, 260];
    let expected_shape = ["parallelogram", "parallelogram", "hexagon"];
    let expected_flip = ["0", "1", "0"];
    let expected_label = ["Ship v1", "Scope creep", "QA team"];
    for (i, cell) in cells.iter().enumerate() {
        assert_eq!(cell.label, expected_label[i]);
        assert_eq!(cell.geometry.x, 120);
        assert_eq!(cell.geometry.y, expected_y[i]);
        assert_eq!(cell.geometry.width, 120);
        assert_eq!(cell.geometry.height, 60);
        assert_eq!(cell.style.get("shape").unwrap().as_str(), expected_shape[i]);
        assert_eq!(cell.style.get("flipH").unwrap().as_str(), expected_flip[i]);
    }
}

#[test]
fn compile_document_aborts_on_syntax_error() {
    let lines: Vec<String> = vec!["goal \"a\"".to_string(), "weird \"label\"".to_string()];
    let shape = ShapeSettings { width: 120, height: 60 };
    let e = compile_document(&lines, shape).unwrap_err();
    assert_eq!(e.line, 2);
    assert_eq!(e.text, "weird \"label\"");
}
