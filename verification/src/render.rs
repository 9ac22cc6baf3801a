//! The shape renderer: one graph cell becomes a closed polygon
//! outline and a list of placed label lines. The outline vertices
//! are exact: they are computed in quarter-pixel units, in which
//! both polygons have integer coordinates.
//!
//! A hexagon's vertex `k` sits at the angle `k * 60` degrees, with
//! horizontal radius `width / 2` and vertical radius
//! `height / sqrt(3)` (the divisor used throughout this crate).
//! Those sines and cosines are 0, 1/2, 1/4 and their negations times
//! the size, so every vertex is a whole number of quarter pixels.

use vstd::prelude::*;

use crate::builder::GraphCell;
use crate::layout::{geometry_bounded, Geometry, MAX_LABEL_CHARS, WRAP_THRESHOLD};
use crate::layout::spec_wrap;
use crate::style::spec_lookup;
use crate::text::str_equal;
use crate::wrap::{label_control, spec_chunk, spec_join_words, spec_words};

verus! {

/// Vertical distance from a shape's `y` to its first label line.
pub const LABEL_OFFSET: i64 = 35;

/// Vertical distance between consecutive label lines.
pub const LINE_SPACING: i64 = 20;

/// Words per wrapped label line.
pub const WORDS_PER_LINE: usize = 8;

/// One outline vertex, in quarter pixels: the drawn position is
/// `(qx / 4, qy / 4)`.
#[derive(Clone, Copy, Debug, PartialEq, Eq, Structural)]
pub struct Vertex {
    pub qx: i64,
    pub qy: i64,
}

/// One label line and the pixel position where it starts.
#[derive(Clone, Debug)]
pub struct TextLine {
    pub x: i64,
    pub y: i64,
    pub text: String,
}

/// The drawing plan of one cell: the closed outline to fill and
/// stroke, and the label lines to draw over it.
#[derive(Clone, Debug)]
pub struct RenderPlan {
    pub outline: Vec<Vertex>,
    pub lines: Vec<TextLine>,
}

/// Why a cell cannot be rendered: its style names no shape, an
/// unrecognized shape, or a `flipH` value that is neither `0` nor
/// `1`.
#[derive(Clone, Debug)]
pub enum RenderError {
    MissingShape,
    UnknownShape { value: String },
    InvalidFlip { value: String },
}

/// The outline vertices as mathematical points, in quarter pixels.
pub open spec fn vertex_points(vs: Seq<Vertex>) -> Seq<(int, int)> {
    Seq::new(vs.len(), |i: int| (vs[i].qx as int, vs[i].qy as int))
}

/// The four parallelogram vertices in quarter pixels: top edge from
/// `(x, y)` to `(x + w, y)`, bottom edge shifted left by the skew,
/// 30 pixels, or right when flipped.
pub open spec fn spec_parallelogram_points(g: Geometry, flip: bool) -> Seq<(int, int)> {
    let sk: int = if flip {
        -30
    } else {
        30
    };
    seq![
        (4 * g.x, 4 * g.y),
        (4 * (g.x + g.width), 4 * g.y),
        (4 * (g.x + g.width - sk), 4 * (g.y + g.height)),
        (4 * (g.x - sk), 4 * (g.y + g.height)),
    ]
}

/// The six hexagon vertices in quarter pixels, centered at
/// `(x, y)`: vertex `k` at the angle `k * 60` degrees with radii
/// `width / 2` and `height / sqrt(3)`.
pub open spec fn spec_hexagon_points(g: Geometry) -> Seq<(int, int)> {
    seq![
        (4 * g.x + 2 * g.width, 4 * g.y),
        (4 * g.x + g.width, 4 * g.y + 2 * g.height),
        (4 * g.x - g.width, 4 * g.y + 2 * g.height),
        (4 * g.x - 2 * g.width, 4 * g.y),
        (4 * g.x - g.width, 4 * g.y - 2 * g.height),
        (4 * g.x + g.width, 4 * g.y - 2 * g.height),
    ]
}

/// The label lines of a cell and their positions: a wrapped label
/// yields one line per chunk of 8 words, each 20 pixels below the
/// one before; a short label yields its single line. Lines start at
/// the shape's `x` and 35 pixels below its `y`.
pub open spec fn spec_label_lines(label: Seq<char>, g: Geometry) -> Seq<(int, int, Seq<char>)> {
    if spec_wrap(label.len() as int) {
        let ws = spec_words(label);
        let count = (ws.len() + WORDS_PER_LINE - 1) / (WORDS_PER_LINE as int);
        Seq::new(
            count as nat,
            |j: int|
                (
                    g.x as int,
                    g.y + LABEL_OFFSET + LINE_SPACING * j,
                    spec_join_words(spec_chunk(ws, WORDS_PER_LINE as int, j)),
                ),
        )
    } else {
        seq![(g.x as int, g.y + LABEL_OFFSET as int, label)]
    }
}

/// The text lines as mathematical points and texts.
pub open spec fn text_line_points(ts: Seq<TextLine>) -> Seq<(int, int, Seq<char>)> {
    Seq::new(ts.len(), |i: int| (ts[i].x as int, ts[i].y as int, ts[i].text@))
}

/// How a `flipH` style value reads: absent means flipped, `0` and
/// `1` mean their digit, anything else is an error.
pub open spec fn spec_flip_of(v: Option<Seq<char>>) -> Option<bool> {
    match v {
        Option::None => Some(true),
        Option::Some(t) => if t == "0"@ {
            Some(false)
        } else if t == "1"@ {
            Some(true)
        } else {
            None
        },
    }
}

/// Builds the closed parallelogram outline of a geometry.
pub fn parallelogram(g: Geometry, flip_h: bool) -> (vs: Vec<Vertex>)
    requires
        geometry_bounded(g),
    ensures
        vertex_points(vs@) == spec_parallelogram_points(g, flip_h),
{
    let skew: i64 = if flip_h {
        -30
    } else {
        30
    };
    let mut vs: Vec<Vertex> = Vec::new();
    vs.push(Vertex { qx: 4 * g.x, qy: 4 * g.y });
    vs.push(Vertex { qx: 4 * (g.x + g.width), qy: 4 * g.y });
    vs.push(Vertex { qx: 4 * (g.x + g.width - skew), qy: 4 * (g.y + g.height) });
    vs.push(Vertex { qx: 4 * (g.x - skew), qy: 4 * (g.y + g.height) });
    proof {
        assert(vertex_points(vs@) =~= spec_parallelogram_points(g, flip_h));
    }
    vs
}

/// Builds the closed hexagon outline of a geometry.
pub fn hexagon(g: Geometry) -> (vs: Vec<Vertex>)
    requires
        geometry_bounded(g),
    ensures
        vertex_points(vs@) == spec_hexagon_points(g),
{
    let mut vs: Vec<Vertex> = Vec::new();
    vs.push(Vertex { qx: 4 * g.x + 2 * g.width, qy: 4 * g.y });
    vs.push(Vertex { qx: 4 * g.x + g.width, qy: 4 * g.y + 2 * g.height });
    vs.push(Vertex { qx: 4 * g.x - g.width, qy: 4 * g.y + 2 * g.height });
    vs.push(Vertex { qx: 4 * g.x - 2 * g.width, qy: 4 * g.y });
    vs.push(Vertex { qx: 4 * g.x - g.width, qy: 4 * g.y - 2 * g.height });
    vs.push(Vertex { qx: 4 * g.x + g.width, qy: 4 * g.y - 2 * g.height });
    proof {
        assert(vertex_points(vs@) =~= spec_hexagon_points(g));
    }
    vs
}

/// Builds the placed label lines of a cell.
fn place_label(label: &str, g: Geometry) -> (lines: Vec<TextLine>)
    requires
        geometry_bounded(g),
        label@.len() <= MAX_LABEL_CHARS,
    ensures
        text_line_points(lines@) == spec_label_lines(label@, g),
{
    let n: usize = label.unicode_len();
    let mut lines: Vec<TextLine> = Vec::new();
    if n >= WRAP_THRESHOLD {
        proof {
            crate::wrap::lemma_words_count(label@);
        }
        let parts = label_control(label, WORDS_PER_LINE);
        let count: usize = parts.len();
        let mut j: usize = 0;
        while j < count
            invariant
                geometry_bounded(g),
                count == parts@.len(),
                count <= MAX_LABEL_CHARS + 7,
                j <= count,
                lines@.len() == j,
                spec_label_lines(label@, g).len() == count,
                forall|m: int|
                    0 <= m < count ==> #[trigger] spec_label_lines(label@, g)[m] == (
                        g.x as int,
                        g.y + LABEL_OFFSET + LINE_SPACING * m,
                        parts@[m]@,
                    ),
                forall|m: int|
                    0 <= m < j ==> #[trigger] text_line_points(lines@)[m] == spec_label_lines(
                        label@,
                        g,
                    )[m],
            decreases count - j,
        {
            let y: i64 = g.y + LABEL_OFFSET + LINE_SPACING * (j as i64);
            let ghost prev = lines@;
            lines.push(TextLine { x: g.x, y, text: parts[j].clone() });
            proof {
                assert forall|m: int|
                    0 <= m < j + 1 implies #[trigger] text_line_points(lines@)[m]
                    == spec_label_lines(label@, g)[m] by {
                    if m < j {
                        assert(lines@[m] == prev[m]);
                        assert(text_line_points(prev)[m] == spec_label_lines(label@, g)[m]);
                    } else {
                        assert(lines@[m].text@ == parts@[m]@);
                    }
                }
            }
            j = j + 1;
        }
        proof {
            assert(text_line_points(lines@) =~= spec_label_lines(label@, g));
        }
    } else {
        lines.push(TextLine { x: g.x, y: g.y + LABEL_OFFSET, text: String::from_str(label) });
        proof {
            assert(text_line_points(lines@) =~= spec_label_lines(label@, g));
        }
    }
    lines
}

/// Renders one cell: reads the `shape` attribute of its style,
/// builds the matching outline, and places the label lines. A style
/// without a `shape`, with an unrecognized shape, or with a
/// malformed `flipH` is a fatal error for the cell; no fallback
/// shape is drawn.
pub fn render_cell(cell: &GraphCell) -> (r: Result<RenderPlan, RenderError>)
    requires
        geometry_bounded(cell.geometry),
        cell.label@.len() <= MAX_LABEL_CHARS,
    ensures
        ({
            let shape = spec_lookup(cell.style@, "shape"@);
            let flip = spec_lookup(cell.style@, "flipH"@);
            match r {
                Ok(plan) => {
                    &&& text_line_points(plan.lines@) == spec_label_lines(
                        cell.label@,
                        cell.geometry,
                    )
                    &&& if shape == Some("parallelogram"@) {
                        &&& spec_flip_of(flip) is Some
                        &&& vertex_points(plan.outline@) == spec_parallelogram_points(
                            cell.geometry,
                            spec_flip_of(flip)->0,
                        )
                    } else {
                        &&& shape == Some("hexagon"@)
                        &&& vertex_points(plan.outline@) == spec_hexagon_points(cell.geometry)
                    }
                },
                Err(e) => match e {
                    RenderError::MissingShape => shape is None,
                    RenderError::UnknownShape { value } => {
                        &&& shape == Some(value@)
                        &&& value@ != "parallelogram"@
                        &&& value@ != "hexagon"@
                    },
                    RenderError::InvalidFlip { value } => {
                        &&& shape == Some("parallelogram"@)
                        &&& flip == Some(value@)
                        &&& spec_flip_of(flip) is None
                    },
                },
            }
        }),
{
    let shape_value = match cell.style.get("shape") {
        Option::None => {
            return Err(RenderError::MissingShape);
        },
        Option::Some(v) => v,
    };
    let outline: Vec<Vertex> = if str_equal(shape_value.as_str(), "parallelogram") {
        let flip: bool = match cell.style.get("flipH") {
            Option::None => true,
            Option::Some(fv) => {
                if str_equal(fv.as_str(), "0") {
                    false
                } else if str_equal(fv.as_str(), "1") {
                    true
                } else {
                    return Err(RenderError::InvalidFlip { value: fv.clone() });
                }
            },
        };
        parallelogram(cell.geometry, flip)
    } else if str_equal(shape_value.as_str(), "hexagon") {
        hexagon(cell.geometry)
    } else {
        return Err(RenderError::UnknownShape { value: shape_value.clone() });
    };
    let lines = place_label(cell.label.as_str(), cell.geometry);
    Ok(RenderPlan { outline, lines })
}

} // verus!
