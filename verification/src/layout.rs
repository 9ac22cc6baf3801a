//! The layout engine: statements are stacked vertically, and a
//! statement's geometry grows with the length of its label. Short
//! labels keep the baseline geometry; labels longer than
//! [`SINGLE_LINE_LIMIT`] widen the shape and shift it left and down;
//! labels of [`WRAP_THRESHOLD`] characters or more also grow in
//! height and are marked for multi-line wrapping.

use vstd::prelude::*;

use crate::statement::Statement;

verus! {

/// Horizontal start of the column of shapes.
pub const START_X: i64 = 120;

/// Vertical position of the first row.
pub const START_Y: i64 = 60;

/// Vertical distance between consecutive rows.
pub const ROW_HEIGHT: i64 = 100;

/// Longest label that keeps the baseline geometry.
pub const SINGLE_LINE_LIMIT: usize = 16;

/// Shortest label that is wrapped over several lines.
pub const WRAP_THRESHOLD: usize = 33;

/// Most statements one document can hold; keeps every row position
/// inside `i64`.
pub const MAX_STATEMENTS: usize = 0x1000_0000;

/// Longest label the layout accepts; keeps every size inside `i64`.
pub const MAX_LABEL_CHARS: usize = 0x1000_0000;

/// Largest baseline width or height the layout accepts.
pub const MAX_BASE_SIZE: i64 = 0x10000;

/// A position on the drawing surface, in pixels.
#[derive(Clone, Copy, Debug, PartialEq, Eq, Structural)]
pub struct Coordination {
    pub x: i64,
    pub y: i64,
}

/// The configured baseline size of a shape before label-driven
/// adjustment.
#[derive(Clone, Copy, Debug, PartialEq, Eq, Structural)]
pub struct ShapeSettings {
    pub width: i64,
    pub height: i64,
}

/// Position and size of one laid-out shape, in pixels.
#[derive(Clone, Copy, Debug, PartialEq, Eq, Structural)]
pub struct Geometry {
    pub x: i64,
    pub y: i64,
    pub width: i64,
    pub height: i64,
}

impl Geometry {
    /// The position of the shape on the surface.
    pub fn position(&self) -> (c: Coordination)
        ensures
            c.x == self.x,
            c.y == self.y,
    {
        Coordination { x: self.x, y: self.y }
    }
}

/// One statement's layout result: its geometry, and whether its
/// label is to be wrapped over several lines.
#[derive(Clone, Copy, Debug, PartialEq, Eq, Structural)]
pub struct Placement {
    pub geometry: Geometry,
    pub wrap: bool,
}

/// Width of a shape whose label has `n` characters: the baseline
/// width, widened by 6 per character beyond 16, or by 8 per
/// character beyond 16 once the label wraps.
pub open spec fn spec_width(n: int, base_width: int) -> int {
    if n <= 16 {
        base_width
    } else if n < 33 {
        base_width + 6 * (n - 16)
    } else {
        base_width + 8 * (n - 16)
    }
}

/// Height of a shape whose label has `n` characters: the baseline
/// height, grown by 2 per character beyond 16 once the label wraps.
pub open spec fn spec_height(n: int, base_height: int) -> int {
    if n < 33 {
        base_height
    } else {
        base_height + 2 * (n - 16)
    }
}

/// Horizontal position of a shape whose label has `n` characters:
/// shifted left as the shape widens, 3 per character beyond 16, or 4
/// once the label wraps.
pub open spec fn spec_x(n: int) -> int {
    if n <= 16 {
        120
    } else if n < 33 {
        120 - 3 * (n - 16)
    } else {
        120 - 4 * (n - 16)
    }
}

/// Vertical position of the shape in row `i` with an `n`-character
/// label: rows stack by 100, and a grown shape shifts down, 1 per
/// character beyond 16, or 2 once the label wraps.
pub open spec fn spec_y(n: int, i: int) -> int {
    60 + 100 * i + (
    if n <= 16 {
        0
    } else if n < 33 {
        n - 16
    } else {
        2 * (n - 16)
    })
}

/// Whether an `n`-character label is wrapped over several lines.
pub open spec fn spec_wrap(n: int) -> bool {
    n >= 33
}

/// Geometry small enough for the renderer's exact vertex arithmetic.
pub open spec fn geometry_bounded(g: Geometry) -> bool {
    &&& -0x100_0000_0000 <= g.x <= 0x100_0000_0000
    &&& -0x100_0000_0000 <= g.y <= 0x100_0000_0000
    &&& 0 < g.width <= 0x100_0000_0000
    &&& 0 < g.height <= 0x100_0000_0000
}

/// A label of at most 16 characters keeps the baseline geometry:
/// the start column, its plain row position, and the configured
/// width and height, with no wrapping.
pub proof fn lemma_short_label_baseline(n: int, i: int, base_width: int, base_height: int)
    requires
        0 <= n <= 16,
    ensures
        spec_x(n) == 120,
        spec_y(n, i) == 60 + 100 * i,
        spec_width(n, base_width) == base_width,
        spec_height(n, base_height) == base_height,
        !spec_wrap(n),
{
}

/// Between 17 and 32 label characters the width exceeds the
/// baseline and grows strictly with the label length.
pub proof fn lemma_mid_label_width_grows(n1: int, n2: int, base_width: int)
    requires
        16 < n1 < n2 < 33,
        base_width >= 0,
    ensures
        spec_width(n1, base_width) > base_width,
        spec_width(n1, base_width) < spec_width(n2, base_width),
{
}

/// Computes the geometry of the shape in row `index` whose label has
/// `label_chars` characters.
pub fn shape_geometry(label_chars: usize, index: usize, shape: ShapeSettings) -> (g: Geometry)
    requires
        label_chars <= MAX_LABEL_CHARS,
        index < MAX_STATEMENTS,
        0 < shape.width <= MAX_BASE_SIZE,
        0 < shape.height <= MAX_BASE_SIZE,
    ensures
        g.x == spec_x(label_chars as int),
        g.y == spec_y(label_chars as int, index as int),
        g.width == spec_width(label_chars as int, shape.width as int),
        g.height == spec_height(label_chars as int, shape.height as int),
        geometry_bounded(g),
{
    let row_y: i64 = START_Y + ROW_HEIGHT * (index as i64);
    if label_chars <= SINGLE_LINE_LIMIT {
        Geometry { x: START_X, y: row_y, width: shape.width, height: shape.height }
    } else {
        let excess: i64 = (label_chars - SINGLE_LINE_LIMIT) as i64;
        if label_chars < WRAP_THRESHOLD {
            Geometry {
                x: START_X - 3 * excess,
                y: row_y + excess,
                width: shape.width + 6 * excess,
                height: shape.height,
            }
        } else {
            Geometry {
                x: START_X - 4 * excess,
                y: row_y + 2 * excess,
                width: shape.width + 8 * excess,
                height: shape.height + 2 * excess,
            }
        }
    }
}

/// Lays out the statements in source order: statement `i` occupies
/// row `i`, with its geometry and wrap mark driven by the length of
/// its label.
pub fn layout_statements(stmts: &Vec<Statement>, shape: ShapeSettings) -> (r: Vec<Placement>)
    requires
        stmts@.len() <= MAX_STATEMENTS,
        forall|i: int|
            0 <= i < stmts@.len() ==> (#[trigger] stmts@[i]).label@.len() <= MAX_LABEL_CHARS,
        0 < shape.width <= MAX_BASE_SIZE,
        0 < shape.height <= MAX_BASE_SIZE,
    ensures
        r@.len() == stmts@.len(),
        forall|i: int|
            0 <= i < r@.len() ==> {
                let n = (#[trigger] stmts@[i]).label@.len() as int;
                &&& r@[i].geometry.x == spec_x(n)
                &&& r@[i].geometry.y == spec_y(n, i)
                &&& r@[i].geometry.width == spec_width(n, shape.width as int)
                &&& r@[i].geometry.height == spec_height(n, shape.height as int)
                &&& r@[i].wrap == spec_wrap(n)
                &&& geometry_bounded(r@[i].geometry)
            },
{
    let count: usize = stmts.len();
    let mut r: Vec<Placement> = Vec::new();
    let mut i: usize = 0;
    while i < count
        invariant
            count == stmts@.len(),
            count <= MAX_STATEMENTS,
            forall|j: int|
                0 <= j < stmts@.len() ==> (#[trigger] stmts@[j]).label@.len()
                    <= MAX_LABEL_CHARS,
            0 < shape.width <= MAX_BASE_SIZE,
            0 < shape.height <= MAX_BASE_SIZE,
            i <= count,
            r@.len() == i,
            forall|j: int|
                0 <= j < i ==> {
                    let n = (#[trigger] stmts@[j]).label@.len() as int;
                    &&& r@[j].geometry.x == spec_x(n)
                    &&& r@[j].geometry.y == spec_y(n, j)
                    &&& r@[j].geometry.width == spec_width(n, shape.width as int)
                    &&& r@[j].geometry.height == spec_height(n, shape.height as int)
                    &&& r@[j].wrap == spec_wrap(n)
                    &&& geometry_bounded(r@[j].geometry)
                },
        decreases count - i,
    {
        let n: usize = stmts[i].label.as_str().unicode_len();
        let geometry = shape_geometry(n, i, shape);
        let wrap: bool = n >= WRAP_THRESHOLD;
        r.push(Placement { geometry, wrap });
        i = i + 1;
    }
    r
}

} // verus!
