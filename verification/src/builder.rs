//! The document builder: one positioned statement becomes one graph
//! cell carrying a fresh random identifier, the label verbatim, the
//! kind's style attributes, and the computed geometry. Also the
//! attribute escaping that a serializer of the cells needs.

use vstd::prelude::*;

use rand::Rng;

use crate::layout::{layout_statements, Geometry, Placement, ShapeSettings};
use crate::layout::{spec_height, spec_width, spec_x, spec_y};
use crate::layout::{MAX_BASE_SIZE, MAX_LABEL_CHARS, MAX_STATEMENTS};
use crate::parser::{lemma_statements_of_bounds, parse_lines};
use crate::parser::{spec_line_ok, spec_statements_of, stmt_models};
use crate::statement::{ShapeKind, Statement, SyntaxError};
use crate::style::{spec_decode, spec_encode, spec_lookup, StyleMap};
use crate::style::{key_clean, lemma_style_round_trip, style_clean, value_clean};

verus! {

/// An ASCII letter or digit.
pub open spec fn is_alnum_char(c: char) -> bool {
    ('0' <= c && c <= '9') || ('a' <= c && c <= 'z') || ('A' <= c && c <= 'Z')
}

/// A random token: `len` ASCII letters or digits.
pub open spec fn spec_token(t: Seq<char>, len: int) -> bool {
    t.len() == len && (forall|i: int| 0 <= i < t.len() ==> is_alnum_char(#[trigger] t[i]))
}

/// Relies on rand's `Alphanumeric` distribution: it samples only
/// ASCII letters and digits, so the returned identifier has exactly
/// `take` alphanumeric characters. Which ones come back is chance;
/// nothing more is assumed.
#[verifier::external_body]
fn random_shape_id(take: usize) -> (r: String)
    ensures
        r@.len() == take,
        forall|i: int| 0 <= i < r@.len() ==> is_alnum_char(#[trigger] r@[i]),
{
    rand::thread_rng()
        .sample_iter(&rand::distributions::Alphanumeric)
        .take(take)
        .map(char::from)
        .collect()
}

/// The serializable unit of one positioned, styled shape.
#[derive(Clone, Debug)]
pub struct GraphCell {
    pub id: String,
    pub label: String,
    pub style: StyleMap,
    pub geometry: Geometry,
}

/// The style's `shape` value for each statement kind.
pub open spec fn spec_shape_name(k: ShapeKind) -> Seq<char> {
    match k {
        ShapeKind::Goal => "parallelogram"@,
        ShapeKind::Risk => "parallelogram"@,
        ShapeKind::Agent => "hexagon"@,
    }
}

/// The style's `flipH` value for each statement kind: only a risk
/// shape is flipped.
pub open spec fn spec_flip_value(k: ShapeKind) -> Seq<char> {
    match k {
        ShapeKind::Risk => "1"@,
        _ => "0"@,
    }
}

/// The six style attributes of a cell of kind `k`, in order.
pub open spec fn spec_style_pairs(k: ShapeKind, perimeter: Seq<char>) -> Seq<
    (Seq<char>, Seq<char>),
> {
    seq![
        ("shape"@, spec_shape_name(k)),
        ("perimeter"@, perimeter),
        ("whiteSpace"@, "wrap"@),
        ("html"@, "1"@),
        ("fixedSize"@, "1"@),
        ("flipH"@, spec_flip_value(k)),
    ]
}

/// Builds the style attributes of a cell of kind `kind` with the
/// given perimeter token.
pub fn build_style(kind: ShapeKind, perimeter: &str) -> (m: StyleMap)
    ensures
        m@ == spec_style_pairs(kind, perimeter@),
{
    let mut m = StyleMap::new();
    match kind {
        ShapeKind::Agent => m.insert("shape", "hexagon"),
        _ => m.insert("shape", "parallelogram"),
    }
    m.insert("perimeter", perimeter);
    m.insert("whiteSpace", "wrap");
    m.insert("html", "1");
    m.insert("fixedSize", "1");
    match kind {
        ShapeKind::Risk => m.insert("flipH", "1"),
        _ => m.insert("flipH", "0"),
    }
    proof {
        assert(m@ =~= spec_style_pairs(kind, perimeter@));
    }
    m
}

/// A goal statement's style always carries `shape=parallelogram`
/// and `flipH=0`; a risk statement's, `shape=parallelogram` and
/// `flipH=1`; an agent statement's, `shape=hexagon` and `flipH=0`.
pub proof fn lemma_kind_determines_style(k: ShapeKind, perimeter: Seq<char>)
    ensures
        spec_lookup(spec_style_pairs(k, perimeter), "shape"@) == Some(spec_shape_name(k)),
        spec_lookup(spec_style_pairs(k, perimeter), "flipH"@) == Some(spec_flip_value(k)),
        k is Goal ==> spec_shape_name(k) == "parallelogram"@ && spec_flip_value(k) == "0"@,
        k is Risk ==> spec_shape_name(k) == "parallelogram"@ && spec_flip_value(k) == "1"@,
        k is Agent ==> spec_shape_name(k) == "hexagon"@ && spec_flip_value(k) == "0"@,
{
    reveal_strlit("shape");
    reveal_strlit("perimeter");
    reveal_strlit("whiteSpace");
    reveal_strlit("html");
    reveal_strlit("fixedSize");
    reveal_strlit("flipH");
    let m = spec_style_pairs(k, perimeter);
    assert(m[0].0 == "shape"@);
    let m1 = m.drop_first();
    let m2 = m1.drop_first();
    let m3 = m2.drop_first();
    let m4 = m3.drop_first();
    let m5 = m4.drop_first();
    assert(m1 =~= seq![
        ("perimeter"@, perimeter),
        ("whiteSpace"@, "wrap"@),
        ("html"@, "1"@),
        ("fixedSize"@, "1"@),
        ("flipH"@, spec_flip_value(k)),
    ]);
    assert(m2 =~= seq![
        ("whiteSpace"@, "wrap"@),
        ("html"@, "1"@),
        ("fixedSize"@, "1"@),
        ("flipH"@, spec_flip_value(k)),
    ]);
    assert(m3 =~= seq![("html"@, "1"@), ("fixedSize"@, "1"@), ("flipH"@, spec_flip_value(k))]);
    assert(m4 =~= seq![("fixedSize"@, "1"@), ("flipH"@, spec_flip_value(k))]);
    assert(m5 =~= seq![("flipH"@, spec_flip_value(k))]);
    assert("flipH"@.len() == 5);
    assert("shape"@[0] == 's' && "flipH"@[0] == 'f');
    assert(spec_lookup(m, "flipH"@) == spec_lookup(m1, "flipH"@));
    assert(spec_lookup(m1, "flipH"@) == spec_lookup(m2, "flipH"@));
    assert(spec_lookup(m2, "flipH"@) == spec_lookup(m3, "flipH"@));
    assert(spec_lookup(m3, "flipH"@) == spec_lookup(m4, "flipH"@));
    assert(spec_lookup(m4, "flipH"@) == spec_lookup(m5, "flipH"@));
    assert(spec_lookup(m5, "flipH"@) == Some(spec_flip_value(k)));
}

/// The style the builder writes survives the codec's round trip:
/// its keys and fixed values hold neither `;` nor `=`, and the
/// perimeter token is alphanumeric.
pub proof fn lemma_built_style_round_trip(k: ShapeKind, perimeter: Seq<char>)
    requires
        forall|i: int| 0 <= i < perimeter.len() ==> is_alnum_char(#[trigger] perimeter[i]),
    ensures
        spec_decode(spec_encode(spec_style_pairs(k, perimeter))) == spec_style_pairs(
            k,
            perimeter,
        ),
{
    reveal_strlit("shape");
    reveal_strlit("perimeter");
    reveal_strlit("whiteSpace");
    reveal_strlit("html");
    reveal_strlit("fixedSize");
    reveal_strlit("flipH");
    reveal_strlit("parallelogram");
    reveal_strlit("hexagon");
    reveal_strlit("wrap");
    reveal_strlit("1");
    reveal_strlit("0");
    let m = spec_style_pairs(k, perimeter);
    assert(key_clean("shape"@));
    assert(key_clean("perimeter"@));
    assert(key_clean("whiteSpace"@));
    assert(key_clean("html"@));
    assert(key_clean("fixedSize"@));
    assert(key_clean("flipH"@));
    assert(value_clean(spec_shape_name(k)));
    assert(value_clean(perimeter));
    assert(value_clean("wrap"@));
    assert(value_clean(spec_flip_value(k)));
    assert(style_clean(m));
    lemma_style_round_trip(m);
}

/// Builds one graph cell: a fresh random 8-character identifier, a
/// fresh random 2-character perimeter token in the kind's style
/// attributes, the statement's label verbatim, and the given
/// geometry.
pub fn mx_cell_builder(stmt: &Statement, geometry: Geometry) -> (cell: GraphCell)
    ensures
        cell.label@ == stmt.label@,
        cell.geometry == geometry,
        spec_token(cell.id@, 8),
        spec_token(cell.style@[1].1, 2),
        cell.style@ == spec_style_pairs(stmt.kind, cell.style@[1].1),
{
    let id = random_shape_id(8);
    let perimeter = random_shape_id(2);
    let style = build_style(stmt.kind, perimeter.as_str());
    GraphCell { id, label: stmt.label.clone(), style, geometry }
}

/// Builds the whole document: one cell per statement, in order,
/// each with its placement's geometry.
pub fn build_document(stmts: &Vec<Statement>, placements: &Vec<Placement>) -> (cells: Vec<
    GraphCell,
>)
    requires
        placements@.len() == stmts@.len(),
    ensures
        cells@.len() == stmts@.len(),
        forall|i: int|
            0 <= i < cells@.len() ==> {
                &&& (#[trigger] cells@[i]).label@ == stmts@[i].label@
                &&& cells@[i].geometry == placements@[i].geometry
                &&& spec_token(cells@[i].id@, 8)
                &&& spec_token(cells@[i].style@[1].1, 2)
                &&& cells@[i].style@ == spec_style_pairs(stmts@[i].kind, cells@[i].style@[1].1)
            },
{
    let count: usize = stmts.len();
    let mut cells: Vec<GraphCell> = Vec::new();
    let mut i: usize = 0;
    while i < count
        invariant
            count == stmts@.len(),
            placements@.len() == stmts@.len(),
            i <= count,
            cells@.len() == i,
            forall|j: int|
                0 <= j < i ==> {
                    &&& (#[trigger] cells@[j]).label@ == stmts@[j].label@
                    &&& cells@[j].geometry == placements@[j].geometry
                    &&& spec_token(cells@[j].id@, 8)
                    &&& spec_token(cells@[j].style@[1].1, 2)
                    &&& cells@[j].style@ == spec_style_pairs(
                        stmts@[j].kind,
                        cells@[j].style@[1].1,
                    )
                },
        decreases count - i,
    {
        let cell = mx_cell_builder(&stmts[i], placements[i].geometry);
        cells.push(cell);
        i = i + 1;
    }
    cells
}

/// The escaped form of one character inside a serialized attribute
/// value: the five reserved characters become entities, every other
/// character stands as it is.
pub open spec fn spec_escape_char(c: char) -> Seq<char> {
    if c == '&' {
        "&amp;"@
    } else if c == '<' {
        "&lt;"@
    } else if c == '>' {
        "&gt;"@
    } else if c == '\'' {
        "&apos;"@
    } else if c == '"' {
        "&quot;"@
    } else {
        seq![c]
    }
}

/// The escaped form of a whole attribute value.
pub open spec fn spec_escape(s: Seq<char>) -> Seq<char>
    decreases s.len(),
{
    if s.len() == 0 {
        Seq::empty()
    } else {
        spec_escape(s.drop_last()) + spec_escape_char(s.last())
    }
}

/// Escapes a label or attribute value for a serializer of the
/// document: ampersands, angle brackets and both quote characters
/// become entities, so the raw text cannot break the surrounding
/// markup.
pub fn xml_escape(s: &str) -> (r: String)
    ensures
        r@ == spec_escape(s@),
{
    let n: usize = s.unicode_len();
    let mut r: String = String::new();
    let mut i: usize = 0;
    while i < n
        invariant
            n == s@.len(),
            i <= n,
            r@ == spec_escape(s@.take(i as int)),
        decreases n - i,
    {
        proof {
            reveal_strlit("&amp;");
            reveal_strlit("&lt;");
            reveal_strlit("&gt;");
            reveal_strlit("&apos;");
            reveal_strlit("&quot;");
            assert(s@.take(i as int + 1).drop_last() =~= s@.take(i as int));
        }
        let c: char = s.get_char(i);
        if c == '&' {
            r.append("&amp;");
        } else if c == '<' {
            r.append("&lt;");
        } else if c == '>' {
            r.append("&gt;");
        } else if c == '\'' {
            r.append("&apos;");
        } else if c == '"' {
            r.append("&quot;");
        } else {
            let piece: &str = s.substring_char(i, i + 1);
            proof {
                assert(piece@ =~= seq![s@[i as int]]);
            }
            r.append(piece);
        }
        i = i + 1;
    }
    proof {
        assert(s@.take(n as int) =~= s@);
    }
    r
}

/// Compiles a whole source into a laid-out document: parses every
/// line fail-fast, stacks the statements into rows, and builds one
/// styled cell per statement. The first line that matches no
/// grammar alternative aborts the compilation with its syntax
/// error, and no cells are produced.
pub fn compile_document(lines: &Vec<String>, shape: ShapeSettings) -> (r: Result<
    Vec<GraphCell>,
    SyntaxError,
>)
    requires
        lines@.len() <= MAX_STATEMENTS,
        forall|i: int|
            0 <= i < lines@.len() ==> (#[trigger] lines.deep_view()[i]).len()
                <= MAX_LABEL_CHARS,
        0 < shape.width <= MAX_BASE_SIZE,
        0 < shape.height <= MAX_BASE_SIZE,
    ensures
        ({
            let ls = lines.deep_view();
            let models = spec_statements_of(ls);
            match r {
                Ok(cells) => {
                    &&& forall|i: int| 0 <= i < ls.len() ==> spec_line_ok(#[trigger] ls[i])
                    &&& cells@.len() == models.len()
                    &&& forall|i: int|
                        0 <= i < cells@.len() ==> {
                            let n = (#[trigger] models[i]).1.len() as int;
                            &&& cells@[i].label@ == models[i].1
                            &&& cells@[i].style@ == spec_style_pairs(
                                models[i].0,
                                cells@[i].style@[1].1,
                            )
                            &&& spec_token(cells@[i].style@[1].1, 2)
                            &&& spec_token(cells@[i].id@, 8)
                            &&& cells@[i].geometry.x == spec_x(n)
                            &&& cells@[i].geometry.y == spec_y(n, i)
                            &&& cells@[i].geometry.width == spec_width(n, shape.width as int)
                            &&& cells@[i].geometry.height == spec_height(
                                n,
                                shape.height as int,
                            )
                        }
                },
                Err(e) => {
                    &&& 1 <= e.line <= ls.len()
                    &&& !spec_line_ok(ls[e.line - 1])
                    &&& forall|i: int| 0 <= i < e.line - 1 ==> spec_line_ok(#[trigger] ls[i])
                    &&& e.text@ == ls[e.line - 1]
                },
            }
        }),
{
    let ghost ls = lines.deep_view();
    let ghost models = spec_statements_of(ls);
    let stmts = match parse_lines(lines) {
        Ok(s) => s,
        Err(e) => {
            return Err(e);
        },
    };
    proof {
        lemma_statements_of_bounds(ls, MAX_LABEL_CHARS as int);
        assert(stmt_models(stmts@) == models);
        assert(stmts@.len() == models.len());
        assert forall|i: int|
            0 <= i < stmts@.len() implies (#[trigger] stmts@[i]).label@.len()
            <= MAX_LABEL_CHARS by {
            assert(spec_statements_of(ls)[i] == (stmts@[i].kind, stmts@[i].label@));
            assert(spec_statements_of(ls)[i].1.len() <= MAX_LABEL_CHARS);
        }
    }
    let placements = layout_statements(&stmts, shape);
    let cells = build_document(&stmts, &placements);
    proof {
        assert(forall|i: int|
            0 <= i < models.len() ==> #[trigger] models[i] == (
                stmts@[i].kind,
                stmts@[i].label@,
            ));
    }
    Ok(cells)
}

} // verus!
