//! The statement parser. One source line either is skipped (blank or
//! comment), matches one of the three grammar alternatives
//! `goal | risk | agent`, each a keyword followed by whitespace and a
//! quoted label, or is a syntax error that aborts the whole parse.

use vstd::prelude::*;

use crate::statement::{ShapeKind, Statement, SyntaxError};
use crate::text::{is_space_char, space_char};

verus! {

/// The quote character that delimits a label.
pub const QUOTE: char = '"';

/// The comment marker: a line whose first two characters are this
/// marker twice is skipped.
pub const COMMENT_MARK: char = '&';

/// The keyword of each statement kind.
pub open spec fn spec_keyword(k: ShapeKind) -> Seq<char> {
    match k {
        ShapeKind::Goal => seq!['g', 'o', 'a', 'l'],
        ShapeKind::Risk => seq!['r', 'i', 's', 'k'],
        ShapeKind::Agent => seq!['a', 'g', 'e', 'n', 't'],
    }
}

/// Nothing but whitespace.
pub open spec fn all_spaces(s: Seq<char>) -> bool {
    forall|i: int| 0 <= i < s.len() ==> is_space_char(#[trigger] s[i])
}

/// A line that opens with the comment marker twice.
pub open spec fn is_comment_line(s: Seq<char>) -> bool {
    s.len() >= 2 && s[0] == COMMENT_MARK && s[1] == COMMENT_MARK
}

/// A line the parser skips without producing a statement: blank or
/// comment.
pub open spec fn line_skipped(s: Seq<char>) -> bool {
    all_spaces(s) || is_comment_line(s)
}

/// No quote character anywhere.
pub open spec fn has_no_quote(s: Seq<char>) -> bool {
    forall|i: int| 0 <= i < s.len() ==> #[trigger] s[i] != QUOTE
}

/// One decomposition of a line as a statement: the keyword of `k`,
/// at least one whitespace character, the quoted label, and trailing
/// whitespace.
pub open spec fn statement_parts(
    s: Seq<char>,
    k: ShapeKind,
    label: Seq<char>,
    gap: Seq<char>,
    tail: Seq<char>,
) -> bool {
    &&& gap.len() >= 1
    &&& all_spaces(gap)
    &&& all_spaces(tail)
    &&& has_no_quote(label)
    &&& s == spec_keyword(k) + gap + seq![QUOTE] + label + seq![QUOTE] + tail
}

/// The line is a statement of kind `k` with the given label.
pub open spec fn is_statement_line(s: Seq<char>, k: ShapeKind, label: Seq<char>) -> bool {
    exists|gap: Seq<char>, tail: Seq<char>| statement_parts(s, k, label, gap, tail)
}

/// The line matches some grammar alternative.
pub open spec fn matches_grammar(s: Seq<char>) -> bool {
    exists|k: ShapeKind, label: Seq<char>| is_statement_line(s, k, label)
}

/// Reads a decomposition off position by position.
proof fn lemma_parts_index(s: Seq<char>, k: ShapeKind, label: Seq<char>, gap: Seq<char>, tail: Seq<char>)
    requires
        statement_parts(s, k, label, gap, tail),
    ensures
        ({
            let p = spec_keyword(k).len() as int;
            let q0 = p + gap.len();
            let q1 = q0 + 1 + label.len();
            &&& s.len() == q1 + 1 + tail.len()
            &&& spec_keyword(k).is_prefix_of(s)
            &&& forall|i: int| 0 <= i < p ==> s[i] == spec_keyword(k)[i]
            &&& forall|i: int| p <= i < q0 ==> is_space_char(#[trigger] s[i])
            &&& s[q0] == QUOTE
            &&& forall|i: int| q0 < i < q1 ==> #[trigger] s[i] == label[i - q0 - 1]
            &&& forall|i: int| q0 < i < q1 ==> #[trigger] s[i] != QUOTE
            &&& s[q1] == QUOTE
            &&& forall|i: int| q1 < i < s.len() ==> is_space_char(#[trigger] s[i])
        }),
{
    let kw = spec_keyword(k);
    let p = kw.len() as int;
    let q0 = p + gap.len();
    let q1 = q0 + 1 + label.len();
    assert(s.len() == q1 + 1 + tail.len());
    assert(forall|i: int| 0 <= i < p ==> s[i] == kw[i]);
    assert(kw =~= s.subrange(0, p));
    assert(forall|i: int| p <= i < q0 ==> #[trigger] s[i] == gap[i - p]);
    assert(forall|i: int| q0 < i < q1 ==> #[trigger] s[i] == label[i - q0 - 1]);
    assert(forall|i: int| q1 < i < s.len() ==> #[trigger] s[i] == tail[i - q1 - 1]);
}

/// A line that starts with no keyword is no statement.
proof fn lemma_no_stmt_no_prefix(s: Seq<char>)
    requires
        forall|k: ShapeKind| !(#[trigger] spec_keyword(k)).is_prefix_of(s),
    ensures
        forall|k: ShapeKind, l: Seq<char>| !is_statement_line(s, k, l),
{
    assert forall|k: ShapeKind, l: Seq<char>| !is_statement_line(s, k, l) by {
        if is_statement_line(s, k, l) {
            let (gap, tail) = choose|gap: Seq<char>, tail: Seq<char>|
                statement_parts(s, k, l, gap, tail);
            lemma_parts_index(s, k, l, gap, tail);
        }
    }
}

/// A line that starts with the keyword of `kind` can be a statement
/// of no other kind: the three keywords differ in their first
/// character.
proof fn lemma_kind_pinned(s: Seq<char>, kind: ShapeKind)
    requires
        spec_keyword(kind).is_prefix_of(s),
    ensures
        forall|k: ShapeKind, l: Seq<char>| is_statement_line(s, k, l) ==> k == kind,
{
    assert forall|k: ShapeKind, l: Seq<char>| is_statement_line(s, k, l) implies k == kind by {
        let (gap, tail) = choose|gap: Seq<char>, tail: Seq<char>|
            statement_parts(s, k, l, gap, tail);
        lemma_parts_index(s, k, l, gap, tail);
        assert(s[0] == spec_keyword(k)[0]);
        assert(s[0] == spec_keyword(kind)[0]);
    }
}

/// With the keyword present but no whitespace after it, the line is
/// no statement of that kind.
proof fn lemma_no_stmt_gap(s: Seq<char>, kind: ShapeKind)
    requires
        spec_keyword(kind).is_prefix_of(s),
        spec_keyword(kind).len() == s.len() || !is_space_char(s[spec_keyword(kind).len() as int]),
    ensures
        forall|l: Seq<char>| !is_statement_line(s, kind, l),
{
    let p = spec_keyword(kind).len() as int;
    assert forall|l: Seq<char>| !is_statement_line(s, kind, l) by {
        if is_statement_line(s, kind, l) {
            let (gap, tail) = choose|gap: Seq<char>, tail: Seq<char>|
                statement_parts(s, kind, l, gap, tail);
            lemma_parts_index(s, kind, l, gap, tail);
            assert(is_space_char(s[p]));
        }
    }
}

/// With only whitespace between the keyword and position `i`, and no
/// opening quote at `i`, the line is no statement of that kind.
proof fn lemma_no_stmt_no_open(s: Seq<char>, kind: ShapeKind, i: int)
    requires
        spec_keyword(kind).is_prefix_of(s),
        spec_keyword(kind).len() <= i <= s.len(),
        forall|m: int| spec_keyword(kind).len() <= m < i ==> is_space_char(#[trigger] s[m]),
        i == s.len() || (!is_space_char(s[i]) && s[i] != QUOTE),
    ensures
        forall|l: Seq<char>| !is_statement_line(s, kind, l),
{
    assert forall|l: Seq<char>| !is_statement_line(s, kind, l) by {
        if is_statement_line(s, kind, l) {
            let (gap, tail) = choose|gap: Seq<char>, tail: Seq<char>|
                statement_parts(s, kind, l, gap, tail);
            lemma_parts_index(s, kind, l, gap, tail);
            let q0 = spec_keyword(kind).len() + gap.len();
            assert(s[q0 as int] == QUOTE);
            assert(!is_space_char(QUOTE));
            if q0 < i {
                assert(is_space_char(s[q0 as int]));
            } else if q0 > i {
                assert(is_space_char(s[i]));
            }
        }
    }
}

/// With the opening quote at `i` and no quote after it, the line is
/// no statement of that kind.
proof fn lemma_no_stmt_no_close(s: Seq<char>, kind: ShapeKind, i: int)
    requires
        spec_keyword(kind).is_prefix_of(s),
        spec_keyword(kind).len() <= i < s.len(),
        forall|m: int| spec_keyword(kind).len() <= m < i ==> is_space_char(#[trigger] s[m]),
        s[i] == QUOTE,
        forall|m: int| i < m < s.len() ==> #[trigger] s[m] != QUOTE,
    ensures
        forall|l: Seq<char>| !is_statement_line(s, kind, l),
{
    assert forall|l: Seq<char>| !is_statement_line(s, kind, l) by {
        if is_statement_line(s, kind, l) {
            let (gap, tail) = choose|gap: Seq<char>, tail: Seq<char>|
                statement_parts(s, kind, l, gap, tail);
            lemma_parts_index(s, kind, l, gap, tail);
            let q0 = spec_keyword(kind).len() + gap.len();
            let q1 = q0 + 1 + l.len();
            assert(!is_space_char(QUOTE));
            if q0 < i {
                assert(is_space_char(s[q0 as int]));
            } else if q0 > i {
                assert(is_space_char(s[i]));
            }
            assert(q0 == i);
            assert(s[q1 as int] == QUOTE);
        }
    }
}

/// With the quoted label closed at `j` and something other than
/// whitespace after it, the line is no statement of that kind.
proof fn lemma_no_stmt_tail(s: Seq<char>, kind: ShapeKind, i: int, j: int, t: int)
    requires
        spec_keyword(kind).is_prefix_of(s),
        spec_keyword(kind).len() <= i < j < s.len(),
        forall|m: int| spec_keyword(kind).len() <= m < i ==> is_space_char(#[trigger] s[m]),
        s[i] == QUOTE,
        forall|m: int| i < m < j ==> #[trigger] s[m] != QUOTE,
        s[j] == QUOTE,
        forall|m: int| j < m < t ==> is_space_char(#[trigger] s[m]),
        j < t < s.len(),
        !is_space_char(s[t]),
    ensures
        forall|l: Seq<char>| !is_statement_line(s, kind, l),
{
    assert forall|l: Seq<char>| !is_statement_line(s, kind, l) by {
        if is_statement_line(s, kind, l) {
            let (gap, tail) = choose|gap: Seq<char>, tail: Seq<char>|
                statement_parts(s, kind, l, gap, tail);
            lemma_parts_index(s, kind, l, gap, tail);
            let q0 = spec_keyword(kind).len() + gap.len();
            let q1 = q0 + 1 + l.len();
            assert(!is_space_char(QUOTE));
            if q0 < i {
                assert(is_space_char(s[q0 as int]));
            } else if q0 > i {
                assert(is_space_char(s[i]));
            }
            assert(q0 == i);
            if q1 < j {
                assert(s[q1 as int] != QUOTE);
            } else if q1 > j {
                assert(s[j] != QUOTE);
            }
            assert(q1 == j);
            assert(is_space_char(s[t]));
        }
    }
}

/// A statement of some kind with some label is a statement of that
/// kind and label only: the decomposition of a line is unique.
pub proof fn lemma_statement_line_unique(
    s: Seq<char>,
    k1: ShapeKind,
    l1: Seq<char>,
    k2: ShapeKind,
    l2: Seq<char>,
)
    requires
        is_statement_line(s, k1, l1),
        is_statement_line(s, k2, l2),
    ensures
        k1 == k2,
        l1 == l2,
{
    let (g1, t1) = choose|g1: Seq<char>, t1: Seq<char>| statement_parts(s, k1, l1, g1, t1);
    let (g2, t2) = choose|g2: Seq<char>, t2: Seq<char>| statement_parts(s, k2, l2, g2, t2);
    lemma_parts_index(s, k1, l1, g1, t1);
    lemma_parts_index(s, k2, l2, g2, t2);
    assert(s[0] == spec_keyword(k1)[0]);
    assert(s[0] == spec_keyword(k2)[0]);
    assert(k1 == k2);
    let p = spec_keyword(k1).len() as int;
    let a0 = p + g1.len();
    let b0 = p + g2.len();
    assert(!is_space_char(QUOTE));
    if a0 < b0 {
        assert(is_space_char(s[a0]));
    } else if a0 > b0 {
        assert(is_space_char(s[b0]));
    }
    assert(a0 == b0);
    let a1 = a0 + 1 + l1.len();
    let b1 = b0 + 1 + l2.len();
    if a1 < b1 {
        assert(s[a1] != QUOTE);
    } else if a1 > b1 {
        assert(s[b1] != QUOTE);
    }
    assert(a1 == b1);
    assert forall|m: int| 0 <= m < l1.len() implies l1[m] == l2[m] by {
        assert(s[a0 + 1 + m] == l1[m]);
        assert(s[a0 + 1 + m] == l2[m]);
    }
    assert(l1 =~= l2);
}

/// A statement line is neither blank nor a comment.
pub proof fn lemma_statement_not_skipped(s: Seq<char>, k: ShapeKind, label: Seq<char>)
    requires
        is_statement_line(s, k, label),
    ensures
        !line_skipped(s),
{
    let (gap, tail) = choose|gap: Seq<char>, tail: Seq<char>|
        statement_parts(s, k, label, gap, tail);
    lemma_parts_index(s, k, label, gap, tail);
    assert(s[0] == spec_keyword(k)[0]);
    assert(!is_space_char(s[0]));
}

/// Whether the keyword is a prefix of the line.
fn check_prefix(input: &str, keyword: &str) -> (r: bool)
    ensures
        r == keyword@.is_prefix_of(input@),
{
    let nk: usize = keyword.unicode_len();
    let n: usize = input.unicode_len();
    if nk > n {
        return false;
    }
    let head: &str = input.substring_char(0, nk);
    crate::text::str_equal(head, keyword)
}

/// Parses one source line. A blank or comment line yields no
/// statement; a line that matches the grammar yields its unique
/// statement; any other line is a syntax error that names this line
/// number and the raw text.
pub fn parsing_proc(input: &str, line_number: usize) -> (r: Result<Option<Statement>, SyntaxError>)
    ensures
        match r {
            Ok(st_opt) => match st_opt {
                Some(st) => is_statement_line(input@, st.kind, st.label@) && !line_skipped(
                    input@,
                ),
                None => line_skipped(input@),
            },
            Err(e) => {
                &&& !line_skipped(input@)
                &&& forall|k: ShapeKind, l: Seq<char>| !is_statement_line(input@, k, l)
                &&& e.line == line_number
                &&& e.text@ == input@
            },
        },
{
    let ghost s = input@;
    let n: usize = input.unicode_len();
    // A line of nothing but whitespace is skipped.
    let mut b: usize = 0;
    while b < n && space_char(input.get_char(b))
        invariant
            n == s.len(),
            s == input@,
            b <= n,
            forall|m: int| 0 <= m < b ==> is_space_char(#[trigger] s[m]),
        decreases n - b,
    {
        b = b + 1;
    }
    if b == n {
        return Ok(None);
    }
    // A line whose first two characters are the comment marker twice
    // is skipped.
    if n >= 2 && input.get_char(0) == COMMENT_MARK && input.get_char(1) == COMMENT_MARK {
        return Ok(None);
    }
    proof {
        assert(!all_spaces(s));
        assert(!is_comment_line(s));
    }
    let err = SyntaxError { line: line_number, text: String::from_str(input) };
    // The keyword decides the kind; no keyword, no statement.
    proof {
        reveal_strlit("goal");
        reveal_strlit("risk");
        reveal_strlit("agent");
        assert("goal"@ =~= spec_keyword(ShapeKind::Goal));
        assert("risk"@ =~= spec_keyword(ShapeKind::Risk));
        assert("agent"@ =~= spec_keyword(ShapeKind::Agent));
    }
    let (kind, p): (ShapeKind, usize) = if check_prefix(input, "goal") {
        (ShapeKind::Goal, 4)
    } else if check_prefix(input, "risk") {
        (ShapeKind::Risk, 4)
    } else if check_prefix(input, "agent") {
        (ShapeKind::Agent, 5)
    } else {
        proof {
            assert(forall|k: ShapeKind| !(#[trigger] spec_keyword(k)).is_prefix_of(s));
            lemma_no_stmt_no_prefix(s);
        }
        return Err(err);
    };
    proof {
        assert(spec_keyword(kind).is_prefix_of(s));
        assert(p == spec_keyword(kind).len());
        assert(p <= n);
        lemma_kind_pinned(s, kind);
    }
    // At least one whitespace character after the keyword.
    let mut i: usize = p;
    while i < n && space_char(input.get_char(i))
        invariant
            n == s.len(),
            s == input@,
            p <= i <= n,
            forall|m: int| p <= m < i ==> is_space_char(#[trigger] s[m]),
        decreases n - i,
    {
        i = i + 1;
    }
    if i == p {
        proof {
            lemma_no_stmt_gap(s, kind);
        }
        return Err(err);
    }
    // The opening quote.
    if i == n || input.get_char(i) != QUOTE {
        proof {
            lemma_no_stmt_no_open(s, kind, i as int);
        }
        return Err(err);
    }
    // The closing quote: the first quote after the opening one.
    let mut j: usize = i + 1;
    while j < n && input.get_char(j) != QUOTE
        invariant
            n == s.len(),
            s == input@,
            i < j <= n,
            forall|m: int| i < m < j ==> #[trigger] s[m] != QUOTE,
        decreases n - j,
    {
        j = j + 1;
    }
    if j == n {
        proof {
            lemma_no_stmt_no_close(s, kind, i as int);
        }
        return Err(err);
    }
    // Nothing but whitespace after the closing quote.
    let mut t: usize = j + 1;
    while t < n && space_char(input.get_char(t))
        invariant
            n == s.len(),
            s == input@,
            j < t <= n,
            forall|m: int| j < m < t ==> is_space_char(#[trigger] s[m]),
        decreases n - t,
    {
        t = t + 1;
    }
    if t < n {
        proof {
            lemma_no_stmt_tail(s, kind, i as int, j as int, t as int);
        }
        return Err(err);
    }
    let label: &str = input.substring_char(i + 1, j);
    proof {
        let gap = s.subrange(p as int, i as int);
        let lab = s.subrange(i as int + 1, j as int);
        let tail = s.subrange(j as int + 1, n as int);
        assert(gap.len() >= 1);
        assert(all_spaces(gap));
        assert(all_spaces(tail));
        assert(has_no_quote(lab));
        assert(s =~= spec_keyword(kind) + gap + seq![QUOTE] + lab + seq![QUOTE] + tail);
        assert(statement_parts(s, kind, lab, gap, tail));
        assert(is_statement_line(s, kind, lab));
    }
    Ok(Some(Statement { kind, label: String::from_str(label) }))
}

/// A line the parser accepts: skipped, or a statement.
pub open spec fn spec_line_ok(s: Seq<char>) -> bool {
    line_skipped(s) || matches_grammar(s)
}

/// The statements of the grammar lines, in source order.
pub open spec fn spec_statements_of(lines: Seq<Seq<char>>) -> Seq<(ShapeKind, Seq<char>)>
    decreases lines.len(),
{
    if lines.len() == 0 {
        Seq::empty()
    } else {
        let rest = spec_statements_of(lines.drop_last());
        if matches_grammar(lines.last()) {
            rest.push(
                choose|k: ShapeKind, lab: Seq<char>| is_statement_line(lines.last(), k, lab),
            )
        } else {
            rest
        }
    }
}

/// The kind and label of each statement of a sequence.
pub open spec fn stmt_models(sts: Seq<Statement>) -> Seq<(ShapeKind, Seq<char>)> {
    Seq::new(sts.len(), |i: int| (sts[i].kind, sts[i].label@))
}

/// A source yields no more statements than it has lines, and no
/// statement's label has more characters than its line.
pub proof fn lemma_statements_of_bounds(ls: Seq<Seq<char>>, bound: int)
    requires
        forall|i: int| 0 <= i < ls.len() ==> (#[trigger] ls[i]).len() <= bound,
    ensures
        spec_statements_of(ls).len() <= ls.len(),
        forall|j: int|
            0 <= j < spec_statements_of(ls).len() ==> (#[trigger] spec_statements_of(
                ls,
            )[j]).1.len() <= bound,
    decreases ls.len(),
{
    if ls.len() > 0 {
        assert(forall|i: int|
            0 <= i < ls.len() - 1 ==> #[trigger] ls.drop_last()[i] == ls[i]);
        lemma_statements_of_bounds(ls.drop_last(), bound);
        if matches_grammar(ls.last()) {
            let (k, lab) = choose|k: ShapeKind, lab: Seq<char>|
                is_statement_line(ls.last(), k, lab);
            let (gap, tail) = choose|gap: Seq<char>, tail: Seq<char>|
                statement_parts(ls.last(), k, lab, gap, tail);
            assert(ls.last().len() == spec_keyword(k).len() + gap.len() + 1 + lab.len() + 1
                + tail.len());
        }
    }
}

/// Parses a whole source, one line at a time, skipping blank and
/// comment lines. Fail-fast: the first line that matches no grammar
/// alternative aborts the parse with a syntax error naming that
/// line, and no statements are produced.
pub fn parse_lines(lines: &Vec<String>) -> (r: Result<Vec<Statement>, SyntaxError>)
    ensures
        match r {
            Ok(sts) => {
                &&& forall|i: int|
                    0 <= i < lines@.len() ==> spec_line_ok(#[trigger] lines.deep_view()[i])
                &&& stmt_models(sts@) == spec_statements_of(lines.deep_view())
            },
            Err(e) => {
                &&& 1 <= e.line <= lines@.len()
                &&& !spec_line_ok(lines.deep_view()[e.line - 1])
                &&& forall|i: int|
                    0 <= i < e.line - 1 ==> spec_line_ok(#[trigger] lines.deep_view()[i])
                &&& e.text@ == lines.deep_view()[e.line - 1]
            },
        },
{
    let ghost ls = lines.deep_view();
    let count: usize = lines.len();
    let mut sts: Vec<Statement> = Vec::new();
    let mut idx: usize = 0;
    while idx < count
        invariant
            count == lines@.len(),
            ls == lines.deep_view(),
            idx <= count,
            forall|i: int| 0 <= i < idx ==> spec_line_ok(#[trigger] ls[i]),
            stmt_models(sts@) == spec_statements_of(ls.take(idx as int)),
        decreases count - idx,
    {
        let line: &str = lines[idx].as_str();
        proof {
            assert(line@ == ls[idx as int]);
            assert(ls.take(idx as int + 1).drop_last() =~= ls.take(idx as int));
            assert(ls.take(idx as int + 1).last() == ls[idx as int]);
        }
        match parsing_proc(line, idx + 1) {
            Ok(opt) => match opt {
                Some(st) => {
                    let ghost pre = stmt_models(sts@);
                    proof {
                        assert(matches_grammar(ls[idx as int]));
                        let (ck, cl) = choose|k: ShapeKind, lab: Seq<char>|
                            is_statement_line(ls[idx as int], k, lab);
                        lemma_statement_line_unique(ls[idx as int], ck, cl, st.kind, st.label@);
                    }
                    let ghost model = (st.kind, st.label@);
                    sts.push(st);
                    proof {
                        assert(stmt_models(sts@) =~= pre.push(model));
                    }
                },
                None => {
                    proof {
                        if matches_grammar(ls[idx as int]) {
                            let (ck, cl) = choose|k: ShapeKind, lab: Seq<char>|
                                is_statement_line(ls[idx as int], k, lab);
                            lemma_statement_not_skipped(ls[idx as int], ck, cl);
                        }
                    }
                },
            },
            Err(e) => {
                proof {
                    if matches_grammar(ls[idx as int]) {
                        let (ck, cl) = choose|k: ShapeKind, lab: Seq<char>|
                            is_statement_line(ls[idx as int], k, lab);
                        assert(is_statement_line(ls[idx as int], ck, cl));
                    }
                    assert(!spec_line_ok(ls[idx as int]));
                }
                return Err(e);
            },
        }
        idx = idx + 1;
    }
    proof {
        assert(ls.take(count as int) =~= ls);
    }
    Ok(sts)
}

} // verus!
