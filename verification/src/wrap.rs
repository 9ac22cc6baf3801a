//! Word wrapping for long labels: the words of a label are grouped
//! into fixed-size chunks and each chunk is joined with single spaces
//! into one rendered line. No line is empty and no line carries a
//! trailing space.

use vstd::prelude::*;

use crate::text::{is_space_char, space_char};

verus! {

/// The words of a character sequence: the maximal runs of
/// non-whitespace characters, in order.
pub open spec fn spec_words(s: Seq<char>) -> Seq<Seq<char>>
    decreases s.len(),
{
    if s.len() == 0 {
        Seq::empty()
    } else {
        let rest = spec_words(s.drop_last());
        let c = s.last();
        if is_space_char(c) {
            rest
        } else if s.len() >= 2 && !is_space_char(s[s.len() - 2]) {
            rest.update(rest.len() - 1, rest.last().push(c))
        } else {
            rest.push(seq![c])
        }
    }
}

/// A well-formed word: non-empty and free of whitespace.
pub open spec fn word_wf(w: Seq<char>) -> bool {
    w.len() >= 1 && (forall|j: int| 0 <= j < w.len() ==> !is_space_char(#[trigger] w[j]))
}

/// Every word of the sequence is well-formed.
pub open spec fn all_words_wf(ws: Seq<Seq<char>>) -> bool {
    forall|i: int| 0 <= i < ws.len() ==> word_wf(#[trigger] ws[i])
}

/// The words of any character sequence are non-empty and free of
/// whitespace.
pub proof fn lemma_words_wf(s: Seq<char>)
    ensures
        all_words_wf(spec_words(s)),
        s.len() > 0 && !is_space_char(s.last()) ==> spec_words(s).len() >= 1,
    decreases s.len(),
{
    if s.len() == 0 {
    } else {
        lemma_words_wf(s.drop_last());
        let rest = spec_words(s.drop_last());
        let c = s.last();
        if is_space_char(c) {
        } else if s.len() >= 2 && !is_space_char(s[s.len() - 2]) {
            assert(s.drop_last().last() == s[s.len() - 2]);
            assert(rest.len() >= 1);
            let w = rest.last().push(c);
            assert(word_wf(rest.last()));
            assert(forall|j: int| 0 <= j < w.len() ==> !is_space_char(#[trigger] w[j]));
            assert(all_words_wf(spec_words(s)));
        } else {
            let w = seq![c];
            assert(word_wf(w));
            assert(all_words_wf(spec_words(s)));
        }
    }
}

/// A sequence has no more words than characters.
pub proof fn lemma_words_count(s: Seq<char>)
    ensures
        spec_words(s).len() <= s.len(),
    decreases s.len(),
{
    if s.len() > 0 {
        lemma_words_count(s.drop_last());
        lemma_words_wf(s.drop_last());
        if !is_space_char(s.last()) && s.len() >= 2 && !is_space_char(s[s.len() - 2]) {
            assert(s.drop_last().last() == s[s.len() - 2]);
        }
    }
}

/// Appending a whitespace character leaves the words unchanged.
pub proof fn lemma_words_step_space(s: Seq<char>, i: int)
    requires
        0 <= i < s.len(),
        is_space_char(s[i]),
    ensures
        spec_words(s.take(i + 1)) == spec_words(s.take(i)),
{
    assert(s.take(i + 1).drop_last() =~= s.take(i));
    assert(s.take(i + 1).last() == s[i]);
}

/// A non-whitespace character at a word boundary starts a new word.
pub proof fn lemma_words_step_start(s: Seq<char>, i: int)
    requires
        0 <= i < s.len(),
        !is_space_char(s[i]),
        i == 0 || is_space_char(s[i - 1]),
    ensures
        spec_words(s.take(i + 1)) == spec_words(s.take(i)).push(seq![s[i]]),
{
    let t = s.take(i + 1);
    assert(t.drop_last() =~= s.take(i));
    assert(t.last() == s[i]);
    if i > 0 {
        assert(t[t.len() - 2] == s[i - 1]);
    }
}

/// A non-whitespace character after a non-whitespace character
/// extends the last word.
pub proof fn lemma_words_step_extend(s: Seq<char>, i: int)
    requires
        1 <= i < s.len(),
        !is_space_char(s[i]),
        !is_space_char(s[i - 1]),
    ensures
        spec_words(s.take(i + 1)) == spec_words(s.take(i)).update(
            spec_words(s.take(i)).len() - 1,
            spec_words(s.take(i)).last().push(s[i]),
        ),
{
    let t = s.take(i + 1);
    assert(t.drop_last() =~= s.take(i));
    assert(t.last() == s[i]);
    assert(t[t.len() - 2] == s[i - 1]);
}

/// The chunk-joined text of one rendered line: the words of the
/// chunk, joined with single spaces.
pub open spec fn spec_join_words(ws: Seq<Seq<char>>) -> Seq<char>
    decreases ws.len(),
{
    if ws.len() == 0 {
        Seq::empty()
    } else if ws.len() == 1 {
        ws[0]
    } else {
        spec_join_words(ws.drop_last()) + seq![' '] + ws.last()
    }
}

/// Joining well-formed words yields a non-empty line that does not
/// end in whitespace.
pub proof fn lemma_join_words_wf(ws: Seq<Seq<char>>)
    requires
        all_words_wf(ws),
        ws.len() >= 1,
    ensures
        spec_join_words(ws).len() >= 1,
        !is_space_char(spec_join_words(ws).last()),
    decreases ws.len(),
{
    if ws.len() == 1 {
        assert(word_wf(ws[0]));
    } else {
        let j = spec_join_words(ws);
        assert(word_wf(ws.last()));
        assert(j.last() == ws.last().last());
    }
}

/// The words of chunk `i`, when the words are grouped `c` to a line.
pub open spec fn spec_chunk(ws: Seq<Seq<char>>, c: int, i: int) -> Seq<Seq<char>> {
    if (i + 1) * c <= ws.len() {
        ws.subrange(i * c, (i + 1) * c)
    } else {
        ws.subrange(i * c, ws.len() as int)
    }
}

/// Splits the label's words into chunks of `per_word` words and joins
/// each chunk with single spaces into one line. Produces one line per
/// started chunk and none for an empty label; no line is empty and no
/// line ends with whitespace.
pub fn label_control(label: &str, per_word: usize) -> (lines: Vec<String>)
    requires
        1 <= per_word,
    ensures
        ({
            let ws = spec_words(label@);
            let c = per_word as int;
            &&& lines@.len() == (ws.len() + c - 1) / c
            &&& forall|i: int|
                0 <= i < lines@.len() ==> (#[trigger] lines@[i])@ == spec_join_words(
                    spec_chunk(ws, c, i),
                )
            &&& forall|i: int|
                0 <= i < lines@.len() ==> (#[trigger] lines@[i])@.len() >= 1 && !is_space_char(
                    lines@[i]@.last(),
                )
        }),
{
    let ghost s = label@;
    let n: usize = label.unicode_len();
    let mut words: Vec<&str> = Vec::new();
    let mut i: usize = 0;
    while i < n
        invariant
            n == s.len(),
            s == label@,
            i <= n,
            i < n && !is_space_char(s[i as int]) ==> i == 0 || is_space_char(s[i as int - 1]),
            words.deep_view() == spec_words(s.take(i as int)),
        decreases n - i,
    {
        if space_char(label.get_char(i)) {
            proof {
                lemma_words_step_space(s, i as int);
            }
            i = i + 1;
        } else {
            let start: usize = i;
            let mut j: usize = i + 1;
            proof {
                lemma_words_step_start(s, i as int);
                assert(s.subrange(start as int, j as int) =~= seq![s[start as int]]);
            }
            while j < n && !space_char(label.get_char(j))
                invariant
                    n == s.len(),
                    s == label@,
                    start < j <= n,
                    forall|k: int| start <= k < j ==> !is_space_char(#[trigger] s[k]),
                    spec_words(s.take(j as int)) == spec_words(s.take(start as int)).push(
                        s.subrange(start as int, j as int),
                    ),
                decreases n - j,
            {
                proof {
                    lemma_words_step_extend(s, j as int);
                    let prev = spec_words(s.take(j as int));
                    assert(prev.last() == s.subrange(start as int, j as int));
                    assert(s.subrange(start as int, j as int).push(s[j as int]) =~= s.subrange(
                        start as int,
                        j as int + 1,
                    ));
                    assert(spec_words(s.take(j as int + 1)) =~= spec_words(
                        s.take(start as int),
                    ).push(s.subrange(start as int, j as int + 1)));
                }
                j = j + 1;
            }
            let word: &str = label.substring_char(start, j);
            words.push(word);
            proof {
                assert(words.deep_view() =~= spec_words(s.take(j as int)));
            }
            i = j;
        }
    }
    proof {
        assert(s.take(n as int) =~= s);
        lemma_words_wf(s);
    }
    let ghost ws = spec_words(s);
    let w: usize = words.len();
    let mut lines: Vec<String> = Vec::new();
    let mut k: usize = 0;
    proof {
        if w == 0 {
            assert((ws.len() + per_word as int - 1) / (per_word as int) == 0)
                by (nonlinear_arith)
                requires
                    per_word >= 1,
                    ws.len() == 0,
            ;
        }
    }
    while k < w
        invariant
            w == ws.len(),
            words.deep_view() == ws,
            all_words_wf(ws),
            per_word >= 1,
            k <= w,
            k < w ==> k == lines@.len() * per_word,
            k == w ==> lines@.len() == (ws.len() + per_word as int - 1) / (per_word as int),
            forall|i: int|
                0 <= i < lines@.len() ==> (#[trigger] lines@[i])@ == spec_join_words(
                    spec_chunk(ws, per_word as int, i),
                ),
            forall|i: int|
                0 <= i < lines@.len() ==> (#[trigger] lines@[i])@.len() >= 1 && !is_space_char(
                    lines@[i]@.last(),
                ),
        decreases w - k,
    {
        let end: usize = if w - k >= per_word {
            k + per_word
        } else {
            w
        };
        let ghost c = per_word as int;
        let ghost li = lines@.len() as int;
        proof {
            assert(k == li * c);
            assert((li + 1) * c == li * c + c) by (nonlinear_arith);
            assert(spec_chunk(ws, c, li) =~= ws.subrange(k as int, end as int));
        }
        let mut line: String = String::from_str(words[k]);
        let mut j: usize = k + 1;
        proof {
            assert(ws.subrange(k as int, j as int) =~= seq![ws[k as int]]);
            assert(spec_join_words(ws.subrange(k as int, j as int)) == ws[k as int]);
        }
        while j < end
            invariant
                w == ws.len(),
                words.deep_view() == ws,
                k < j <= end <= w,
                line@ == spec_join_words(ws.subrange(k as int, j as int)),
            decreases end - j,
        {
            proof {
                reveal_strlit(" ");
            }
            line.append(" ");
            line.append(words[j]);
            proof {
                let sub = ws.subrange(k as int, j as int + 1);
                assert(sub.drop_last() =~= ws.subrange(k as int, j as int));
                assert(sub.last() == ws[j as int]);
                assert(line@ == spec_join_words(sub));
            }
            j = j + 1;
        }
        proof {
            let chunk = spec_chunk(ws, c, li);
            assert(forall|t: int| 0 <= t < chunk.len() ==> word_wf(#[trigger] chunk[t]));
            lemma_join_words_wf(chunk);
        }
        lines.push(line);
        k = end;
        proof {
            if k < w {
                assert(end == (li + 1) * c) by (nonlinear_arith)
                    requires end == li * c + c,
                ;
            } else {
                assert(lines@.len() == (ws.len() + c - 1) / c) by (nonlinear_arith)
                    requires
                        lines@.len() == li + 1,
                        c >= 1,
                        li * c < ws.len() <= li * c + c,
                        k == ws.len(),
                        end == k,
                ;
            }
        }
    }
    lines
}

} // verus!
