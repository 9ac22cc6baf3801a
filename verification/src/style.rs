//! The style codec: a bidirectional mapping between an ordered set of
//! named style attributes and its semicolon-delimited `key=value`
//! text. Values are assumed not to contain `;`, and keys neither `;`
//! nor `=`; the codec does not escape them.

use vstd::prelude::*;

use crate::text::str_equal;

verus! {

/// Splits a character sequence at every occurrence of `sep`. The
/// result always holds at least one segment; separators at the ends
/// yield empty segments.
pub open spec fn spec_split(s: Seq<char>, sep: char) -> Seq<Seq<char>>
    decreases s.len(),
{
    if s.len() == 0 {
        seq![Seq::<char>::empty()]
    } else if s.last() == sep {
        spec_split(s.drop_last(), sep).push(Seq::empty())
    } else {
        let sp = spec_split(s.drop_last(), sep);
        sp.update(sp.len() - 1, sp.last().push(s.last()))
    }
}

/// A split is never empty.
pub proof fn lemma_split_min_len(s: Seq<char>, sep: char)
    ensures
        spec_split(s, sep).len() >= 1,
    decreases s.len(),
{
    if s.len() > 0 {
        lemma_split_min_len(s.drop_last(), sep);
    }
}

/// The index of the first occurrence of `c` in `s`, or `s.len()`
/// when `s` does not contain `c`.
pub open spec fn find_char(s: Seq<char>, c: char) -> int
    decreases s.len(),
{
    if s.len() == 0 {
        0
    } else if s[0] == c {
        0
    } else {
        1 + find_char(s.drop_first(), c)
    }
}

/// Characterizes [`find_char`]: it points at the first occurrence,
/// and at the length when there is none.
pub proof fn lemma_find_char(s: Seq<char>, c: char)
    ensures
        0 <= find_char(s, c) <= s.len(),
        find_char(s, c) < s.len() ==> s[find_char(s, c)] == c,
        forall|k: int| 0 <= k < find_char(s, c) ==> s[k] != c,
        find_char(s, c) == s.len() ==> forall|k: int| 0 <= k < s.len() ==> s[k] != c,
    decreases s.len(),
{
    if s.len() == 0 {
    } else if s[0] == c {
    } else {
        lemma_find_char(s.drop_first(), c);
        assert(forall|k: int| 1 <= k < s.len() ==> #[trigger] s[k] == s.drop_first()[k - 1]);
    }
}

/// The `key=value` reading of one segment: the text before the first
/// `=` and the text after it. A segment without `=` has no reading
/// and is dropped by the decoder.
pub open spec fn spec_pair_of(seg: Seq<char>) -> Option<(Seq<char>, Seq<char>)> {
    if seg.contains('=') {
        let j = find_char(seg, '=');
        Some((seg.take(j), seg.skip(j + 1)))
    } else {
        None
    }
}

/// The attribute pairs read from a sequence of segments, in order,
/// segments without `=` dropped.
pub open spec fn spec_pairs_of(segs: Seq<Seq<char>>) -> Seq<(Seq<char>, Seq<char>)>
    decreases segs.len(),
{
    if segs.len() == 0 {
        Seq::empty()
    } else {
        let rest = spec_pairs_of(segs.drop_last());
        match spec_pair_of(segs.last()) {
            Some(p) => rest.push(p),
            None => rest,
        }
    }
}

/// What decoding a style string yields.
pub open spec fn spec_decode(s: Seq<char>) -> Seq<(Seq<char>, Seq<char>)> {
    spec_pairs_of(spec_split(s, ';'))
}

/// The text of one attribute pair: `key=value`.
pub open spec fn spec_pair_text(p: (Seq<char>, Seq<char>)) -> Seq<char> {
    p.0 + seq!['='] + p.1
}

/// What encoding an attribute sequence yields: the pair texts joined
/// with `;`.
pub open spec fn spec_encode(m: Seq<(Seq<char>, Seq<char>)>) -> Seq<char>
    decreases m.len(),
{
    if m.len() == 0 {
        Seq::empty()
    } else if m.len() == 1 {
        spec_pair_text(m[0])
    } else {
        spec_encode(m.drop_last()) + seq![';'] + spec_pair_text(m.last())
    }
}

/// The value of the first pair with the given key, if any.
pub open spec fn spec_lookup(m: Seq<(Seq<char>, Seq<char>)>, key: Seq<char>) -> Option<
    Seq<char>,
>
    decreases m.len(),
{
    if m.len() == 0 {
        None
    } else if m[0].0 == key {
        Some(m[0].1)
    } else {
        spec_lookup(m.drop_first(), key)
    }
}

/// A scan that saw no match up to `i` determines the lookup result
/// from what stands at `i`.
pub proof fn lemma_lookup_scan(m: Seq<(Seq<char>, Seq<char>)>, key: Seq<char>, i: int)
    requires
        0 <= i <= m.len(),
        forall|j: int| 0 <= j < i ==> (#[trigger] m[j]).0 != key,
    ensures
        i < m.len() && m[i].0 == key ==> spec_lookup(m, key) == Some(m[i].1),
        i == m.len() ==> spec_lookup(m, key) is None,
    decreases i,
{
    if i > 0 {
        lemma_lookup_scan(m.drop_first(), key, i - 1);
        assert(forall|j: int|
            0 <= j < i - 1 ==> #[trigger] m.drop_first()[j] == m[j + 1]);
        if i < m.len() {
            assert(m.drop_first()[i - 1] == m[i]);
        }
    }
}

/// A key the codec can carry faithfully: free of `;` and `=`.
pub open spec fn key_clean(t: Seq<char>) -> bool {
    forall|i: int| 0 <= i < t.len() ==> t[i] != ';' && t[i] != '='
}

/// A value the codec can carry faithfully: free of `;`.
pub open spec fn value_clean(t: Seq<char>) -> bool {
    forall|i: int| 0 <= i < t.len() ==> t[i] != ';'
}

/// Every key and value of the attribute sequence is clean.
pub open spec fn style_clean(m: Seq<(Seq<char>, Seq<char>)>) -> bool {
    forall|i: int|
        0 <= i < m.len() ==> key_clean((#[trigger] m[i]).0) && value_clean(m[i].1)
}

/// Splitting a sequence that holds no separator yields it whole.
proof fn lemma_split_no_sep(s: Seq<char>, sep: char)
    requires
        forall|i: int| 0 <= i < s.len() ==> s[i] != sep,
    ensures
        spec_split(s, sep) == seq![s],
    decreases s.len(),
{
    if s.len() == 0 {
        assert(spec_split(s, sep) =~~= seq![s]);
    } else {
        lemma_split_no_sep(s.drop_last(), sep);
        assert(s.drop_last().push(s.last()) =~= s);
        assert(spec_split(s, sep) =~~= seq![s]);
    }
}

/// Appending the separator appends an empty segment to the split.
proof fn lemma_split_append_sep(x: Seq<char>, sep: char)
    ensures
        spec_split(x + seq![sep], sep) == spec_split(x, sep).push(Seq::empty()),
{
    let t = x + seq![sep];
    assert(t.drop_last() =~= x);
    assert(t.last() == sep);
}

/// Appending separator-free text extends the last segment of the
/// split.
proof fn lemma_split_append_no_sep(x: Seq<char>, t: Seq<char>, sep: char)
    requires
        forall|i: int| 0 <= i < t.len() ==> t[i] != sep,
    ensures
        ({
            let sp = spec_split(x, sep);
            spec_split(x + t, sep) == sp.update(sp.len() - 1, sp.last() + t)
        }),
    decreases t.len(),
{
    let sp = spec_split(x, sep);
    lemma_split_min_len(x, sep);
    if t.len() == 0 {
        assert(x + t =~= x);
        assert(sp.last() + t =~= sp.last());
        assert(spec_split(x + t, sep) =~= sp.update(sp.len() - 1, sp.last() + t));
    } else {
        lemma_split_append_no_sep(x, t.drop_last(), sep);
        let u = x + t.drop_last();
        assert((x + t).drop_last() =~= u);
        assert((x + t).last() == t.last());
        let spu = spec_split(u, sep);
        assert((sp.last() + t.drop_last()).push(t.last()) =~= sp.last() + t);
        assert(spec_split(x + t, sep) =~= sp.update(sp.len() - 1, sp.last() + t));
    }
}

/// Reading back the text of one pair with a clean key recovers the
/// pair.
proof fn lemma_pair_text_round(k: Seq<char>, v: Seq<char>)
    requires
        key_clean(k),
    ensures
        spec_pair_of(spec_pair_text((k, v))) == Some((k, v)),
{
    let s = spec_pair_text((k, v));
    lemma_find_char(s, '=');
    assert(s[k.len() as int] == '=');
    assert(s.contains('='));
    assert(forall|j: int| 0 <= j < k.len() ==> #[trigger] s[j] == k[j]);
    let f = find_char(s, '=');
    assert(f == k.len());
    assert(s.take(f) =~= k);
    assert(s.skip(f + 1) =~= v);
}

/// Round trip of the codec: decoding an encoded attribute sequence
/// yields the sequence back, provided every key is free of `;` and
/// `=` and every value is free of `;`.
pub proof fn lemma_style_round_trip(m: Seq<(Seq<char>, Seq<char>)>)
    requires
        style_clean(m),
    ensures
        spec_decode(spec_encode(m)) == m,
    decreases m.len(),
{
    if m.len() == 0 {
        assert(!Seq::<char>::empty().contains('='));
        let sp0 = spec_split(Seq::<char>::empty(), ';');
        assert(sp0 == seq![Seq::<char>::empty()]);
        assert(sp0.drop_last() =~= Seq::<Seq<char>>::empty());
        assert(spec_pairs_of(Seq::<Seq<char>>::empty()) == Seq::<(
            Seq<char>,
            Seq<char>,
        )>::empty());
        assert(spec_pair_of(sp0.last()) is None);
        assert(spec_pairs_of(sp0) =~= Seq::<(Seq<char>, Seq<char>)>::empty());
        assert(spec_decode(spec_encode(m)) =~= m);
    } else if m.len() == 1 {
        let k = m[0].0;
        let v = m[0].1;
        let s = spec_pair_text(m[0]);
        assert(key_clean(k) && value_clean(v));
        assert(forall|i: int| 0 <= i < s.len() ==> #[trigger] s[i] != ';') by {
            assert(forall|j: int| 0 <= j < k.len() ==> #[trigger] s[j] == k[j]);
            assert(forall|j: int|
                k.len() + 1 <= j < s.len() ==> #[trigger] s[j] == v[j - k.len() - 1]);
        }
        lemma_split_no_sep(s, ';');
        lemma_pair_text_round(k, v);
        let sp = spec_split(s, ';');
        assert(sp.drop_last() =~= Seq::<Seq<char>>::empty());
        assert(spec_pairs_of(Seq::<Seq<char>>::empty()) == Seq::<(
            Seq<char>,
            Seq<char>,
        )>::empty());
        assert(sp.last() == s);
        assert(spec_pairs_of(sp) =~= seq![(k, v)]);
        assert(m =~= seq![(k, v)]);
        assert(spec_decode(spec_encode(m)) =~= m);
    } else {
        assert(style_clean(m.drop_last())) by {
            assert(forall|i: int|
                0 <= i < m.len() - 1 ==> #[trigger] m.drop_last()[i] == m[i]);
        }
        lemma_style_round_trip(m.drop_last());
        let a = spec_encode(m.drop_last());
        let p = m.last();
        let k = p.0;
        let v = p.1;
        let b = spec_pair_text(p);
        assert(key_clean(k) && value_clean(v));
        assert(forall|i: int| 0 <= i < b.len() ==> #[trigger] b[i] != ';') by {
            assert(forall|j: int| 0 <= j < k.len() ==> #[trigger] b[j] == k[j]);
            assert(forall|j: int|
                k.len() + 1 <= j < b.len() ==> #[trigger] b[j] == v[j - k.len() - 1]);
        }
        lemma_split_append_sep(a, ';');
        lemma_split_append_no_sep(a + seq![';'], b, ';');
        let sp = spec_split(a, ';');
        lemma_split_min_len(a, ';');
        assert(Seq::<char>::empty() + b =~= b);
        assert(a + seq![';'] + b =~= (a + seq![';']) + b);
        assert(spec_split(a + seq![';'] + b, ';') =~= sp.push(b));
        lemma_pair_text_round(k, v);
        assert(sp.push(b).drop_last() =~= sp);
        assert(spec_pairs_of(sp.push(b)) == spec_pairs_of(sp).push((k, v)));
        assert(spec_decode(spec_encode(m)) =~= m);
    }
}

/// An ordered mapping from style attribute names to string values,
/// kept in insertion order.
#[derive(Clone, Debug)]
pub struct StyleMap {
    pub pairs: Vec<(String, String)>,
}

impl View for StyleMap {
    type V = Seq<(Seq<char>, Seq<char>)>;

    open spec fn view(&self) -> Seq<(Seq<char>, Seq<char>)> {
        self.pairs.deep_view()
    }
}

impl StyleMap {
    /// The empty mapping.
    pub fn new() -> (m: StyleMap)
        ensures
            m@ == Seq::<(Seq<char>, Seq<char>)>::empty(),
    {
        let m = StyleMap { pairs: Vec::new() };
        proof {
            assert(m@ =~= Seq::<(Seq<char>, Seq<char>)>::empty());
        }
        m
    }

    /// Appends one attribute, keeping insertion order.
    pub fn insert(&mut self, key: &str, value: &str)
        ensures
            final(self)@ == old(self)@.push((key@, value@)),
    {
        let pair: (String, String) = (String::from_str(key), String::from_str(value));
        self.pairs.push(pair);
        proof {
            assert(self@ =~= old(self)@.push((key@, value@)));
        }
    }

    /// The number of attributes.
    pub fn len(&self) -> (n: usize)
        ensures
            n == self@.len(),
    {
        self.pairs.len()
    }

    /// The value of the first attribute named `key`, if any.
    pub fn get<'a>(&'a self, key: &str) -> (r: Option<&'a String>)
        ensures
            match r {
                Some(v) => spec_lookup(self@, key@) == Some(v@),
                None => spec_lookup(self@, key@) is None,
            },
    {
        let n: usize = self.pairs.len();
        let mut i: usize = 0;
        while i < n
            invariant
                n == self.pairs.len(),
                i <= n,
                forall|j: int| 0 <= j < i ==> (#[trigger] self@[j]).0 != key@,
            decreases n - i,
        {
            if str_equal(self.pairs[i].0.as_str(), key) {
                proof {
                    lemma_lookup_scan(self@, key@, i as int);
                }
                return Some(&self.pairs[i].1);
            }
            i = i + 1;
        }
        proof {
            lemma_lookup_scan(self@, key@, n as int);
        }
        None
    }

    /// Encodes the mapping as `key=value` pairs joined with `;`.
    pub fn encode(&self) -> (r: String)
        ensures
            r@ == spec_encode(self@),
    {
        let n: usize = self.pairs.len();
        if n == 0 {
            return String::new();
        }
        let mut r: String = String::from_str(self.pairs[0].0.as_str());
        proof {
            reveal_strlit("=");
            reveal_strlit(";");
        }
        r.append("=");
        r.append(self.pairs[0].1.as_str());
        proof {
            assert(r@ =~= spec_pair_text(self@[0]));
            assert(self@.take(1)[0] == self@[0]);
            assert(r@ == spec_encode(self@.take(1)));
        }
        let mut i: usize = 1;
        while i < n
            invariant
                n == self.pairs.len(),
                1 <= i <= n,
                r@ == spec_encode(self@.take(i as int)),
            decreases n - i,
        {
            proof {
                reveal_strlit("=");
                reveal_strlit(";");
            }
            r.append(";");
            r.append(self.pairs[i].0.as_str());
            r.append("=");
            r.append(self.pairs[i].1.as_str());
            proof {
                let t = self@.take(i as int + 1);
                assert(t.drop_last() =~= self@.take(i as int));
                assert(t.last() == self@[i as int]);
                assert(r@ =~= spec_encode(self@.take(i as int)) + seq![';'] + spec_pair_text(
                    self@[i as int],
                ));
            }
            i = i + 1;
        }
        proof {
            assert(self@.take(n as int) =~= self@);
        }
        r
    }

    /// Decodes a semicolon-delimited `key=value` string. Segments
    /// without `=` are dropped; nothing is an error here.
    pub fn decode(s: &str) -> (m: StyleMap)
        ensures
            m@ == spec_decode(s@),
    {
        let n: usize = s.unicode_len();
        let mut m = StyleMap::new();
        let mut seg_start: usize = 0;
        let mut i: usize = 0;
        let ghost mut done: Seq<Seq<char>> = Seq::empty();
        proof {
            assert(s@.take(0) =~= Seq::<char>::empty());
            assert(s@.subrange(0, 0) =~= Seq::<char>::empty());
            assert(spec_split(s@.take(0), ';') =~= done.push(s@.subrange(0, 0)));
        }
        while i < n
            invariant
                n == s@.len(),
                seg_start <= i <= n,
                spec_split(s@.take(i as int), ';') == done.push(
                    s@.subrange(seg_start as int, i as int),
                ),
                m@ == spec_pairs_of(done),
            decreases n - i,
        {
            let c: char = s.get_char(i);
            if c == ';' {
                push_segment(&mut m, s, seg_start, i);
                proof {
                    let seg = s@.subrange(seg_start as int, i as int);
                    assert(done.push(seg).drop_last() =~= done);
                    assert(m@ == spec_pairs_of(done.push(seg)));
                    done = done.push(seg);
                    let t = s@.take(i as int + 1);
                    assert(t.drop_last() =~= s@.take(i as int));
                    assert(t.last() == ';');
                    assert(spec_split(t, ';') == spec_split(s@.take(i as int), ';').push(
                        Seq::empty(),
                    ));
                    assert(s@.subrange(i as int + 1, i as int + 1) =~= Seq::<char>::empty());
                }
                seg_start = i + 1;
            } else {
                proof {
                    let t = s@.take(i as int + 1);
                    assert(t.drop_last() =~= s@.take(i as int));
                    assert(t.last() == s@[i as int]);
                    let sp = spec_split(s@.take(i as int), ';');
                    lemma_split_min_len(s@.take(i as int), ';');
                    assert(sp.last() == s@.subrange(seg_start as int, i as int));
                    assert(s@.subrange(seg_start as int, i as int).push(s@[i as int]) =~= s@
                        .subrange(seg_start as int, i as int + 1));
                    assert(spec_split(t, ';') =~= done.push(
                        s@.subrange(seg_start as int, i as int + 1),
                    ));
                }
            }
            i = i + 1;
        }
        push_segment(&mut m, s, seg_start, n);
        proof {
            assert(s@.take(n as int) =~= s@);
            let seg = s@.subrange(seg_start as int, n as int);
            assert(done.push(seg).drop_last() =~= done);
            assert(m@ == spec_pairs_of(done.push(seg)));
        }
        m
    }
}

/// Reads the segment `s[seg_start..end]` and appends its `key=value`
/// pair to the mapping, or nothing when the segment has no `=`.
fn push_segment(m: &mut StyleMap, s: &str, seg_start: usize, end: usize)
    requires
        seg_start <= end <= s@.len(),
    ensures
        final(m)@ == match spec_pair_of(s@.subrange(seg_start as int, end as int)) {
            Some(p) => old(m)@.push(p),
            None => old(m)@,
        },
{
    let ghost seg = s@.subrange(seg_start as int, end as int);
    let mut e: usize = seg_start;
    while e < end
        invariant
            seg_start <= e <= end <= s@.len(),
            seg == s@.subrange(seg_start as int, end as int),
            m@ == old(m)@,
            forall|k: int| seg_start <= k < e ==> s@[k] != '=',
        decreases end - e,
    {
        if s.get_char(e) == '=' {
            proof {
                lemma_find_char(seg, '=');
                assert(seg[e - seg_start] == '=');
                assert(seg.contains('='));
                assert(forall|k: int|
                    0 <= k < e - seg_start ==> #[trigger] seg[k] == s@[k + seg_start]);
                assert(find_char(seg, '=') == e - seg_start);
            }
            let key: &str = s.substring_char(seg_start, e);
            let value: &str = s.substring_char(e + 1, end);
            m.insert(key, value);
            proof {
                let j = find_char(seg, '=');
                assert(key@ =~= seg.take(j));
                assert(value@ =~= seg.skip(j + 1));
            }
            return;
        }
        e = e + 1;
    }
    proof {
        assert(forall|k: int| 0 <= k < seg.len() ==> #[trigger] seg[k] == s@[k + seg_start]);
        assert(!seg.contains('='));
    }
}

} // verus!
