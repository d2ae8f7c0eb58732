use vstd::prelude::*;
use vstd::slice::slice_subrange;
use vstd::string::*;

verus! {

/// `pattern` stands in `text` starting at position `i`.
pub open spec fn occurs_at(text: Seq<char>, pattern: Seq<char>, i: int) -> bool {
    0 <= i && i + pattern.len() <= text.len() && text.subrange(i, i + pattern.len()) == pattern
}

/// `pattern` is a contiguous part of `text`.
pub open spec fn contains_seq(text: Seq<char>, pattern: Seq<char>) -> bool {
    exists|i: int| occurs_at(text, pattern, i)
}

/// Where the line that begins at `start` ends: the position of the next '\n',
/// or the end of the text.
pub open spec fn line_end(s: Seq<char>, start: int) -> int
    decreases s.len() - start,
{
    if !(0 <= start < s.len()) || s[start] == '\n' {
        start
    } else {
        line_end(s, start + 1)
    }
}

/// A line that a '\n' ended loses a '\r' just before that '\n'.
pub open spec fn strip_cr(line: Seq<char>) -> Seq<char> {
    if line.len() > 0 && line.last() == '\r' {
        line.drop_last()
    } else {
        line
    }
}

/// The lines of `s` from position `start` on.
pub open spec fn lines_from(s: Seq<char>, start: int) -> Seq<Seq<char>>
    decreases s.len() - start,
    via lines_from_decreases
{
    if !(0 <= start < s.len()) {
        seq![]
    } else {
        let e = line_end(s, start);
        if e < s.len() {
            seq![strip_cr(s.subrange(start, e))] + lines_from(s, e + 1)
        } else {
            seq![s.subrange(start, s.len() as int)]
        }
    }
}

#[via_fn]
proof fn lines_from_decreases(s: Seq<char>, start: int) {
    if 0 <= start < s.len() {
        lemma_line_end_bounds(s, start);
    }
}

/// The lines of a text: split at each '\n', with a '\r' right before a '\n'
/// dropped too; a last line without '\n' still counts, and no empty line
/// follows a final '\n'.
pub open spec fn lines(s: Seq<char>) -> Seq<Seq<char>> {
    lines_from(s, 0)
}

/// The lines of `text` that contain `query`, in order.
pub open spec fn matching_lines(query: Seq<char>, text: Seq<char>) -> Seq<Seq<char>> {
    lines(text).filter(|l: Seq<char>| contains_seq(l, query))
}

/// What lowercasing a string gives, character sequence to character sequence.
pub uninterp spec fn lower_of(s: Seq<char>) -> Seq<char>;

/// The lines of `text` whose lowercase form contains the lowercase form of `query`,
/// in order.
pub open spec fn matching_lines_ignoring_case(query: Seq<char>, text: Seq<char>) -> Seq<
    Seq<char>,
> {
    lines(text).filter(|l: Seq<char>| contains_seq(lower_of(l), lower_of(query)))
}

/// The views of a list of borrowed lines.
pub open spec fn views_of(r: Seq<&str>) -> Seq<Seq<char>> {
    r.map_values(|l: &str| l@)
}

/// A line ends at or after its start, within the text, at a '\n' if anywhere
/// before the end, and holds no '\n' itself.
proof fn lemma_line_end_bounds(s: Seq<char>, start: int)
    requires
        0 <= start <= s.len(),
    ensures
        start <= line_end(s, start) <= s.len(),
        line_end(s, start) < s.len() ==> s[line_end(s, start)] == '\n',
        forall|k: int| start <= k < line_end(s, start) ==> s[k] != '\n',
    decreases s.len() - start,
{
    if start < s.len() && s[start] != '\n' {
        lemma_line_end_bounds(s, start + 1);
    }
}

/// Relies on `str::to_lowercase`: the lowercase form of the characters depends
/// on those characters alone.
#[verifier::external_body]
fn to_lower(s: &[char]) -> (r: Vec<char>)
    ensures
        r@ == lower_of(s@),
{
    let text: String = s.iter().collect();
    text.to_lowercase().chars().collect()
}

/// The characters of `s`, in order.
fn chars_of(s: &str) -> (r: Vec<char>)
    ensures
        r@ == s@,
{
    let mut out: Vec<char> = Vec::new();
    for c in it: s.chars()
        invariant
            out@ == it.seq().take(it.index() as int),
    {
        out.push(c);
    }
    out
}

/// Whether `pattern` stands in `text` at position `i`.
fn matches_at(text: &[char], pattern: &[char], i: usize) -> (r: bool)
    requires
        i + pattern@.len() <= text@.len(),
    ensures
        r == occurs_at(text@, pattern@, i as int),
{
    let m = pattern.len();
    let n = text.len();
    let mut k: usize = 0;
    while k < m
        invariant
            m == pattern@.len(),
            n == text@.len(),
            k <= m,
            i + m <= n,
            forall|x: int| 0 <= x < k ==> text@[i + x] == pattern@[x],
        decreases m - k,
    {
        if text[i + k] != pattern[k] {
            proof {
                let sub = text@.subrange(i as int, i + m);
                assert(sub[k as int] != pattern@[k as int]);
            }
            return false;
        }
        k = k + 1;
    }
    assert(text@.subrange(i as int, i + m) =~= pattern@);
    true
}

/// Whether `pattern` is a contiguous part of `text`; an empty pattern is part
/// of every text.
pub fn contains_chars(text: &[char], pattern: &[char]) -> (r: bool)
    ensures
        r == contains_seq(text@, pattern@),
{
    let m = pattern.len();
    let n = text.len();
    if m == 0 {
        assert(text@.subrange(0, 0) =~= pattern@);
        assert(occurs_at(text@, pattern@, 0));
        return true;
    }
    let mut i: usize = 0;
    while n - i >= m
        invariant
            m == pattern@.len(),
            n == text@.len(),
            m > 0,
            i <= n,
            forall|k: int| 0 <= k < i ==> !occurs_at(text@, pattern@, k),
        decreases n - i,
    {
        if matches_at(text, pattern, i) {
            return true;
        }
        i = i + 1;
    }
    assert forall|k: int| !occurs_at(text@, pattern@, k) by {
        if k >= i {
            assert(k + m > n);
        }
    }
    false
}

/// The span of each line of `text`, in order: line `i` is `text[start..end]`.
fn line_spans(text: &[char]) -> (r: Vec<(usize, usize)>)
    ensures
        r@.len() == lines(text@).len(),
        forall|i: int|
            #![trigger r@[i]]
            0 <= i < r@.len() ==> {
                &&& r@[i].0 <= r@[i].1 <= text@.len()
                &&& text@.subrange(r@[i].0 as int, r@[i].1 as int) == lines(text@)[i]
            },
{
    let n = text.len();
    let mut spans: Vec<(usize, usize)> = Vec::new();
    let ghost mut done: Seq<Seq<char>> = seq![];
    let mut start: usize = 0;
    let mut j: usize = 0;
    while j < n
        invariant
            n == text@.len(),
            start <= j <= n,
            line_end(text@, start as int) == line_end(text@, j as int),
            lines(text@) == done + lines_from(text@, start as int),
            spans@.len() == done.len(),
            forall|i: int|
                #![trigger spans@[i]]
                0 <= i < spans@.len() ==> {
                    &&& spans@[i].0 <= spans@[i].1 <= n
                    &&& text@.subrange(spans@[i].0 as int, spans@[i].1 as int) == done[i]
                },
        decreases n - j,
    {
        if text[j] == '\n' {
            let end = if j > start && text[j - 1] == '\r' {
                j - 1
            } else {
                j
            };
            proof {
                let line = text@.subrange(start as int, j as int);
                assert(line_end(text@, start as int) == j);
                assert(text@.subrange(start as int, end as int) =~= strip_cr(line));
                let rest = lines_from(text@, j + 1);
                assert(lines_from(text@, start as int) == seq![strip_cr(line)] + rest);
                assert(done + (seq![strip_cr(line)] + rest) =~= done.push(strip_cr(line)) + rest);
                done = done.push(strip_cr(line));
            }
            spans.push((start, end));
            start = j + 1;
        }
        j = j + 1;
    }
    if start < n {
        proof {
            assert(line_end(text@, n as int) == n);
            let line = text@.subrange(start as int, n as int);
            assert(lines_from(text@, start as int) == seq![line]);
            done = done.push(line);
        }
        spans.push((start, n));
    }
    assert(lines(text@) =~= done);
    spans
}

/// Every line of `contents` that contains `query`, in order, borrowed from
/// `contents`.
pub fn search<'a>(query: &str, contents: &'a str) -> (r: Vec<&'a str>)
    ensures
        views_of(r@) == matching_lines(query@, contents@),
{
    let q = chars_of(query);
    let text = chars_of(contents);
    let spans = line_spans(text.as_slice());
    let ghost all = lines(contents@);
    let ghost pred = |l: Seq<char>| contains_seq(l, query@);
    let mut results: Vec<&'a str> = Vec::new();
    let mut i: usize = 0;
    while i < spans.len()
        invariant
            text@ == contents@,
            q@ == query@,
            all == lines(contents@),
            pred == (|l: Seq<char>| contains_seq(l, query@)),
            spans@.len() == all.len(),
            forall|k: int|
                #![trigger spans@[k]]
                0 <= k < spans@.len() ==> {
                    &&& spans@[k].0 <= spans@[k].1 <= text@.len()
                    &&& text@.subrange(spans@[k].0 as int, spans@[k].1 as int) == all[k]
                },
            i <= spans@.len(),
            views_of(results@) == all.take(i as int).filter(pred),
        decreases spans@.len() - i,
    {
        let (lo, hi) = spans[i];
        let line = slice_subrange(text.as_slice(), lo, hi);
        assert(all.take(i + 1).drop_last() =~= all.take(i as int));
        reveal(Seq::filter);
        if contains_chars(line, q.as_slice()) {
            let piece = contents.substring_char(lo, hi);
            results.push(piece);
            assert(views_of(results@) =~= views_of(results@).drop_last().push(piece@));
        }
        assert(views_of(results@) =~= all.take(i + 1).filter(pred));
        i = i + 1;
    }
    assert(all.take(i as int) =~= all);
    results
}

/// Every line of `contents` whose lowercase form contains the lowercase form of
/// `query`, in order, borrowed from `contents` as they stand.
pub fn search_case_insensitive<'a>(query: &str, contents: &'a str) -> (r: Vec<&'a str>)
    ensures
        views_of(r@) == matching_lines_ignoring_case(query@, contents@),
{
    let q = to_lower(chars_of(query).as_slice());
    let text = chars_of(contents);
    let spans = line_spans(text.as_slice());
    let ghost all = lines(contents@);
    let ghost pred = |l: Seq<char>| contains_seq(lower_of(l), lower_of(query@));
    let mut results: Vec<&'a str> = Vec::new();
    let mut i: usize = 0;
    while i < spans.len()
        invariant
            text@ == contents@,
            q@ == lower_of(query@),
            all == lines(contents@),
            pred == (|l: Seq<char>| contains_seq(lower_of(l), lower_of(query@))),
            spans@.len() == all.len(),
            forall|k: int|
                #![trigger spans@[k]]
                0 <= k < spans@.len() ==> {
                    &&& spans@[k].0 <= spans@[k].1 <= text@.len()
                    &&& text@.subrange(spans@[k].0 as int, spans@[k].1 as int) == all[k]
                },
            i <= spans@.len(),
            views_of(results@) == all.take(i as int).filter(pred),
        decreases spans@.len() - i,
    {
        let (lo, hi) = spans[i];
        let line = to_lower(slice_subrange(text.as_slice(), lo, hi));
        assert(all.take(i + 1).drop_last() =~= all.take(i as int));
        reveal(Seq::filter);
        if contains_chars(line.as_slice(), q.as_slice()) {
            let piece = contents.substring_char(lo, hi);
            results.push(piece);
            assert(views_of(results@) =~= views_of(results@).drop_last().push(piece@));
        }
        assert(views_of(results@) =~= all.take(i + 1).filter(pred));
        i = i + 1;
    }
    assert(all.take(i as int) =~= all);
    results
}

} // verus!
