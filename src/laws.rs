use vstd::prelude::*;

use crate::search::{
    contains_seq, lines, lines_from, lower_of, matching_lines, matching_lines_ignoring_case,
    occurs_at,
};

verus! {

/// A filter whose predicate holds of every element keeps the sequence whole.
proof fn lemma_filter_keeps_all(s: Seq<Seq<char>>, pred: spec_fn(Seq<char>) -> bool)
    requires
        forall|i: int| 0 <= i < s.len() ==> pred(#[trigger] s[i]),
    ensures
        s.filter(pred) == s,
    decreases s.len(),
{
    reveal(Seq::filter);
    if s.len() > 0 {
        lemma_filter_keeps_all(s.drop_last(), pred);
        assert(s.drop_last().push(s.last()) =~= s);
    }
}

/// Mapping every character the same way keeps a contiguous part a contiguous part.
proof fn lemma_contains_mapped(text: Seq<char>, pattern: Seq<char>, f: spec_fn(char) -> char)
    requires
        contains_seq(text, pattern),
    ensures
        contains_seq(text.map_values(f), pattern.map_values(f)),
{
    let i = choose|i: int| occurs_at(text, pattern, i);
    assert forall|x: int| 0 <= x < pattern.len() implies text[i + x] == pattern[x] by {
        assert(text.subrange(i, i + pattern.len())[x] == pattern[x]);
    }
    assert(text.map_values(f).subrange(i, i + pattern.len()) =~= pattern.map_values(f));
    assert(occurs_at(text.map_values(f), pattern.map_values(f), i));
}

/// Searching an empty text finds nothing, whatever the query.
pub proof fn empty_text_has_no_matches(query: Seq<char>)
    ensures
        matching_lines(query, Seq::<char>::empty()) == Seq::<Seq<char>>::empty(),
{
    reveal(Seq::filter);
    assert(lines(Seq::<char>::empty()) =~= Seq::<Seq<char>>::empty());
}

/// An empty query matches every line: the search gives back all lines of the
/// text, in order.
pub proof fn empty_query_matches_every_line(text: Seq<char>)
    ensures
        matching_lines(Seq::<char>::empty(), text) == lines(text),
{
    let pred = |l: Seq<char>| contains_seq(l, Seq::<char>::empty());
    assert forall|i: int| 0 <= i < lines(text).len() implies pred(#[trigger] lines(text)[i]) by {
        let l = lines(text)[i];
        assert(l.subrange(0, 0) =~= Seq::<char>::empty());
        assert(occurs_at(l, Seq::<char>::empty(), 0));
    }
    lemma_filter_keeps_all(lines(text), pred);
}

/// Both searches depend on their query and text alone: asked twice with the
/// same inputs, each gives the same lines.
pub proof fn searches_are_repeatable(
    query: Seq<char>,
    text: Seq<char>,
    query_again: Seq<char>,
    text_again: Seq<char>,
)
    requires
        query_again == query,
        text_again == text,
    ensures
        matching_lines(query_again, text_again) == matching_lines(query, text),
        matching_lines_ignoring_case(query_again, text_again) == matching_lines_ignoring_case(
            query,
            text,
        ),
{
}

/// Where lowercasing turns each character into another on its own (the same
/// way in the query and in every line), each line that the case-sensitive
/// search finds is found when case is ignored too.
pub proof fn case_sensitive_matches_are_kept(query: Seq<char>, text: Seq<char>)
    requires
        exists|f: spec_fn(char) -> char|
            {
                &&& lower_of(query) == query.map_values(f)
                &&& forall|l: Seq<char>| #[trigger]
                    lines(text).contains(l) ==> lower_of(l) == l.map_values(f)
            },
    ensures
        forall|i: int|
            0 <= i < matching_lines(query, text).len() ==> matching_lines_ignoring_case(
                query,
                text,
            ).contains(#[trigger] matching_lines(query, text)[i]),
{
    let f = choose|f: spec_fn(char) -> char|
        {
            &&& lower_of(query) == query.map_values(f)
            &&& forall|l: Seq<char>| #[trigger]
                lines(text).contains(l) ==> lower_of(l) == l.map_values(f)
        };
    let all = lines(text);
    let exact = |l: Seq<char>| contains_seq(l, query);
    let folded = |l: Seq<char>| contains_seq(lower_of(l), lower_of(query));
    assert forall|i: int| 0 <= i < all.filter(exact).len() implies all.filter(folded).contains(
        #[trigger] all.filter(exact)[i],
    ) by {
        let l = all.filter(exact)[i];
        all.lemma_filter_pred(exact, i);
        assert(all.filter(exact).contains(l));
        all.lemma_filter_contains_rev(exact, l);
        let j = choose|j: int| 0 <= j < all.len() && all[j] == l;
        lemma_contains_mapped(l, query, f);
        all.lemma_filter_contains(folded, j);
    }
}

} // verus!
