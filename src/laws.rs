use vstd::prelude::*;

use crate::display::{render_line, wrapped};
use crate::matcher::{
    buffer_outcome, greedy_from, lemma_greedy_from, lemma_line_spans_fit, line_spans,
    match_starts, matched_lines, occurs_at, spans_fit, span_at, MatchResult, Outcome,
};
use crate::text::{lines_of, pieces};

verus! {

/// Scanning is deterministic: two results of scanning the same buffer for the
/// same pattern are the same.
pub proof fn lemma_scan_deterministic(
    pat: Seq<char>,
    buf: Seq<char>,
    r1: MatchResult,
    r2: MatchResult,
)
    requires
        r1@ == buffer_outcome(pat, buf),
        r2@ == buffer_outcome(pat, buf),
    ensures
        r1@ == r2@,
{
}

/// An empty buffer has no lines, so nothing is found in it.
pub proof fn lemma_empty_buffer_not_found(pat: Seq<char>)
    ensures
        buffer_outcome(pat, Seq::empty()) == Outcome::NotFound,
{
    let e = Seq::<char>::empty();
    assert(pieces(e) == seq![Seq::<char>::empty()]);
    assert(lines_of(e) =~= Seq::<Seq<char>>::empty());
    assert(matched_lines(pat, lines_of(e)) == Seq::<crate::matcher::LineView>::empty());
}

/// A line made of exactly a non-empty pattern has one span, over all of it.
pub proof fn lemma_whole_line_one_span(pat: Seq<char>)
    requires
        pat.len() > 0,
    ensures
        line_spans(pat, pat) == seq![(0int, pat.len() - 1)],
{
    assert(pat.subrange(0, pat.len() as int) =~= pat);
    assert(occurs_at(pat, pat, 0));
    assert(greedy_from(pat, pat, pat.len() as int) == Seq::<int>::empty());
    assert(match_starts(pat, pat) =~= seq![0int]);
    assert(line_spans(pat, pat) =~= seq![(0int, pat.len() - 1)]);
}

/// The spans of a line each cover as many characters as the pattern, lie in
/// the line, and come in strictly increasing order without overlapping.
pub proof fn lemma_spans_ordered(line: Seq<char>, pat: Seq<char>)
    ensures
        forall|k: int|
            0 <= k < line_spans(line, pat).len() ==> #[trigger] line_spans(line, pat)[k].1
                - line_spans(line, pat)[k].0 + 1 == pat.len(),
        spans_fit(line_spans(line, pat), line.len() as int),
        forall|a: int, b: int|
            0 <= a < b < line_spans(line, pat).len() ==> #[trigger] line_spans(line, pat)[a].1
                < #[trigger] line_spans(line, pat)[b].0,
{
    let spans = line_spans(line, pat);
    lemma_line_spans_fit(line, pat);
    assert forall|k: int| 0 <= k < spans.len() implies #[trigger] spans[k].1 - spans[k].0 + 1
        == pat.len() by {
        assert(spans[k] == span_at(pat, match_starts(line, pat)[k]));
    }
    assert forall|a: int, b: int| 0 <= a < b < spans.len() implies #[trigger] spans[a].1
        < #[trigger] spans[b].0 by {
        lemma_fit_ordered(spans, line.len() as int, a, b);
    }
}

proof fn lemma_fit_ordered(spans: Seq<(int, int)>, len: int, a: int, b: int)
    requires
        spans_fit(spans, len),
        0 <= a < b < spans.len(),
    ensures
        spans[a].1 < spans[b].0,
    decreases b - a,
{
    if a + 1 < b {
        lemma_fit_ordered(spans, len, a, b - 1);
        assert(spans[b - 1].0 <= spans[b - 1].1);
        assert(spans[b - 1].1 < spans[b].0);
    }
}

/// The spans of a line are exactly its greedy occurrences: each span is an
/// occurrence of the pattern, and each occurrence either is a span or starts
/// inside an earlier span (an overlapping occurrence, which is skipped).
pub proof fn lemma_spans_greedy(line: Seq<char>, pat: Seq<char>)
    requires
        pat.len() > 0,
    ensures
        forall|k: int|
            0 <= k < line_spans(line, pat).len() ==> occurs_at(
                line,
                pat,
                #[trigger] line_spans(line, pat)[k].0,
            ),
        forall|p: int|
            #[trigger] occurs_at(line, pat, p) ==> (exists|k: int|
                0 <= k < line_spans(line, pat).len() && #[trigger] line_spans(line, pat)[k].0
                    == p) || (exists|k: int|
                0 <= k < line_spans(line, pat).len() && #[trigger] line_spans(line, pat)[k].0 < p
                    <= line_spans(line, pat)[k].1),
{
    let g = match_starts(line, pat);
    let spans = line_spans(line, pat);
    lemma_greedy_from(line, pat, 0);
    assert forall|k: int| 0 <= k < spans.len() implies occurs_at(
        line,
        pat,
        #[trigger] spans[k].0,
    ) by {
        assert(spans[k] == span_at(pat, g[k]));
    }
    assert forall|p: int| #[trigger] occurs_at(line, pat, p) implies (exists|k: int|
        0 <= k < spans.len() && #[trigger] spans[k].0 == p) || (exists|k: int|
        0 <= k < spans.len() && #[trigger] spans[k].0 < p <= spans[k].1) by {
        lemma_greedy_covers(line, pat, 0, p);
        if exists|i: int| 0 <= i < g.len() && #[trigger] g[i] == p {
            let i = choose|i: int| 0 <= i < g.len() && #[trigger] g[i] == p;
            assert(spans[i] == span_at(pat, g[i]));
            assert(0 <= i < spans.len() && spans[i].0 == p);
        } else {
            let i = choose|i: int| 0 <= i < g.len() && #[trigger] g[i] < p < g[i] + pat.len();
            assert(spans[i] == span_at(pat, g[i]));
            assert(0 <= i < spans.len() && spans[i].0 < p <= spans[i].1);
        }
    }
}

proof fn lemma_greedy_covers(line: Seq<char>, pat: Seq<char>, k: int, p: int)
    requires
        pat.len() > 0,
        0 <= k <= p,
        occurs_at(line, pat, p),
    ensures
        (exists|i: int|
            0 <= i < greedy_from(line, pat, k).len() && #[trigger] greedy_from(line, pat, k)[i]
                == p) || (exists|i: int|
            0 <= i < greedy_from(line, pat, k).len() && #[trigger] greedy_from(line, pat, k)[i] < p
                < greedy_from(line, pat, k)[i] + pat.len()),
    decreases line.len() - k,
{
    let g = greedy_from(line, pat, k);
    if occurs_at(line, pat, k) {
        let rest = greedy_from(line, pat, k + pat.len());
        assert(g == seq![k] + rest);
        assert(g[0] == k);
        if p >= k + pat.len() {
            lemma_greedy_covers(line, pat, k + pat.len(), p);
            if exists|i: int| 0 <= i < rest.len() && #[trigger] rest[i] == p {
                let i = choose|i: int| 0 <= i < rest.len() && #[trigger] rest[i] == p;
                assert(g[i + 1] == rest[i]);
            } else {
                let i = choose|i: int|
                    0 <= i < rest.len() && #[trigger] rest[i] < p < rest[i] + pat.len();
                assert(g[i + 1] == rest[i]);
            }
        }
    } else {
        assert(g == greedy_from(line, pat, k + 1));
        assert(p != k);
        lemma_greedy_covers(line, pat, k + 1, p);
    }
}

/// The line with every span wrapped and nothing between or around them.
pub open spec fn only_wrapped(line: Seq<char>, spans: Seq<(int, int)>) -> Seq<char>
    decreases spans.len(),
{
    if spans.len() == 0 {
        Seq::empty()
    } else {
        let sp = spans.last();
        only_wrapped(line, spans.drop_last()) + seq!['<'] + line.subrange(sp.0, sp.1 + 1) + seq![
            '>',
        ]
    }
}

/// The spans cover all of a line of `len` characters, each starting right
/// after the previous one.
pub open spec fn spans_cover(spans: Seq<(int, int)>, len: int) -> bool {
    &&& spans.len() > 0
    &&& spans[0].0 == 0
    &&& spans.last().1 == len - 1
    &&& forall|k: int| 0 < k < spans.len() ==> #[trigger] spans[k].0 == spans[k - 1].1 + 1
}

/// Rendering a line whose spans cover all of it leaves no character outside
/// the markers: the result is the wrapped spans and nothing else.
pub proof fn lemma_render_covering(line: Seq<char>, spans: Seq<(int, int)>)
    requires
        spans_fit(spans, line.len() as int),
        spans_cover(spans, line.len() as int),
    ensures
        render_line(line, spans) == only_wrapped(line, spans),
{
    lemma_wrapped_covering(line, spans);
    assert(line.subrange(line.len() as int, line.len() as int) =~= Seq::<char>::empty());
    assert(render_line(line, spans) =~= only_wrapped(line, spans));
}

proof fn lemma_wrapped_covering(line: Seq<char>, spans: Seq<(int, int)>)
    requires
        spans_fit(spans, line.len() as int),
        spans.len() > 0 ==> spans[0].0 == 0,
        forall|k: int| 0 < k < spans.len() ==> #[trigger] spans[k].0 == spans[k - 1].1 + 1,
    ensures
        wrapped(line, spans) == only_wrapped(line, spans),
    decreases spans.len(),
{
    if spans.len() > 0 {
        let prev = spans.drop_last();
        let sp = spans.last();
        assert forall|k: int| 0 < k < prev.len() implies #[trigger] prev[k].0 == prev[k - 1].1
            + 1 by {
            assert(prev[k] == spans[k]);
        }
        assert(spans_fit(prev, line.len() as int)) by {
            assert forall|k: int| 0 < k < prev.len() implies prev[k - 1].1 < #[trigger] prev[k].0 by {
                assert(prev[k] == spans[k]);
            }
            assert forall|k: int| 0 <= k < prev.len() implies 0 <= #[trigger] prev[k].0
                <= prev[k].1 < line.len() by {
                assert(prev[k] == spans[k]);
            }
        }
        lemma_wrapped_covering(line, prev);
        if prev.len() > 0 {
            assert(spans[spans.len() - 1].0 == spans[spans.len() - 2].1 + 1);
        }
        assert(line.subrange(crate::display::next_free(prev), sp.0) =~= Seq::<char>::empty());
        assert(wrapped(line, spans) =~= only_wrapped(line, spans));
    }
}

} // verus!
