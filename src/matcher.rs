use vstd::prelude::*;

use crate::text::{chars_of, lines_of, split_lines};

verus! {

/// A literal pattern: every character stands for itself.
pub struct RegExpr {
    pattern: Vec<char>,
}

/// One occurrence of the pattern in a line: the characters at positions
/// `start_indx` to `end_indx`, both included.
#[derive(PartialEq, Debug)]
pub struct MatchInstance {
    pub start_indx: usize,
    pub end_indx: usize,
}

/// A line that holds the pattern, its number (counted from 1), and the
/// occurrences found in it, left to right.
#[derive(PartialEq, Debug)]
pub struct LineMatch {
    pub line: String,
    pub lineno: u32,
    pub matches: Vec<MatchInstance>,
}

/// The outcome of a scan.
#[derive(PartialEq, Debug)]
pub enum MatchResult {
    Found(Vec<LineMatch>),
    NotFound,
    Error(String),
}

/// What a [`LineMatch`] stands for.
pub struct LineView {
    pub line: Seq<char>,
    pub lineno: int,
    pub spans: Seq<(int, int)>,
}

/// What a [`MatchResult`] stands for.
pub enum Outcome {
    Found(Seq<LineView>),
    NotFound,
    Error(Seq<char>),
}

impl View for MatchInstance {
    type V = (int, int);

    open spec fn view(&self) -> (int, int) {
        (self.start_indx as int, self.end_indx as int)
    }
}

impl View for LineMatch {
    type V = LineView;

    open spec fn view(&self) -> LineView {
        LineView {
            line: self.line@,
            lineno: self.lineno as int,
            spans: self.matches@.map_values(|m: MatchInstance| m@),
        }
    }
}

impl View for MatchResult {
    type V = Outcome;

    open spec fn view(&self) -> Outcome {
        match self {
            MatchResult::Found(v) => Outcome::Found(v@.map_values(|l: LineMatch| l@)),
            MatchResult::NotFound => Outcome::NotFound,
            MatchResult::Error(e) => Outcome::Error(e@),
        }
    }
}

impl View for RegExpr {
    type V = Seq<char>;

    closed spec fn view(&self) -> Seq<char> {
        self.pattern@
    }
}

/// `pat` occurs in `line` starting at position `k`.
pub open spec fn occurs_at(line: Seq<char>, pat: Seq<char>, k: int) -> bool {
    0 <= k && k + pat.len() <= line.len() && line.subrange(k, k + pat.len()) == pat
}

/// The starts of the occurrences of a non-empty `pat` found from position `k`
/// on, taking each leftmost occurrence and going on after its end.
pub open spec fn greedy_from(line: Seq<char>, pat: Seq<char>, k: int) -> Seq<int>
    decreases line.len() - k,
{
    if pat.len() == 0 || k < 0 || k + pat.len() > line.len() {
        Seq::empty()
    } else if occurs_at(line, pat, k) {
        seq![k] + greedy_from(line, pat, k + pat.len())
    } else {
        greedy_from(line, pat, k + 1)
    }
}

/// The starts of the occurrences of `pat` that a scan of `line` reports. An
/// empty pattern has none.
pub open spec fn match_starts(line: Seq<char>, pat: Seq<char>) -> Seq<int> {
    greedy_from(line, pat, 0)
}

/// The span, ends included, of the occurrence of `pat` that starts at `k`.
pub open spec fn span_at(pat: Seq<char>, k: int) -> (int, int) {
    (k, k + pat.len() - 1)
}

/// The spans that a scan of `line` reports.
pub open spec fn line_spans(line: Seq<char>, pat: Seq<char>) -> Seq<(int, int)> {
    match_starts(line, pat).map_values(|k: int| span_at(pat, k))
}

/// The spans lie inside a line of `len` characters, each with its start no
/// later than its end, and each starting after the previous one ends.
pub open spec fn spans_fit(spans: Seq<(int, int)>, len: int) -> bool {
    &&& forall|k: int| 0 <= k < spans.len() ==> 0 <= #[trigger] spans[k].0 <= spans[k].1 < len
    &&& forall|k: int| 0 < k < spans.len() ==> spans[k - 1].1 < #[trigger] spans[k].0
}

/// Each start found from `k` on is at least `k` and is an occurrence, and
/// each one starts after the previous one ends.
pub proof fn lemma_greedy_from(line: Seq<char>, pat: Seq<char>, k: int)
    requires
        pat.len() > 0,
        0 <= k,
    ensures
        forall|i: int|
            0 <= i < greedy_from(line, pat, k).len() ==> k <= #[trigger] greedy_from(
                line,
                pat,
                k,
            )[i] && occurs_at(line, pat, greedy_from(line, pat, k)[i]),
        forall|i: int|
            0 < i < greedy_from(line, pat, k).len() ==> greedy_from(line, pat, k)[i - 1]
                + pat.len() <= #[trigger] greedy_from(line, pat, k)[i],
    decreases line.len() - k,
{
    if k + pat.len() > line.len() {
    } else if occurs_at(line, pat, k) {
        let g = greedy_from(line, pat, k);
        let rest = greedy_from(line, pat, k + pat.len());
        lemma_greedy_from(line, pat, k + pat.len());
        assert(g == seq![k] + rest);
        assert forall|i: int| 0 <= i < g.len() implies k <= #[trigger] g[i] && occurs_at(
            line,
            pat,
            g[i],
        ) by {
            if i > 0 {
                assert(g[i] == rest[i - 1]);
            }
        }
        assert forall|i: int| 0 < i < g.len() implies g[i - 1] + pat.len() <= #[trigger] g[i] by {
            assert(g[i] == rest[i - 1]);
            if i > 1 {
                assert(g[i - 1] == rest[i - 2]);
            }
        }
    } else {
        assert(greedy_from(line, pat, k) == greedy_from(line, pat, k + 1));
        lemma_greedy_from(line, pat, k + 1);
    }
}

/// The spans of a scan lie in the line, in order, without overlap.
pub proof fn lemma_line_spans_fit(line: Seq<char>, pat: Seq<char>)
    ensures
        spans_fit(line_spans(line, pat), line.len() as int),
{
    let g = match_starts(line, pat);
    let spans = line_spans(line, pat);
    if pat.len() > 0 {
        lemma_greedy_from(line, pat, 0);
        assert forall|k: int| 0 <= k < spans.len() implies 0 <= #[trigger] spans[k].0
            <= spans[k].1 < line.len() by {
            assert(spans[k] == span_at(pat, g[k]));
            assert(occurs_at(line, pat, g[k]));
        }
        assert forall|k: int| 0 < k < spans.len() implies spans[k - 1].1 < #[trigger] spans[k].0 by {
            assert(spans[k] == span_at(pat, g[k]));
            assert(spans[k - 1] == span_at(pat, g[k - 1]));
        }
    }
}

/// Every line that `r` reports has spans that fit it.
pub open spec fn renderable(r: MatchResult) -> bool {
    match r {
        MatchResult::Found(v) => forall|i: int|
            0 <= i < v.len() ==> spans_fit(#[trigger] v[i]@.spans, v[i]@.line.len() as int),
        _ => true,
    }
}

/// The matched lines among `lines`, in order, each numbered by its place
/// (from 1); lines without an occurrence are left out.
pub open spec fn matched_lines(pat: Seq<char>, lines: Seq<Seq<char>>) -> Seq<LineView>
    decreases lines.len(),
{
    if lines.len() == 0 {
        Seq::empty()
    } else {
        let prev = matched_lines(pat, lines.drop_last());
        let spans = line_spans(lines.last(), pat);
        if spans.len() > 0 {
            prev.push(LineView { line: lines.last(), lineno: lines.len() as int, spans })
        } else {
            prev
        }
    }
}

/// The outcome of scanning `buf` for `pat`.
pub open spec fn buffer_outcome(pat: Seq<char>, buf: Seq<char>) -> Outcome {
    let found = matched_lines(pat, lines_of(buf));
    if found.len() > 0 {
        Outcome::Found(found)
    } else {
        Outcome::NotFound
    }
}

impl MatchInstance {
    pub fn new(start_indx: usize, end_indx: usize) -> (r: Self)
        ensures
            r.start_indx == start_indx,
            r.end_indx == end_indx,
    {
        Self { start_indx, end_indx }
    }
}

impl RegExpr {
    /// Takes the characters of `pattern` literally. An empty pattern is
    /// accepted; it matches nowhere.
    pub fn new(pattern: &str) -> (r: Self)
        ensures
            r@ == pattern@,
    {
        Self { pattern: chars_of(pattern) }
    }

    /// Scans one line for the pattern. Gives the line, numbered `lineno`, with
    /// its spans when there is at least one, else `None`.
    pub fn match_line(&self, line: &str, lineno: u32) -> (r: Option<LineMatch>)
        ensures
            match r {
                None => line_spans(line@, self@).len() == 0,
                Some(m) => {
                    &&& line_spans(line@, self@).len() > 0
                    &&& spans_fit(m@.spans, m@.line.len() as int)
                    &&& m@ == (LineView {
                        line: line@,
                        lineno: lineno as int,
                        spans: line_spans(line@, self@),
                    })
                },
            },
    {
        proof {
            lemma_line_spans_fit(line@, self@);
        }
        let cs = chars_of(line);
        let matches = self.scan_chars(&cs);
        if matches.len() > 0 {
            Some(LineMatch { line: line.to_owned(), lineno, matches })
        } else {
            None
        }
    }

    /// Scans every line of `buf`. Line numbers must fit in a `u32`.
    pub fn match_buf(&self, buf: &str) -> (r: MatchResult)
        requires
            lines_of(buf@).len() <= u32::MAX,
        ensures
            r@ == buffer_outcome(self@, buf@),
            renderable(r),
    {
        let lines = split_lines(buf);
        let ghost ls = lines_of(buf@);
        let mut found: Vec<LineMatch> = Vec::new();
        let mut i: usize = 0;
        proof {
            assert(ls.take(0) =~= Seq::<Seq<char>>::empty());
        }
        while i < lines.len()
            invariant
                ls == lines_of(buf@),
                ls.len() == lines.len(),
                ls.len() <= u32::MAX,
                forall|k: int| 0 <= k < lines.len() ==> #[trigger] lines[k]@ == ls[k],
                i <= lines.len(),
                found.len() == matched_lines(self@, ls.take(i as int)).len(),
                forall|k: int|
                    0 <= k < found.len() ==> #[trigger] found[k]@ == matched_lines(
                        self@,
                        ls.take(i as int),
                    )[k],
                forall|k: int|
                    0 <= k < found.len() ==> spans_fit(
                        #[trigger] found[k]@.spans,
                        found[k]@.line.len() as int,
                    ),
            decreases lines.len() - i,
        {
            proof {
                assert(ls.take(i + 1).drop_last() =~= ls.take(i as int));
                assert(ls.take(i + 1).last() == ls[i as int]);
                assert(lines[i as int]@ == ls[i as int]);
            }
            let lineno = (i + 1) as u32;
            let r = self.match_line(lines[i].as_str(), lineno);
            if let Some(m) = r {
                found.push(m);
            }
            i = i + 1;
        }
        proof {
            assert(ls.take(i as int) =~= ls);
        }
        if found.len() > 0 {
            let r = MatchResult::Found(found);
            proof {
                assert(found@.map_values(|l: LineMatch| l@) =~= matched_lines(self@, ls));
            }
            r
        } else {
            MatchResult::NotFound
        }
    }

    /// Scans what was read from a source: its text when the read succeeded,
    /// else the read's error description, passed on unchanged.
    pub fn match_read(&self, read: Result<String, String>) -> (r: MatchResult)
        requires
            read is Ok ==> lines_of(read->Ok_0@).len() <= u32::MAX,
        ensures
            match read {
                Ok(content) => r@ == buffer_outcome(self@, content@),
                Err(e) => r@ == Outcome::Error(e@),
            },
            renderable(r),
    {
        match read {
            Ok(content) => self.match_buf(content.as_str()),
            Err(e) => MatchResult::Error(e),
        }
    }

    /// The naive scan: on a mismatch, the next attempt starts one character
    /// after the start of the failed one; after a match, it starts right
    /// after the match.
    fn scan_chars(&self, cs: &Vec<char>) -> (r: Vec<MatchInstance>)
        ensures
            r@.map_values(|m: MatchInstance| m@) == line_spans(cs@, self@),
    {
        let ghost pat = self.pattern@;
        let ghost line = cs@;
        let mut matches: Vec<MatchInstance> = Vec::new();
        let m = self.pattern.len();
        if m == 0 {
            assert(matches@.map_values(|m: MatchInstance| m@) =~= line_spans(line, pat));
            return matches;
        }
        let n = cs.len();
        let ghost mut starts: Seq<int> = Seq::empty();
        let mut i: usize = 0;
        let mut j: usize = 0;
        while i < n
            invariant
                pat == self.pattern@,
                line == cs@,
                m == pat.len(),
                n == line.len(),
                0 < m,
                j < m,
                j <= i <= n,
                forall|t: int| 0 <= t < j ==> line[i - j + t] == pat[t],
                starts + greedy_from(line, pat, i - j) == greedy_from(line, pat, 0),
                matches.len() == starts.len(),
                forall|k: int|
                    0 <= k < matches.len() ==> #[trigger] matches[k]@ == span_at(pat, starts[k]),
            decreases n - (i - j), n - i,
        {
            let ghost s = i - j;
            if cs[i] == self.pattern[j] {
                i = i + 1;
                j = j + 1;
            } else {
                proof {
                    if s + m <= n {
                        assert(line.subrange(s, s + m)[j as int] != pat[j as int]);
                    }
                    assert(greedy_from(line, pat, s) == greedy_from(line, pat, s + 1));
                }
                i = i - j + 1;
                j = 0;
            }
            if j >= m {
                let start = i - j;
                proof {
                    assert(line.subrange(s, s + m) =~= pat);
                    assert(greedy_from(line, pat, s) == seq![s] + greedy_from(line, pat, s + m));
                    assert(starts.push(s) + greedy_from(line, pat, s + m) =~= starts + greedy_from(line, pat, s));
                    starts = starts.push(s);
                }
                matches.push(MatchInstance::new(start, start + m - 1));
                j = 0;
            }
        }
        proof {
            assert(greedy_from(line, pat, i - j) == Seq::<int>::empty());
            assert(starts + Seq::<int>::empty() =~= starts);
            assert(matches@.map_values(|m: MatchInstance| m@) =~= line_spans(line, pat));
        }
        matches
    }
}

} // verus!
