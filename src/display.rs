use vstd::prelude::*;

use crate::matcher::{spans_fit, LineMatch};
use crate::text::{chars_of, push_char};

verus! {

/// The position right after the last of `spans`, or 0 when there is none.
pub open spec fn next_free(spans: Seq<(int, int)>) -> int {
    if spans.len() == 0 {
        0
    } else {
        spans.last().1 + 1
    }
}

/// `line` up to the end of the last span, each span wrapped in `<` and `>`
/// and the text between spans kept as it is.
pub open spec fn wrapped(line: Seq<char>, spans: Seq<(int, int)>) -> Seq<char>
    decreases spans.len(),
{
    if spans.len() == 0 {
        Seq::empty()
    } else {
        let prev = spans.drop_last();
        let sp = spans.last();
        wrapped(line, prev) + line.subrange(next_free(prev), sp.0) + seq!['<'] + line.subrange(
            sp.0,
            sp.1 + 1,
        ) + seq!['>']
    }
}

/// `line` with each of `spans` wrapped in `<` and `>`.
pub open spec fn render_line(line: Seq<char>, spans: Seq<(int, int)>) -> Seq<char> {
    wrapped(line, spans) + line.subrange(next_free(spans), line.len() as int)
}

/// Appends `cs[from..to]` to `out`.
fn append_chars(out: &mut String, cs: &Vec<char>, from: usize, to: usize)
    requires
        from <= to <= cs.len(),
    ensures
        final(out)@ == old(out)@ + cs@.subrange(from as int, to as int),
{
    let ghost start = out@;
    let mut i: usize = from;
    while i < to
        invariant
            from <= i <= to <= cs.len(),
            out@ == start + cs@.subrange(from as int, i as int),
        decreases to - i,
    {
        push_char(out, cs[i]);
        assert(cs@.subrange(from as int, i + 1) == cs@.subrange(from as int, i as int).push(
            cs@[i as int],
        ));
        i = i + 1;
    }
}

/// The line of `m` with each of its matches wrapped in `<` and `>`.
pub fn render(m: &LineMatch) -> (r: String)
    requires
        spans_fit(m@.spans, m@.line.len() as int),
    ensures
        r@ == render_line(m@.line, m@.spans),
{
    let cs = chars_of(m.line.as_str());
    let ghost line = cs@;
    let ghost spans = m@.spans;
    let mut out = String::new();
    let mut pos: usize = 0;
    let mut k: usize = 0;
    proof {
        assert(spans.take(0) =~= Seq::<(int, int)>::empty());
    }
    while k < m.matches.len()
        invariant
            line == m@.line,
            line.len() == cs.len(),
            cs@ == line,
            spans == m@.spans,
            spans.len() == m.matches.len(),
            spans_fit(spans, line.len() as int),
            k <= m.matches.len(),
            pos == next_free(spans.take(k as int)),
            pos <= cs.len(),
            k > 0 ==> pos == spans[k - 1].1 + 1,
            out@ == wrapped(line, spans.take(k as int)),
        decreases m.matches.len() - k,
    {
        let start = m.matches[k].start_indx;
        let end = m.matches[k].end_indx;
        proof {
            assert(spans[k as int] == m.matches@[k as int]@);
            assert(spans[k as int] == (start as int, end as int));
            assert(0 <= spans[k as int].0 <= spans[k as int].1 < line.len());
            assert(spans.take(k + 1).drop_last() =~= spans.take(k as int));
            assert(spans.take(k + 1).last() == spans[k as int]);
            if k > 0 {
                assert(spans[k - 1].1 < spans[k as int].0);
            }
        }
        append_chars(&mut out, &cs, pos, start);
        push_char(&mut out, '<');
        append_chars(&mut out, &cs, start, end + 1);
        push_char(&mut out, '>');
        pos = end + 1;
        k = k + 1;
    }
    proof {
        assert(spans.take(k as int) =~= spans);
    }
    append_chars(&mut out, &cs, pos, cs.len());
    out
}

/// Renders each matched line, in order.
pub fn get_matched_lines_display(matched_lines: &Vec<LineMatch>) -> (r: Vec<String>)
    requires
        forall|i: int|
            0 <= i < matched_lines.len() ==> spans_fit(
                #[trigger] matched_lines[i]@.spans,
                matched_lines[i]@.line.len() as int,
            ),
    ensures
        r.len() == matched_lines.len(),
        forall|i: int|
            0 <= i < r.len() ==> #[trigger] r[i]@ == render_line(
                matched_lines[i]@.line,
                matched_lines[i]@.spans,
            ),
{
    let mut r: Vec<String> = Vec::new();
    let mut i: usize = 0;
    while i < matched_lines.len()
        invariant
            i <= matched_lines.len(),
            r.len() == i,
            forall|j: int|
                0 <= j < matched_lines.len() ==> spans_fit(
                    #[trigger] matched_lines[j]@.spans,
                    matched_lines[j]@.line.len() as int,
                ),
            forall|j: int|
                0 <= j < i ==> #[trigger] r[j]@ == render_line(
                    matched_lines[j]@.line,
                    matched_lines[j]@.spans,
                ),
        decreases matched_lines.len() - i,
    {
        let s = render(&matched_lines[i]);
        r.push(s);
        i = i + 1;
    }
    r
}

} // verus!
