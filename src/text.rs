use vstd::prelude::*;

verus! {

/// Relies on `String::push`: the character is appended at the end.
#[verifier::external_body]
pub(crate) fn push_char(s: &mut String, c: char)
    ensures
        final(s)@ == old(s)@.push(c),
{
    s.push(c);
}

/// The characters of `s`, in order.
pub fn chars_of(s: &str) -> (r: Vec<char>)
    ensures
        r@ == s@,
{
    let mut r: Vec<char> = Vec::new();
    for c in it: s.chars()
        invariant
            r@ == it.seq().take(it.index() as int),
            it.seq() == s@,
    {
        r.push(c);
    }
    r
}

/// The pieces of `s` between line feeds: one more piece than `s` holds line
/// feeds, the last one being what follows the final line feed.
pub open spec fn pieces(s: Seq<char>) -> Seq<Seq<char>>
    decreases s.len(),
{
    if s.len() == 0 {
        seq![Seq::empty()]
    } else {
        let p = pieces(s.drop_last());
        if s.last() == '\n' {
            p.push(Seq::empty())
        } else {
            p.update(p.len() - 1, p.last().push(s.last()))
        }
    }
}

/// A line that was ended by a line feed drops the carriage return before it.
pub open spec fn strip_cr(l: Seq<char>) -> Seq<char> {
    if l.len() > 0 && l.last() == '\r' {
        l.drop_last()
    } else {
        l
    }
}

/// The lines of `s`: each piece ended by `\n` (or `\r\n`) without its
/// terminator, followed by the unterminated rest when it is not empty.
pub open spec fn lines_of(s: Seq<char>) -> Seq<Seq<char>> {
    let p = pieces(s);
    let closed = p.drop_last().map_values(|l: Seq<char>| strip_cr(l));
    if p.last().len() > 0 {
        closed.push(p.last())
    } else {
        closed
    }
}

/// The characters `cs[from..to]` as a string.
pub(crate) fn string_of(cs: &Vec<char>, from: usize, to: usize) -> (r: String)
    requires
        from <= to <= cs.len(),
    ensures
        r@ == cs@.subrange(from as int, to as int),
{
    let mut r = String::new();
    let mut i: usize = from;
    while i < to
        invariant
            from <= i <= to <= cs.len(),
            r@ == cs@.subrange(from as int, i as int),
        decreases to - i,
    {
        push_char(&mut r, cs[i]);
        assert(cs@.subrange(from as int, i + 1) == cs@.subrange(from as int, i as int).push(cs@[i as int]));
        i = i + 1;
    }
    r
}

/// Splits `buf` into lines: `\n` and `\r\n` end a line, the terminator is not
/// part of it, and a final terminator starts no further line.
pub fn split_lines(buf: &str) -> (r: Vec<String>)
    ensures
        r.len() == lines_of(buf@).len(),
        forall|k: int| 0 <= k < r.len() ==> #[trigger] r[k]@ == lines_of(buf@)[k],
{
    let cs = chars_of(buf);
    let ghost s = cs@;
    let mut done: Vec<String> = Vec::new();
    let mut start: usize = 0;
    let mut i: usize = 0;
    proof {
        assert(s.take(0).len() == 0);
    }
    while i < cs.len()
        invariant
            s == cs@,
            start <= i <= cs.len(),
            pieces(s.take(i as int)).len() == done.len() + 1,
            forall|k: int|
                0 <= k < done.len() ==> #[trigger] done[k]@ == strip_cr(
                    pieces(s.take(i as int))[k],
                ),
            pieces(s.take(i as int)).last() == s.subrange(start as int, i as int),
        decreases cs.len() - i,
    {
        let ghost p = pieces(s.take(i as int));
        assert(s.take(i + 1).drop_last() == s.take(i as int));
        assert(s.take(i + 1).last() == s[i as int]);
        if cs[i] == '\n' {
            let mut end: usize = i;
            if end > start && cs[end - 1] == '\r' {
                end = end - 1;
            }
            let line = string_of(&cs, start, end);
            assert(line@ == strip_cr(p.last()));
            done.push(line);
            start = i + 1;
        } else {
            assert(s.subrange(start as int, i + 1) == s.subrange(start as int, i as int).push(s[i as int]));
        }
        i = i + 1;
    }
    proof {
        assert(s.take(i as int) == s);
        assert(buf@ == s);
    }
    if start < cs.len() {
        let line = string_of(&cs, start, cs.len());
        done.push(line);
    }
    proof {
        let p = pieces(s);
        let closed = p.drop_last().map_values(|l: Seq<char>| strip_cr(l));
        assert(p.last().len() > 0 <==> start < cs.len());
        assert forall|k: int| 0 <= k < done.len() implies #[trigger] done[k]@ == lines_of(buf@)[k] by {
            if k < closed.len() {
                assert(closed[k] == strip_cr(p[k]));
            }
        }
    }
    done
}

} // verus!
