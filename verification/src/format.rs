//! Fitting text to a limit that counts Unicode characters.

use vstd::prelude::*;
use vstd::string::*;

use crate::text::{lemma_split_not_empty, split_at_char, split_on, views};

verus! {

/// The chunks that are complete, and the chunk that is being filled.
pub struct Packing {
    pub done: Seq<Seq<char>>,
    pub open: Seq<char>,
}

/// Closes the open chunk.
pub open spec fn flush(p: Packing) -> Packing {
    Packing { done: p.done.push(p.open), open: seq![] }
}

/// Adds one character of a line that is longer than a chunk.
pub open spec fn put_char(p: Packing, c: char, limit: int) -> Packing {
    if p.open.len() + 1 > limit {
        Packing { done: p.done.push(p.open), open: seq![c] }
    } else {
        Packing { done: p.done, open: p.open.push(c) }
    }
}

/// Adds the characters of a line that is longer than a chunk.
pub open spec fn put_chars(p: Packing, line: Seq<char>, limit: int) -> Packing
    decreases line.len(),
{
    if line.len() == 0 {
        p
    } else {
        put_char(put_chars(p, line.drop_last(), limit), line.last(), limit)
    }
}

/// Makes room for a line: closes the open chunk if the line does not fit behind it, else ends its
/// last line.
pub open spec fn make_room(p: Packing, line: Seq<char>, limit: int) -> Packing {
    if p.open.len() == 0 {
        p
    } else if p.open.len() + line.len() + 1 > limit {
        flush(p)
    } else {
        Packing { done: p.done, open: p.open.push('\n') }
    }
}

/// Adds a line.
pub open spec fn put_line(p: Packing, line: Seq<char>, limit: int) -> Packing {
    let q = make_room(p, line, limit);
    if line.len() > limit {
        put_chars(q, line, limit)
    } else {
        Packing { done: q.done, open: q.open + line }
    }
}

/// Adds the lines in order.
pub open spec fn put_lines(lines: Seq<Seq<char>>, limit: int) -> Packing
    decreases lines.len(),
{
    if lines.len() == 0 {
        Packing { done: seq![], open: seq![] }
    } else {
        put_line(put_lines(lines.drop_last(), limit), lines.last(), limit)
    }
}

/// The chunks of a packing; an empty open chunk is left out.
pub open spec fn packed(p: Packing) -> Seq<Seq<char>> {
    if p.open.len() > 0 {
        p.done.push(p.open)
    } else {
        p.done
    }
}

/// The chunks of a message: the message itself if it fits, else its lines, packed.
pub open spec fn message_chunks(text: Seq<char>, limit: int) -> Seq<Seq<char>> {
    if text.len() <= limit {
        seq![text]
    } else {
        packed(put_lines(split_on(text, '\n'), limit))
    }
}

/// Splits text into chunks at line boundaries, each at most `limit` Unicode characters. A line
/// that is longer than a chunk is cut between characters.
pub fn split_message(text: &str, limit: usize) -> (r: Vec<String>)
    ensures
        views(r@) == message_chunks(text@, limit as int),
{
    if text.unicode_len() <= limit {
        let mut whole: Vec<String> = Vec::new();
        whole.push(text.to_string());
        assert(views(whole@) =~= seq![text@]);
        return whole;
    }
    let lines = split_at_char(text, '\n');
    let ghost all = views(lines@);
    let mut out: Vec<String> = Vec::new();
    let mut current = String::new();
    let mut current_chars: usize = 0;
    let mut i: usize = 0;
    assert(all.take(0) =~= seq![]);
    assert(views(out@) =~= seq![]);
    while i < lines.len()
        invariant
            i <= lines@.len(),
            all == views(lines@),
            current_chars == current@.len(),
            current_chars <= limit || current_chars == 1,
            put_lines(all.take(i as int), limit as int) == (Packing {
                done: views(out@),
                open: current@,
            }),
        decreases lines@.len() - i,
    {
        let line = lines[i].as_str();
        let line_chars: usize = line.unicode_len();
        let ghost p = put_lines(all.take(i as int), limit as int);
        proof {
            assert(all.take(i + 1).drop_last() =~= all.take(i as int));
            assert(all.take(i + 1).last() == line@);
        }
        if current_chars > 0 {
            if line_chars >= limit || current_chars >= limit - line_chars {
                let ghost before = out@;
                let ghost closed = current@;
                out.push(current);
                current = String::new();
                current_chars = 0;
                assert(views(out@) =~= views(before).push(closed));
            } else {
                current.push('\n');
                current_chars = current_chars + 1;
            }
        }
        let ghost q = make_room(p, line@, limit as int);
        assert(q.done =~= views(out@) && q.open =~= current@);
        if line_chars > limit {
            assert(line@.take(0) =~= seq![]);
            for c in it: line.chars()
                invariant
                    it.seq() == line@,
                    current_chars == current@.len(),
                    current_chars <= limit || current_chars == 1,
                    put_chars(q, line@.take(it.index() as int), limit as int) == (Packing {
                        done: views(out@),
                        open: current@,
                    }),
            {
                let ghost k = it.index() as int;
                assert(line@.take(k + 1).drop_last() =~= line@.take(k));
                assert(line@.take(k + 1).last() == c);
                if current_chars >= limit {
                    let ghost before = out@;
                    let ghost closed = current@;
                    out.push(current);
                    current = String::new();
                    current_chars = 0;
                    assert(views(out@) =~= views(before).push(closed));
                }
                current.push(c);
                current_chars = current_chars + 1;
                let ghost next = put_chars(q, line@.take(k + 1), limit as int);
                assert(next.done =~= views(out@) && next.open =~= current@);
            }
            assert(line@.take(line@.len() as int) =~= line@);
        } else {
            current.append(line);
            current_chars = current_chars + line_chars;
        }
        i = i + 1;
        let ghost next = put_lines(all.take(i as int), limit as int);
        assert(next.done =~= views(out@) && next.open =~= current@);
    }
    assert(all.take(all.len() as int) =~= all);
    if current_chars > 0 {
        let ghost before = out@;
        let ghost closed = current@;
        out.push(current);
        assert(views(out@) =~= views(before).push(closed));
    }
    out
}

/// Truncates a string to at most `limit` Unicode characters.
pub fn truncate_chars<'a>(s: &'a str, limit: usize) -> (r: &'a str)
    ensures
        r@ == (if s@.len() <= limit {
            s@
        } else {
            s@.take(limit as int)
        }),
{
    if s.unicode_len() <= limit {
        s
    } else {
        let r = s.substring_char(0, limit);
        assert(s@.subrange(0, limit as int) =~= s@.take(limit as int));
        r
    }
}

/// The characters of `s` other than newlines.
pub open spec fn visible(s: Seq<char>) -> Seq<char>
    decreases s.len(),
{
    if s.len() == 0 {
        seq![]
    } else if s.last() == '\n' {
        visible(s.drop_last())
    } else {
        visible(s.drop_last()).push(s.last())
    }
}

/// The characters other than newlines of all parts, in order.
pub open spec fn visible_of(parts: Seq<Seq<char>>) -> Seq<char>
    decreases parts.len(),
{
    if parts.len() == 0 {
        seq![]
    } else {
        visible_of(parts.drop_last()) + visible(parts.last())
    }
}

/// The lines that are not blank, in order.
pub open spec fn nonblank(lines: Seq<Seq<char>>) -> Seq<Seq<char>>
    decreases lines.len(),
{
    if lines.len() == 0 {
        seq![]
    } else if lines.last().len() == 0 {
        nonblank(lines.drop_last())
    } else {
        nonblank(lines.drop_last()).push(lines.last())
    }
}

/// The lines of all parts that are not blank, in order.
pub open spec fn nonblank_of(parts: Seq<Seq<char>>) -> Seq<Seq<char>>
    decreases parts.len(),
{
    if parts.len() == 0 {
        seq![]
    } else {
        nonblank_of(parts.drop_last()) + nonblank(split_on(parts.last(), '\n'))
    }
}

/// Every line fits into a chunk.
pub open spec fn lines_fit(lines: Seq<Seq<char>>, limit: int) -> bool {
    forall|i: int| 0 <= i < lines.len() ==> (#[trigger] lines[i]).len() <= limit
}

/// With room for at least one character, no chunk of a message is longer than the limit.
pub proof fn law_message_chunks_keep_the_limit(text: Seq<char>, limit: int)
    requires
        limit >= 1,
    ensures
        forall|i: int|
            0 <= i < message_chunks(text, limit).len() ==> (#[trigger] message_chunks(
                text,
                limit,
            )[i]).len() <= limit,
{
    lemma_packing_bounds(split_on(text, '\n'), limit);
}

/// With room for at least one character, the chunks of a message that had to be cut are not empty.
pub proof fn law_message_chunks_are_not_empty(text: Seq<char>, limit: int)
    requires
        limit >= 1,
        text.len() > limit,
    ensures
        forall|i: int|
            0 <= i < message_chunks(text, limit).len() ==> (#[trigger] message_chunks(
                text,
                limit,
            )[i]).len() > 0,
{
    lemma_packing_bounds(split_on(text, '\n'), limit);
}

/// Splitting a message loses, adds and reorders nothing but newlines, whatever the limit.
pub proof fn law_message_chunks_keep_the_text(text: Seq<char>, limit: int)
    requires
        limit >= 0,
    ensures
        visible_of(message_chunks(text, limit)) == visible(text),
{
    if text.len() <= limit {
        assert(visible_of(seq![text].drop_last()) =~= seq![]);
        assert(visible_of(seq![text]) =~= visible(text));
    } else {
        let lines = split_on(text, '\n');
        let p = put_lines(lines, limit);
        lemma_packing_visible(lines, limit);
        lemma_visible_split(text);
        assert(p.done.push(p.open).drop_last() =~= p.done);
        if p.open.len() == 0 {
            assert(visible_of(p.done) + visible(p.open) =~= visible_of(p.done));
        }
    }
}

/// Where every line fits into a chunk, no line is broken: the chunks hold the lines of the
/// message whole and in order, and at most blank lines are missing.
pub proof fn law_message_chunks_break_at_lines(text: Seq<char>, limit: int)
    requires
        lines_fit(split_on(text, '\n'), limit),
    ensures
        nonblank_of(message_chunks(text, limit)) == nonblank(split_on(text, '\n')),
{
    let lines = split_on(text, '\n');
    if text.len() <= limit {
        assert(nonblank_of(seq![text].drop_last()) =~= seq![]);
        assert(nonblank_of(seq![text]) =~= nonblank(lines));
    } else {
        let p = put_lines(lines, limit);
        lemma_split_has_no_separator(text);
        lemma_packing_lines(lines, limit);
        assert(p.done.push(p.open).drop_last() =~= p.done);
        if p.open.len() == 0 {
            lemma_nonblank_empty();
            assert(p.open =~= Seq::<char>::empty());
            assert(nonblank_of(p.done) + nonblank(split_on(p.open, '\n')) =~= nonblank_of(p.done));
        }
    }
}

/// Whether one of the parts has `line` among its lines.
pub open spec fn holds_line(parts: Seq<Seq<char>>, line: Seq<char>) -> bool {
    exists|c: int| 0 <= c < parts.len() && split_on(#[trigger] parts[c], '\n').contains(line)
}

/// A line that is not blank and fits into a chunk is never broken, whatever other lines there are:
/// it is a whole line of some chunk.
pub proof fn law_fitting_line_stays_whole(text: Seq<char>, limit: int, i: int)
    requires
        0 <= i < split_on(text, '\n').len(),
        1 <= split_on(text, '\n')[i].len() <= limit,
    ensures
        holds_line(message_chunks(text, limit), split_on(text, '\n')[i]),
{
    let lines = split_on(text, '\n');
    let line = lines[i];
    let parts = message_chunks(text, limit);
    assert(lines.contains(line));
    if text.len() <= limit {
        assert(parts[0] == text);
    } else {
        let p = put_lines(lines, limit);
        lemma_split_has_no_separator(text);
        lemma_packing_holds(lines, limit, i);
        if holds_line(p.done, line) {
            let c = choose|c: int|
                0 <= c < p.done.len() && split_on(#[trigger] p.done[c], '\n').contains(line);
            assert(parts[c] == p.done[c]);
        } else {
            if p.open.len() == 0 {
                assert(p.open =~= Seq::<char>::empty());
                assert(split_on(p.open, '\n') =~= seq![Seq::<char>::empty()]);
            }
            assert(parts[p.done.len() as int] == p.open);
        }
    }
}

/// A text that fits is one chunk, unchanged.
pub proof fn law_short_message_is_one_chunk(text: Seq<char>, limit: int)
    requires
        text.len() <= limit,
    ensures
        message_chunks(text, limit) == seq![text],
{
}

/// Whether there is nothing but newlines in `text` from `a` to `b`.
pub open spec fn only_newlines(text: Seq<char>, a: int, b: int) -> bool {
    forall|j: int| a <= j < b ==> text[j] == '\n'
}

/// Whether the line of `text` that goes on at `from` ends at `to`.
pub open spec fn line_goes_to(text: Seq<char>, from: int, to: int) -> bool {
    &&& from <= to <= text.len()
    &&& to == text.len() || text[to] == '\n'
    &&& forall|j: int| from <= j < to ==> text[j] != '\n'
}

/// Whether `parts` are pieces of `text`, at `starts`, in order, with nothing but newlines between
/// them, before the first and behind the last.
pub open spec fn pieces_of(text: Seq<char>, parts: Seq<Seq<char>>, starts: Seq<int>) -> bool {
    &&& starts.len() == parts.len()
    &&& forall|i: int|
        0 <= i < parts.len() ==> {
            &&& 0 <= #[trigger] starts[i]
            &&& starts[i] + parts[i].len() <= text.len()
            &&& text.subrange(starts[i], starts[i] + parts[i].len()) == parts[i]
        }
    &&& forall|i: int|
        0 <= i < parts.len() - 1 ==> {
            &&& (#[trigger] starts[i]) + parts[i].len() <= starts[i + 1]
            &&& only_newlines(text, starts[i] + parts[i].len() as int, starts[i + 1])
        }
    &&& parts.len() == 0 ==> only_newlines(text, 0, text.len() as int)
    &&& parts.len() > 0 ==> only_newlines(text, 0, starts[0]) && only_newlines(
        text,
        starts[parts.len() - 1] + parts[parts.len() - 1].len(),
        text.len() as int,
    )
}

/// Whether the chunk of `text` from `start` to `end` had to end there, where the next chunk starts at
/// `next`: the chunk together with the whole next line is longer than the limit; or the chunk is
/// full, in the middle of a line that is longer than the limit and that no other line stands before.
pub open spec fn had_to_end(
    text: Seq<char>,
    start: int,
    end: int,
    next: int,
    limit: int,
) -> bool {
    ||| {
        &&& text[end] == '\n'
        &&& exists|n: int| #[trigger] line_goes_to(text, end + 1, n) && n - start > limit
    }
    ||| {
        &&& end == next
        &&& end - start >= limit
        &&& exists|l: int, n: int|
            0 <= l <= start && (l == 0 || text[l - 1] == '\n') && #[trigger] line_goes_to(text, l, n)
                && end < n && n - l > limit
    }
}

/// Whether each of the pieces but the last had to end where it ends, and none starts with a newline.
pub open spec fn cut_where_needed(
    text: Seq<char>,
    parts: Seq<Seq<char>>,
    starts: Seq<int>,
    limit: int,
) -> bool {
    &&& forall|i: int|
        0 <= i < parts.len() - 1 ==> had_to_end(
            text,
            #[trigger] starts[i],
            starts[i] + parts[i].len(),
            starts[i + 1],
            limit,
        )
    &&& forall|i: int|
        0 <= i < parts.len() && parts[i].len() > 0 ==> text[#[trigger] starts[i]] != '\n'
}

/// The chunks of a message are contiguous pieces of it, in order. Nothing is lost within a chunk, and
/// nothing but newlines between two chunks, before the first and behind the last.
pub proof fn law_message_chunks_are_pieces(text: Seq<char>, limit: int)
    requires
        limit >= 0,
    ensures
        exists|starts: Seq<int>| pieces_of(text, message_chunks(text, limit), starts),
{
    if text.len() <= limit {
        let starts = seq![0int];
        assert(text.subrange(0, text.len() as int) =~= text);
        assert(pieces_of(text, message_chunks(text, limit), starts));
    } else {
        let starts = lemma_cut(text, limit);
        assert(pieces_of(text, message_chunks(text, limit), starts));
    }
}

/// A message that is longer than the limit is cut only where it must be: each chunk but the last had
/// to end where it ends, and no chunk starts with a newline.
pub proof fn law_message_is_cut_only_where_it_must_be(text: Seq<char>, limit: int)
    requires
        0 <= limit < text.len(),
    ensures
        exists|starts: Seq<int>|
            pieces_of(text, message_chunks(text, limit), starts) && cut_where_needed(
                text,
                message_chunks(text, limit),
                starts,
                limit,
            ),
{
    let starts = lemma_cut(text, limit);
    assert(pieces_of(text, message_chunks(text, limit), starts));
}

/// The chunks of a packing, the open one last.
spec fn all_parts(p: Packing) -> Seq<Seq<char>> {
    p.done.push(p.open)
}

/// Where the chunks of a packing come from when the text was taken in up to `pos`.
#[verifier::opaque]
spec fn traced(text: Seq<char>, pos: int, p: Packing, starts: Seq<int>, limit: int) -> bool {
    let parts = all_parts(p);
    &&& 0 <= pos <= text.len()
    &&& starts.len() == parts.len()
    &&& starts[parts.len() - 1] + p.open.len() == pos
    &&& only_newlines(text, 0, starts[0])
    &&& forall|i: int|
        0 <= i < parts.len() ==> {
            &&& 0 <= #[trigger] starts[i]
            &&& starts[i] + parts[i].len() <= pos
            &&& text.subrange(starts[i], starts[i] + parts[i].len()) == parts[i]
            &&& parts[i].len() > 0 ==> text[starts[i]] != '\n'
        }
    &&& forall|i: int|
        0 <= i < parts.len() - 1 ==> {
            &&& (#[trigger] starts[i]) + parts[i].len() <= starts[i + 1]
            &&& only_newlines(text, starts[i] + parts[i].len() as int, starts[i + 1])
            &&& had_to_end(text, starts[i], starts[i] + parts[i].len(), starts[i + 1], limit)
        }
}

/// Where line `k` starts in the text that the lines make.
spec fn line_start(lines: Seq<Seq<char>>, k: int) -> int
    decreases k,
{
    if k <= 0 {
        0
    } else {
        line_start(lines, k - 1) + lines[k - 1].len() + 1
    }
}

proof fn lemma_line_start_same(a: Seq<Seq<char>>, b: Seq<Seq<char>>, k: int)
    requires
        forall|j: int| 0 <= j < k ==> a[j].len() == b[j].len(),
    ensures
        line_start(a, k) == line_start(b, k),
    decreases k,
{
    if k > 0 {
        lemma_line_start_same(a, b, k - 1);
    }
}

/// Each line stands where it starts, and a newline or the end of the text follows it.
proof fn lemma_line_places(text: Seq<char>, k: int)
    requires
        0 <= k < split_on(text, '\n').len(),
    ensures
        ({
            let lines = split_on(text, '\n');
            let at = line_start(lines, k);
            let to = at + lines[k].len();
            &&& 0 <= at
            &&& to <= text.len()
            &&& text.subrange(at, to) == lines[k]
            &&& k < lines.len() - 1 ==> to < text.len() && text[to] == '\n'
            &&& k == lines.len() - 1 ==> to == text.len()
        }),
    decreases text.len(),
{
    let lines = split_on(text, '\n');
    if text.len() == 0 {
        assert(text.subrange(0, 0) =~= lines[k]);
    } else {
        let before = text.drop_last();
        let p = split_on(before, '\n');
        lemma_split_not_empty(before, '\n');
        let last = p.len() - 1;
        assert(forall|j: int| 0 <= j < last ==> lines[j] == p[j]);
        if k < last {
            lemma_line_places(before, k);
            lemma_line_start_same(lines, p, k);
            assert(text.subrange(line_start(lines, k), line_start(lines, k) + lines[k].len())
                =~= lines[k]);
        } else {
            lemma_line_places(before, last);
            lemma_line_start_same(lines, p, last);
            let at = line_start(p, last);
            if text.last() == '\n' {
                assert(lines[last] == p[last]);
                if k == last {
                    assert(text.subrange(at, at + lines[k].len()) =~= before.subrange(
                        at,
                        at + lines[k].len(),
                    ));
                } else {
                    assert(line_start(lines, k) == line_start(lines, last) + lines[last].len() + 1);
                    assert(text.subrange(text.len() as int, text.len() as int) =~= lines[k]);
                }
            } else {
                assert(lines[k] == p[last].push(text.last()));
                assert(text.subrange(at, at + lines[k].len()) =~= lines[k]);
            }
        }
    }
}

/// Taking in the characters of a line that is longer than the limit, from the first of them on.
proof fn lemma_trace_chars(
    text: Seq<char>,
    l: int,
    n: int,
    m: int,
    q: Packing,
    starts: Seq<int>,
    limit: int,
) -> (r: Seq<int>)
    requires
        limit >= 0,
        0 <= l <= l + m <= n,
        l == 0 || text[l - 1] == '\n',
        line_goes_to(text, l, n),
        n - l > limit,
        q.open.len() == 0,
        traced(text, l, q, starts, limit),
    ensures
        traced(text, l + m, put_chars(q, text.subrange(l, l + m), limit), r, limit),
        r[r.len() - 1] >= l,
    decreases m,
{
    if m == 0 {
        assert(text.subrange(l, l) =~= Seq::<char>::empty());
        reveal(traced);
        starts
    } else {
        let line = text.subrange(l, l + m);
        assert(line.drop_last() =~= text.subrange(l, l + m - 1));
        let before = lemma_trace_chars(text, l, n, m - 1, q, starts, limit);
        let p = put_chars(q, line.drop_last(), limit);
        let pos = l + m - 1;
        let c = line.last();
        assert(c == text[pos]);
        assert(text[pos] != '\n');
        reveal(traced);
        let next = put_char(p, c, limit);
        let start = before[before.len() - 1];
        if p.open.len() + 1 > limit {
            let r = before.push(pos);
            let old_parts = all_parts(p);
            let parts = all_parts(next);
            assert(parts =~= old_parts.push(seq![c]));
            assert(line_goes_to(text, l, n));
            assert(had_to_end(text, start, pos, pos, limit));
            assert(text.subrange(pos, pos + 1) =~= seq![c]);
            assert forall|i: int| 0 <= i < parts.len() implies {
                &&& 0 <= #[trigger] r[i]
                &&& r[i] + parts[i].len() <= pos + 1
                &&& text.subrange(r[i], r[i] + parts[i].len()) == parts[i]
                &&& parts[i].len() > 0 ==> text[r[i]] != '\n'
            } by {
                if i < old_parts.len() {
                    assert(r[i] == before[i]);
                    assert(parts[i] == old_parts[i]);
                }
            }
            assert forall|i: int| 0 <= i < parts.len() - 1 implies {
                &&& (#[trigger] r[i]) + parts[i].len() <= r[i + 1]
                &&& only_newlines(text, r[i] + parts[i].len() as int, r[i + 1])
                &&& had_to_end(text, r[i], r[i] + parts[i].len(), r[i + 1], limit)
            } by {
                assert(r[i] == before[i]);
                assert(parts[i] == old_parts[i]);
                if i < old_parts.len() - 1 {
                    assert(r[i + 1] == before[i + 1]);
                }
            }
            r
        } else {
            assert(p.open.push(c) =~= p.open + text.subrange(pos, pos + 1));
            lemma_trace_open(text, pos, pos + 1, p, next, before, limit);
            before
        }
    }
}

/// Taking in more text into the open chunk.
proof fn lemma_trace_open(
    text: Seq<char>,
    pos: int,
    to: int,
    p: Packing,
    next: Packing,
    starts: Seq<int>,
    limit: int,
)
    requires
        traced(text, pos, p, starts, limit),
        pos <= to <= text.len(),
        next.done == p.done,
        next.open == p.open + text.subrange(pos, to),
        p.open.len() == 0 && pos < to ==> text[pos] != '\n',
    ensures
        traced(text, to, next, starts, limit),
{
    reveal(traced);
    let old_parts = all_parts(p);
    let parts = all_parts(next);
    let last = parts.len() - 1;
    assert(old_parts[last] == p.open);
    assert(text.subrange(starts[last], to) =~= next.open) by {
        assert(text.subrange(starts[last], starts[last] + p.open.len()) == p.open);
        assert forall|j: int| 0 <= j < to - starts[last] implies text.subrange(starts[last], to)[j]
            == next.open[j] by {
            if j < p.open.len() {
                assert(text.subrange(starts[last], pos)[j] == p.open[j]);
            }
        }
    }
    assert forall|i: int| 0 <= i < parts.len() implies {
        &&& 0 <= #[trigger] starts[i]
        &&& starts[i] + parts[i].len() <= to
        &&& text.subrange(starts[i], starts[i] + parts[i].len()) == parts[i]
        &&& parts[i].len() > 0 ==> text[starts[i]] != '\n'
    } by {
        if i < last {
            assert(parts[i] == old_parts[i]);
        }
    }
    assert forall|i: int| 0 <= i < parts.len() - 1 implies {
        &&& (#[trigger] starts[i]) + parts[i].len() <= starts[i + 1]
        &&& only_newlines(text, starts[i] + parts[i].len() as int, starts[i + 1])
        &&& had_to_end(text, starts[i], starts[i] + parts[i].len(), starts[i + 1], limit)
    } by {
        assert(parts[i] == old_parts[i]);
    }
}

/// Going over a newline while the open chunk is empty.
proof fn lemma_trace_skip(text: Seq<char>, l: int, p: Packing, starts: Seq<int>, limit: int) -> (r:
    Seq<int>)
    requires
        0 < l <= text.len(),
        traced(text, l - 1, p, starts, limit),
        text[l - 1] == '\n',
        p.open.len() == 0,
    ensures
        traced(text, l, p, r, limit),
{
    reveal(traced);
    let parts = all_parts(p);
    let last = parts.len() - 1;
    let r = starts.update(last, l);
    assert(parts[last] == p.open);
    assert(text.subrange(l, l) =~= p.open);
    assert(starts[last] == l - 1);
    assert forall|i: int| 0 <= i < parts.len() implies {
        &&& 0 <= #[trigger] r[i]
        &&& r[i] + parts[i].len() <= l
        &&& text.subrange(r[i], r[i] + parts[i].len()) == parts[i]
        &&& parts[i].len() > 0 ==> text[r[i]] != '\n'
    } by {
        if i < last {
            assert(r[i] == starts[i]);
        }
    }
    assert forall|i: int| 0 <= i < parts.len() - 1 implies {
        &&& (#[trigger] r[i]) + parts[i].len() <= r[i + 1]
        &&& only_newlines(text, r[i] + parts[i].len() as int, r[i + 1])
        &&& had_to_end(text, r[i], r[i] + parts[i].len(), r[i + 1], limit)
    } by {
        assert(r[i] == starts[i]);
        if i + 1 < last {
            assert(r[i + 1] == starts[i + 1]);
        } else {
            assert(starts[i + 1] == l - 1);
            lemma_later_start(text, starts[i], starts[i] + parts[i].len(), l, limit);
        }
    }
    r
}

/// Closing the open chunk at a newline, because the next line, from `l` to `n`, does not fit.
proof fn lemma_trace_flush(
    text: Seq<char>,
    l: int,
    n: int,
    p: Packing,
    starts: Seq<int>,
    limit: int,
) -> (r: Seq<int>)
    requires
        0 < l <= text.len(),
        traced(text, l - 1, p, starts, limit),
        text[l - 1] == '\n',
        line_goes_to(text, l, n),
        p.open.len() + (n - l) + 1 > limit,
    ensures
        traced(text, l, flush(p), r, limit),
{
    reveal(traced);
    let old_parts = all_parts(p);
    let last = old_parts.len() - 1;
    let parts = all_parts(flush(p));
    let r = starts.push(l);
    assert(parts =~= old_parts.push(Seq::<char>::empty()));
    assert(old_parts[last] == p.open);
    assert(had_to_end(text, starts[last], l - 1, l, limit)) by {
        assert(line_goes_to(text, l - 1 + 1, n));
    }
    assert(text.subrange(l, l) =~= Seq::<char>::empty());
    assert forall|i: int| 0 <= i < parts.len() implies {
        &&& 0 <= #[trigger] r[i]
        &&& r[i] + parts[i].len() <= l
        &&& text.subrange(r[i], r[i] + parts[i].len()) == parts[i]
        &&& parts[i].len() > 0 ==> text[r[i]] != '\n'
    } by {
        if i < old_parts.len() {
            assert(r[i] == starts[i]);
            assert(parts[i] == old_parts[i]);
        }
    }
    assert forall|i: int| 0 <= i < parts.len() - 1 implies {
        &&& (#[trigger] r[i]) + parts[i].len() <= r[i + 1]
        &&& only_newlines(text, r[i] + parts[i].len() as int, r[i + 1])
        &&& had_to_end(text, r[i], r[i] + parts[i].len(), r[i + 1], limit)
    } by {
        assert(r[i] == starts[i]);
        assert(parts[i] == old_parts[i]);
        if i < last {
            assert(r[i + 1] == starts[i + 1]);
        }
    }
    r
}

/// Going over the newline behind a line, before the next line from `l` to `n` is taken in.
proof fn lemma_trace_room(
    text: Seq<char>,
    l: int,
    n: int,
    p: Packing,
    starts: Seq<int>,
    limit: int,
) -> (r: Seq<int>)
    requires
        limit >= 0,
        l > 0,
        traced(text, l - 1, p, starts, limit),
        text[l - 1] == '\n',
        line_goes_to(text, l, n),
    ensures
        traced(text, l, make_room(p, text.subrange(l, n), limit), r, limit),
{
    if p.open.len() == 0 {
        lemma_trace_skip(text, l, p, starts, limit)
    } else if p.open.len() + (n - l) + 1 > limit {
        lemma_trace_flush(text, l, n, p, starts, limit)
    } else {
        let q = make_room(p, text.subrange(l, n), limit);
        assert(text.subrange(l - 1, l) =~= seq!['\n']);
        assert(p.open.push('\n') =~= p.open + text.subrange(l - 1, l));
        lemma_trace_open(text, l - 1, l, p, q, starts, limit);
        starts
    }
}

/// A chunk that had to end before a blank line had to end before what comes behind it.
proof fn lemma_later_start(text: Seq<char>, start: int, end: int, l: int, limit: int)
    requires
        0 < l <= text.len(),
        start <= end <= l - 1,
        text[l - 1] == '\n',
        had_to_end(text, start, end, l - 1, limit),
    ensures
        had_to_end(text, start, end, l, limit),
{
    assert forall|f: int, n: int|
        0 <= f <= start && #[trigger] line_goes_to(text, f, n) && end < n implies text[end]
        != '\n' by {}
}

/// Taking in a line that stands from `l` to `n`.
proof fn lemma_trace_line(
    text: Seq<char>,
    l: int,
    n: int,
    q: Packing,
    starts: Seq<int>,
    limit: int,
    p: Packing,
) -> (r: Seq<int>)
    requires
        limit >= 0,
        0 <= l,
        l == 0 || text[l - 1] == '\n',
        line_goes_to(text, l, n),
        q == make_room(p, text.subrange(l, n), limit),
        traced(text, l, q, starts, limit),
    ensures
        traced(text, n, put_line(p, text.subrange(l, n), limit), r, limit),
{
    let line = text.subrange(l, n);
    if line.len() > limit {
        lemma_trace_chars(text, l, n, n - l, q, starts, limit)
    } else {
        let next = put_line(p, line, limit);
        lemma_trace_open(text, l, n, q, next, starts, limit);
        starts
    }
}

proof fn lemma_trace_lines(text: Seq<char>, k: int, limit: int) -> (r: Seq<int>)
    requires
        limit >= 0,
        0 <= k < split_on(text, '\n').len(),
    ensures
        ({
            let lines = split_on(text, '\n');
            traced(
                text,
                line_start(lines, k) + lines[k].len(),
                put_lines(lines.take(k + 1), limit),
                r,
                limit,
            )
        }),
    decreases k,
{
    let lines = split_on(text, '\n');
    lemma_line_places(text, k);
    lemma_split_has_no_separator(text);
    let l = line_start(lines, k);
    let n = l + lines[k].len();
    assert(one_line(lines[k]));
    assert(line_goes_to(text, l, n)) by {
        assert forall|j: int| l <= j < n implies text[j] != '\n' by {
            assert(lines[k][j - l] == text[j]);
        }
    }
    assert(lines.take(k + 1).drop_last() =~= lines.take(k));
    assert(lines.take(k + 1).last() == lines[k]);
    if k == 0 {
        let p = Packing { done: seq![], open: seq![] };
        assert(put_lines(lines.take(0), limit) == p);
        let starts = seq![0int];
        assert(text.subrange(0, 0) =~= Seq::<char>::empty());
        assert(all_parts(p) =~= seq![Seq::<char>::empty()]);
        assert(traced(text, 0, p, starts, limit)) by {
            reveal(traced);
        }
        lemma_trace_line(text, l, n, p, starts, limit, p)
    } else {
        lemma_line_places(text, k - 1);
        let before = lemma_trace_lines(text, k - 1, limit);
        let p = put_lines(lines.take(k), limit);
        assert(lines.take(k - 1 + 1) =~= lines.take(k));
        let room = lemma_trace_room(text, l, n, p, before, limit);
        lemma_trace_line(text, l, n, make_room(p, lines[k], limit), room, limit, p)
    }
}

/// Where the chunks of a message that has to be cut start.
proof fn lemma_cut(text: Seq<char>, limit: int) -> (starts: Seq<int>)
    requires
        0 <= limit < text.len(),
    ensures
        pieces_of(text, message_chunks(text, limit), starts),
        cut_where_needed(text, message_chunks(text, limit), starts, limit),
{
    let lines = split_on(text, '\n');
    lemma_split_not_empty(text, '\n');
    let k = lines.len() - 1;
    lemma_line_places(text, k);
    let r = lemma_trace_lines(text, k, limit);
    assert(lines.take(k + 1) =~= lines);
    let p = put_lines(lines, limit);
    reveal(traced);
    let all = all_parts(p);
    let last = all.len() - 1;
    assert(all[last] == p.open);
    if p.open.len() > 0 {
        assert(message_chunks(text, limit) =~= all);
        r
    } else {
        let starts = r.drop_last();
        let parts = message_chunks(text, limit);
        assert(parts =~= all.drop_last());
        assert forall|i: int| 0 <= i < parts.len() implies parts[i] == all[i] && #[trigger] starts[i]
            == r[i] by {}
        starts
    }
}

/// All chunks of the packing are within the limit, and the closed ones are not empty.
spec fn bounded(p: Packing, limit: int) -> bool {
    &&& forall|i: int| 0 <= i < p.done.len() ==> 0 < (#[trigger] p.done[i]).len() <= limit
    &&& p.open.len() <= limit
}

proof fn lemma_put_chars_bounds(p: Packing, line: Seq<char>, limit: int)
    requires
        limit >= 1,
        bounded(p, limit),
    ensures
        bounded(put_chars(p, line, limit), limit),
    decreases line.len(),
{
    if line.len() > 0 {
        lemma_put_chars_bounds(p, line.drop_last(), limit);
    }
}

proof fn lemma_packing_bounds(lines: Seq<Seq<char>>, limit: int)
    requires
        limit >= 1,
    ensures
        bounded(put_lines(lines, limit), limit),
    decreases lines.len(),
{
    if lines.len() > 0 {
        lemma_packing_bounds(lines.drop_last(), limit);
        let q = make_room(put_lines(lines.drop_last(), limit), lines.last(), limit);
        if lines.last().len() > limit {
            lemma_put_chars_bounds(q, lines.last(), limit);
        }
    }
}

proof fn lemma_visible_add(a: Seq<char>, b: Seq<char>)
    ensures
        visible(a + b) == visible(a) + visible(b),
    decreases b.len(),
{
    if b.len() == 0 {
        assert(a + b =~= a);
        assert(visible(a) + visible(b) =~= visible(a));
    } else {
        lemma_visible_add(a, b.drop_last());
        assert((a + b).drop_last() =~= a + b.drop_last());
        assert(visible(a + b) =~= visible(a) + visible(b));
    }
}

proof fn lemma_visible_push(parts: Seq<Seq<char>>, last: Seq<char>)
    ensures
        visible_of(parts.push(last)) == visible_of(parts) + visible(last),
{
    assert(parts.push(last).drop_last() =~= parts);
}

proof fn lemma_visible_split(text: Seq<char>)
    ensures
        visible_of(split_on(text, '\n')) == visible(text),
    decreases text.len(),
{
    if text.len() == 0 {
        reveal_with_fuel(visible_of, 2);
        assert(visible_of(split_on(text, '\n')) =~= seq![]);
    } else {
        let p = split_on(text.drop_last(), '\n');
        lemma_split_not_empty(text.drop_last(), '\n');
        lemma_visible_split(text.drop_last());
        if text.last() == '\n' {
            lemma_visible_push(p, seq![]);
            assert(visible_of(p.push(seq![])) =~= visible_of(p));
        } else {
            lemma_visible_push(p.drop_last(), p.last().push(text.last()));
            assert(p.last().push(text.last()).drop_last() =~= p.last());
            assert(visible_of(split_on(text, '\n')) =~= visible(text));
        }
    }
}

proof fn lemma_put_chars_visible(p: Packing, line: Seq<char>, limit: int)
    ensures
        ({
            let q = put_chars(p, line, limit);
            visible_of(q.done) + visible(q.open) == visible_of(p.done) + visible(p.open) + visible(
                line,
            )
        }),
    decreases line.len(),
{
    if line.len() == 0 {
        assert(visible_of(p.done) + visible(p.open) + visible(line) =~= visible_of(p.done)
            + visible(p.open));
    } else {
        lemma_put_chars_visible(p, line.drop_last(), limit);
        let q = put_chars(p, line.drop_last(), limit);
        let r = put_char(q, line.last(), limit);
        assert(line =~= line.drop_last() + seq![line.last()]);
        lemma_visible_add(line.drop_last(), seq![line.last()]);
        lemma_visible_push(q.done, q.open);
        lemma_visible_add(q.open, seq![line.last()]);
        assert(q.open.push(line.last()) =~= q.open + seq![line.last()]);
        assert(visible_of(r.done) + visible(r.open) =~= visible_of(q.done) + visible(q.open)
            + visible(seq![line.last()]));
        assert(visible_of(r.done) + visible(r.open) =~= visible_of(p.done) + visible(p.open)
            + visible(line));
    }
}

proof fn lemma_packing_visible(lines: Seq<Seq<char>>, limit: int)
    ensures
        ({
            let p = put_lines(lines, limit);
            visible_of(p.done) + visible(p.open) == visible_of(lines)
        }),
    decreases lines.len(),
{
    let r = put_lines(lines, limit);
    if lines.len() == 0 {
        assert(visible_of(r.done) + visible(r.open) =~= visible_of(lines));
    } else {
        lemma_packing_visible(lines.drop_last(), limit);
        let p = put_lines(lines.drop_last(), limit);
        let line = lines.last();
        let q = make_room(p, line, limit);
        lemma_visible_push(p.done, p.open);
        assert(p.open.push('\n').drop_last() =~= p.open);
        assert(visible_of(q.done) + visible(q.open) =~= visible_of(p.done) + visible(p.open));
        if line.len() > limit {
            lemma_put_chars_visible(q, line, limit);
        } else {
            lemma_visible_add(q.open, line);
            assert(visible_of(r.done) + visible(r.open) =~= visible_of(q.done) + visible(q.open)
                + visible(line));
        }
    }
}

proof fn lemma_nonblank_add(a: Seq<Seq<char>>, b: Seq<Seq<char>>)
    ensures
        nonblank(a + b) == nonblank(a) + nonblank(b),
    decreases b.len(),
{
    if b.len() == 0 {
        assert(a + b =~= a);
        assert(nonblank(a) + nonblank(b) =~= nonblank(a));
    } else {
        lemma_nonblank_add(a, b.drop_last());
        assert((a + b).drop_last() =~= a + b.drop_last());
        assert(nonblank(a + b) =~= nonblank(a) + nonblank(b));
    }
}

proof fn lemma_nonblank_empty()
    ensures
        nonblank(split_on(Seq::<char>::empty(), '\n')) == Seq::<Seq<char>>::empty(),
{
    reveal_with_fuel(nonblank, 2);
}

/// No newline in `s`.
spec fn one_line(s: Seq<char>) -> bool {
    forall|i: int| 0 <= i < s.len() ==> s[i] != '\n'
}

proof fn lemma_split_has_no_separator(text: Seq<char>)
    ensures
        forall|i: int|
            0 <= i < split_on(text, '\n').len() ==> one_line(#[trigger] split_on(text, '\n')[i]),
    decreases text.len(),
{
    if text.len() > 0 {
        lemma_split_has_no_separator(text.drop_last());
        lemma_split_not_empty(text.drop_last(), '\n');
        let p = split_on(text.drop_last(), '\n');
        let r = split_on(text, '\n');
        assert forall|i: int| 0 <= i < r.len() implies one_line(#[trigger] r[i]) by {
            if i < p.len() {
                assert(one_line(p[i]));
            }
        }
    }
}

proof fn lemma_split_one_line(line: Seq<char>)
    requires
        one_line(line),
    ensures
        split_on(line, '\n') == seq![line],
    decreases line.len(),
{
    if line.len() == 0 {
        assert(line =~= seq![]);
    } else {
        lemma_split_one_line(line.drop_last());
        assert(line.drop_last().push(line.last()) =~= line);
        assert(split_on(line, '\n') =~= seq![line]);
    }
}

proof fn lemma_split_append_line(open: Seq<char>, line: Seq<char>)
    requires
        one_line(line),
    ensures
        split_on(open.push('\n') + line, '\n') == split_on(open, '\n').push(line),
    decreases line.len(),
{
    let both = open.push('\n') + line;
    if line.len() == 0 {
        assert(both =~= open.push('\n'));
        assert(both.drop_last() =~= open);
        assert(line =~= seq![]);
    } else {
        lemma_split_append_line(open, line.drop_last());
        assert(both.drop_last() =~= open.push('\n') + line.drop_last());
        assert(line.drop_last().push(line.last()) =~= line);
        assert(split_on(both, '\n') =~= split_on(open, '\n').push(line));
    }
}

proof fn lemma_packing_lines(lines: Seq<Seq<char>>, limit: int)
    requires
        lines_fit(lines, limit),
        forall|i: int| 0 <= i < lines.len() ==> one_line(#[trigger] lines[i]),
    ensures
        ({
            let p = put_lines(lines, limit);
            nonblank_of(p.done) + nonblank(split_on(p.open, '\n')) == nonblank(lines)
        }),
    decreases lines.len(),
{
    let r = put_lines(lines, limit);
    lemma_nonblank_empty();
    if lines.len() == 0 {
        assert(nonblank_of(r.done) + nonblank(split_on(r.open, '\n')) =~= nonblank(lines));
    } else {
        let before = lines.drop_last();
        let line = lines.last();
        assert(forall|i: int| 0 <= i < before.len() ==> before[i] == lines[i]);
        assert(one_line(line)) by {
            assert(one_line(lines[lines.len() - 1]));
        }
        lemma_packing_lines(before, limit);
        let p = put_lines(before, limit);
        let q = make_room(p, line, limit);
        assert(p.done.push(p.open).drop_last() =~= p.done);
        let old_lines = nonblank_of(p.done) + nonblank(split_on(p.open, '\n'));
        lemma_nonblank_add(before, seq![line]);
        assert(lines =~= before + seq![line]);
        assert(line.len() <= limit) by {
            assert(lines[lines.len() - 1].len() <= limit);
        }
        if p.open.len() > 0 && q.open.len() > 0 {
            lemma_split_append_line(p.open, line);
            lemma_nonblank_add(split_on(p.open, '\n'), seq![line]);
            assert(split_on(p.open, '\n').push(line) =~= split_on(p.open, '\n') + seq![line]);
        } else {
            assert(q.open =~= Seq::<char>::empty());
            assert(q.open + line =~= line);
            lemma_split_one_line(line);
            if p.open.len() == 0 {
                assert(p.open =~= Seq::<char>::empty());
                assert(old_lines =~= nonblank_of(p.done));
            }
        }
        assert(nonblank_of(r.done) + nonblank(split_on(r.open, '\n')) =~= old_lines + nonblank(
            seq![line],
        ));
    }
}

/// Whether a chunk of the packing, closed or open, has `line` among its lines.
spec fn holds(p: Packing, line: Seq<char>) -> bool {
    holds_line(p.done, line) || split_on(p.open, '\n').contains(line)
}

proof fn lemma_holds_line_push(parts: Seq<Seq<char>>, last: Seq<char>, line: Seq<char>)
    ensures
        holds_line(parts, line) ==> holds_line(parts.push(last), line),
        split_on(last, '\n').contains(line) ==> holds_line(parts.push(last), line),
{
    let all = parts.push(last);
    if holds_line(parts, line) {
        let c = choose|c: int|
            0 <= c < parts.len() && split_on(#[trigger] parts[c], '\n').contains(line);
        assert(all[c] == parts[c]);
    }
    assert(all[parts.len() as int] == last);
}

proof fn lemma_put_chars_holds(p: Packing, long: Seq<char>, limit: int, line: Seq<char>)
    requires
        holds_line(p.done, line),
    ensures
        holds_line(put_chars(p, long, limit).done, line),
    decreases long.len(),
{
    if long.len() > 0 {
        lemma_put_chars_holds(p, long.drop_last(), limit, line);
        let q = put_chars(p, long.drop_last(), limit);
        lemma_holds_line_push(q.done, q.open, line);
    }
}

proof fn lemma_put_line_holds(p: Packing, next: Seq<char>, limit: int, line: Seq<char>)
    requires
        one_line(next),
        line.len() > 0,
    ensures
        holds(p, line) ==> holds(put_line(p, next, limit), line),
        next == line && next.len() <= limit ==> holds(put_line(p, next, limit), line),
{
    let q = make_room(p, next, limit);
    let r = put_line(p, next, limit);
    lemma_holds_line_push(p.done, p.open, line);
    if p.open.len() == 0 {
        assert(p.open =~= Seq::<char>::empty());
        assert(split_on(p.open, '\n') =~= seq![Seq::<char>::empty()]);
    }
    if next.len() > limit {
        if holds(p, line) {
            assert(holds_line(q.done, line));
            lemma_put_chars_holds(q, next, limit, line);
        }
    } else if q.open.len() > 0 {
        lemma_split_append_line(p.open, next);
        let before = split_on(p.open, '\n');
        let after = split_on(r.open, '\n');
        assert(after == before.push(next));
        assert(after[before.len() as int] == next);
        if before.contains(line) {
            let j = choose|j: int| 0 <= j < before.len() && before[j] == line;
            assert(after[j] == line);
        }
    } else {
        assert(q.open =~= Seq::<char>::empty());
        assert(r.open =~= next);
        lemma_split_one_line(next);
        assert(split_on(r.open, '\n')[0] == next);
    }
}

proof fn lemma_packing_holds(lines: Seq<Seq<char>>, limit: int, i: int)
    requires
        0 <= i < lines.len(),
        1 <= lines[i].len() <= limit,
        forall|j: int| 0 <= j < lines.len() ==> one_line(#[trigger] lines[j]),
    ensures
        holds(put_lines(lines, limit), lines[i]),
    decreases lines.len(),
{
    let before = lines.drop_last();
    assert(forall|j: int| 0 <= j < before.len() ==> before[j] == lines[j]);
    assert(one_line(lines[lines.len() - 1]));
    lemma_put_line_holds(put_lines(before, limit), lines.last(), limit, lines[i]);
    if i < before.len() {
        lemma_packing_holds(before, limit, i);
    }
}

} // verus!
