//! Cutting a long message into chunks of bounded UTF-8 size.

use vstd::prelude::*;
use vstd::string::*;
use vstd::utf8::*;

use crate::text::lemma_encoding_is_injective;

verus! {

/// How far back from the size limit a line or word end is looked for, in bytes.
pub const SEARCH_WINDOW: usize = 200;

/// The greatest character boundary of `b` that is at most `i`.
pub open spec fn floor_boundary(b: Seq<u8>, i: int) -> int
    decreases i,
{
    if i <= 0 {
        0
    } else if is_char_boundary(b, i) {
        i
    } else {
        floor_boundary(b, i - 1)
    }
}

/// The least character boundary of `b` in `i..end`, or `end` if there is none.
pub open spec fn ceil_boundary(b: Seq<u8>, i: int, end: int) -> int
    decreases end - i,
{
    if i >= end {
        end
    } else if is_char_boundary(b, i) {
        i
    } else {
        ceil_boundary(b, i + 1, end)
    }
}

/// Whether one of the positions in `lo..hi` holds the byte `x`.
pub open spec fn occurs(b: Seq<u8>, lo: int, hi: int, x: u8) -> bool {
    exists|q: int| lo <= q < hi && b[q] == x
}

/// The last position in `lo..hi` that holds the byte `x`.
pub open spec fn last_byte(b: Seq<u8>, lo: int, hi: int, x: u8) -> Option<int>
    decreases hi - lo,
{
    if hi <= lo {
        None
    } else if b[hi - 1] == x {
        Some(hi - 1)
    } else {
        last_byte(b, lo, hi - 1, x)
    }
}

/// Where the search for a line or word end before `end` starts.
pub open spec fn window_start(b: Seq<u8>, end: int) -> int {
    if end > SEARCH_WINDOW {
        ceil_boundary(b, end - SEARCH_WINDOW, end)
    } else {
        0
    }
}

/// Where the first chunk of `b` ends when `b` is longer than `limit`: after the last newline of
/// the search window, else after its last space, else at the last character boundary.
pub open spec fn break_point(b: Seq<u8>, limit: int) -> int {
    let end = floor_boundary(b, limit);
    let lo = window_start(b, end);
    match last_byte(b, lo, end, 0x0Au8) {
        Some(p) => p + 1,
        None => match last_byte(b, lo, end, 0x20u8) {
            Some(p) => p + 1,
            None => end,
        },
    }
}

/// The chunks of the encoded text `b`. Nothing comes after a chunk that cannot make progress,
/// which only a character wider than `limit` can cause.
pub open spec fn chunks(b: Seq<u8>, limit: int) -> Seq<Seq<u8>>
    decreases b.len(),
{
    if b.len() == 0 {
        seq![]
    } else if b.len() <= limit {
        seq![b]
    } else {
        let n = break_point(b, limit);
        if 0 < n < b.len() {
            seq![b.take(n)] + chunks(b.skip(n), limit)
        } else {
            seq![]
        }
    }
}

/// The number of bytes that the UTF-8 encoding of `c` takes.
pub open spec fn char_width(c: char) -> int {
    encode_scalar(c as u32).len() as int
}

/// Every character of `s` takes at most `limit` bytes.
pub open spec fn chars_fit(s: Seq<char>, limit: int) -> bool {
    forall|i: int| 0 <= i < s.len() ==> char_width(#[trigger] s[i]) <= limit
}

/// The encoded chunks that the slices hold.
pub open spec fn encoded(parts: Seq<&str>) -> Seq<Seq<u8>> {
    parts.map_values(|p: &str| p.spec_bytes())
}

/// The characters of the slices, one slice after the other.
pub open spec fn joined(parts: Seq<&str>) -> Seq<char>
    decreases parts.len(),
{
    if parts.len() == 0 {
        seq![]
    } else {
        joined(parts.drop_last()) + parts.last()@
    }
}

/// The encoding of a concatenation is the concatenation of the encodings.
pub proof fn lemma_encode_concat(a: Seq<char>, b: Seq<char>)
    ensures
        encode_utf8(a + b) == encode_utf8(a) + encode_utf8(b),
    decreases a.len(),
{
    if a.len() == 0 {
        assert(a + b =~= b);
        assert(encode_utf8(a) + encode_utf8(b) =~= encode_utf8(b));
    } else {
        lemma_encode_concat(a.drop_first(), b);
        assert((a + b).drop_first() =~= a.drop_first() + b);
        assert(encode_utf8(a + b) =~= encode_utf8(a) + encode_utf8(b));
    }
}

/// The encoding without its first character is the encoding of the other characters.
proof fn lemma_pop_first(s: Seq<char>)
    requires
        s.len() > 0,
    ensures
        valid_utf8(encode_utf8(s)),
        pop_first_scalar(encode_utf8(s)) == encode_utf8(s.drop_first()),
        length_of_first_scalar(encode_utf8(s)) == char_width(s[0]),
        1 <= char_width(s[0]) <= 4,
        encode_utf8(s).len() == char_width(s[0]) + encode_utf8(s.drop_first()).len(),
{
    encode_utf8_valid_utf8(s);
    encode_utf8_first_scalar(s);
    assert(pop_first_scalar(encode_utf8(s)) =~= encode_utf8(s.drop_first()));
}

/// From a boundary inside a text whose characters fit, the next boundary is at most `limit` away.
proof fn lemma_next_boundary(s: Seq<char>, i: int, limit: int) -> (w: int)
    requires
        chars_fit(s, limit),
        0 <= i < encode_utf8(s).len(),
        is_char_boundary(encode_utf8(s), i),
    ensures
        1 <= w <= limit,
        i + w <= encode_utf8(s).len(),
        is_char_boundary(encode_utf8(s), i + w),
    decreases s.len(),
{
    lemma_pop_first(s);
    if i == 0 {
        reveal_with_fuel(is_char_boundary, 2);
        char_width(s[0])
    } else {
        let rest = s.drop_first();
        let l = char_width(s[0]);
        encode_utf8_valid_utf8(rest);
        reveal_with_fuel(is_char_boundary, 2);
        assert(forall|k: int| 0 <= k < rest.len() ==> rest[k] == s[k + 1]);
        assert(chars_fit(rest, limit));
        lemma_next_boundary(rest, i - l, limit)
    }
}

/// The position after an ASCII byte is a boundary.
proof fn lemma_after_ascii(b: Seq<u8>, i: int)
    requires
        valid_utf8(b),
        0 <= i < b.len(),
        b[i] <= 0x7f,
    ensures
        is_char_boundary(b, i + 1),
    decreases b.len(),
{
    is_char_boundary_iff_not_is_continuation_byte(b, i);
    reveal_with_fuel(is_char_boundary, 2);
    if i > 0 {
        lemma_after_ascii(pop_first_scalar(b), i - length_of_first_scalar(b));
    }
}

proof fn lemma_floor(b: Seq<u8>, i: int)
    requires
        valid_utf8(b),
        0 <= i <= b.len(),
    ensures
        0 <= floor_boundary(b, i) <= i,
        is_char_boundary(b, floor_boundary(b, i)),
        forall|j: int| floor_boundary(b, i) < j <= i ==> !is_char_boundary(b, j),
    decreases i,
{
    if i > 0 && !is_char_boundary(b, i) {
        lemma_floor(b, i - 1);
    }
}

proof fn lemma_ceil(b: Seq<u8>, i: int, end: int)
    requires
        i <= end,
        is_char_boundary(b, end),
    ensures
        i <= ceil_boundary(b, i, end) <= end,
        is_char_boundary(b, ceil_boundary(b, i, end)),
    decreases end - i,
{
    if i < end && !is_char_boundary(b, i) {
        lemma_ceil(b, i + 1, end);
    }
}

proof fn lemma_last_byte(b: Seq<u8>, lo: int, hi: int, x: u8)
    ensures
        match last_byte(b, lo, hi, x) {
            Some(p) => lo <= p < hi && b[p] == x && (forall|q: int| p < q < hi ==> b[q] != x),
            None => forall|q: int| lo <= q < hi ==> b[q] != x,
        },
    decreases hi - lo,
{
    if lo < hi && b[hi - 1] != x {
        lemma_last_byte(b, lo, hi - 1, x);
    }
}

/// The first chunk of a text that is too long is not empty, keeps the limit and ends at a boundary.
proof fn lemma_break_point(s: Seq<char>, limit: int)
    requires
        chars_fit(s, limit),
        0 <= limit < encode_utf8(s).len(),
    ensures
        0 < break_point(encode_utf8(s), limit) <= limit,
        is_char_boundary(encode_utf8(s), break_point(encode_utf8(s), limit)),
{
    let b = encode_utf8(s);
    encode_utf8_valid_utf8(s);
    is_char_boundary_start_end_of_seq(b);
    let w = lemma_next_boundary(s, 0, limit);
    lemma_floor(b, limit);
    let end = floor_boundary(b, limit);
    assert(end >= w);
    if end > SEARCH_WINDOW {
        lemma_ceil(b, end - SEARCH_WINDOW, end);
    }
    let lo = window_start(b, end);
    lemma_last_byte(b, lo, end, 0x0Au8);
    lemma_last_byte(b, lo, end, 0x20u8);
    match last_byte(b, lo, end, 0x0Au8) {
        Some(p) => {
            lemma_after_ascii(b, p);
        },
        None => match last_byte(b, lo, end, 0x20u8) {
            Some(p) => {
                lemma_after_ascii(b, p);
            },
            None => {},
        },
    }
}

/// The last position in `lo..hi` that holds the byte `x`.
fn find_last_byte(b: &[u8], lo: usize, hi: usize, x: u8) -> (r: Option<usize>)
    requires
        lo <= hi <= b@.len(),
    ensures
        match r {
            Some(p) => last_byte(b@, lo as int, hi as int, x) == Some(p as int),
            None => last_byte(b@, lo as int, hi as int, x) is None,
        },
{
    let mut i: usize = hi;
    while i > lo
        invariant
            lo <= i <= hi <= b@.len(),
            last_byte(b@, lo as int, hi as int, x) == last_byte(b@, lo as int, i as int, x),
        decreases i,
    {
        if b[i - 1] == x {
            return Some(i - 1);
        }
        i = i - 1;
    }
    None
}

/// Where the first chunk of `text` ends.
fn find_break(text: &str, limit: usize) -> (r: usize)
    requires
        limit < text.spec_bytes().len(),
        chars_fit(text@, limit as int),
    ensures
        r == break_point(text.spec_bytes(), limit as int),
{
    let ghost b = text.spec_bytes();
    proof {
        encode_utf8_valid_utf8(text@);
        is_char_boundary_start_end_of_seq(b);
        lemma_floor(b, limit as int);
    }
    let mut end: usize = limit;
    while !text.is_char_boundary(end)
        invariant
            b == text.spec_bytes(),
            is_char_boundary(b, 0),
            end <= limit < b.len(),
            floor_boundary(b, end as int) == floor_boundary(b, limit as int),
        decreases end,
    {
        end = end - 1;
    }
    let mut lo: usize = if end > SEARCH_WINDOW {
        end - SEARCH_WINDOW
    } else {
        0
    };
    let ghost lo0 = lo as int;
    while lo < end && !text.is_char_boundary(lo)
        invariant
            b == text.spec_bytes(),
            lo <= end,
            ceil_boundary(b, lo as int, end as int) == ceil_boundary(b, lo0, end as int),
        decreases end - lo,
    {
        lo = lo + 1;
    }
    assert(end <= SEARCH_WINDOW ==> lo == 0);
    let bytes = text.as_bytes();
    if let Some(p) = find_last_byte(bytes, lo, end, 0x0Au8) {
        proof {
            lemma_last_byte(b, lo as int, end as int, 0x0Au8);
        }
        return p + 1;
    }
    if let Some(p) = find_last_byte(bytes, lo, end, 0x20u8) {
        proof {
            lemma_last_byte(b, lo as int, end as int, 0x20u8);
        }
        return p + 1;
    }
    end
}

/// Splits `text` into chunks of at most `limit` bytes, after a newline or else a space near the
/// limit where there is one. No chunk cuts a character, so a character that is wider than `limit`
/// cannot be placed.
pub fn split_text<'a>(text: &'a str, limit: usize) -> (r: Vec<&'a str>)
    requires
        chars_fit(text@, limit as int),
    ensures
        encoded(r@) == chunks(text.spec_bytes(), limit as int),
        joined(r@) == text@,
{
    let mut out: Vec<&'a str> = Vec::new();
    let mut rest: &'a str = text;
    assert(encoded(out@) + chunks(rest.spec_bytes(), limit as int) =~= chunks(
        text.spec_bytes(),
        limit as int,
    ));
    assert(joined(out@) + rest@ =~= text@);
    while rest.as_bytes().len() > limit
        invariant
            chars_fit(rest@, limit as int),
            encoded(out@) + chunks(rest.spec_bytes(), limit as int) == chunks(
                text.spec_bytes(),
                limit as int,
            ),
            joined(out@) + rest@ == text@,
        decreases rest.spec_bytes().len(),
    {
        let n = find_break(rest, limit);
        proof {
            lemma_break_point(rest@, limit as int);
        }
        let (head, tail) = rest.split_at(n);
        let ghost before = out@;
        out.push(head);
        proof {
            let b = rest.spec_bytes();
            lemma_encode_concat(head@, tail@);
            assert(b =~= head.spec_bytes() + tail.spec_bytes());
            lemma_encoding_is_injective(rest@, head@ + tail@);
            assert(rest@ == head@ + tail@);
            assert forall|i: int| 0 <= i < tail@.len() implies char_width(#[trigger] tail@[i])
                <= limit by {
                assert(rest@[head@.len() + i] == tail@[i]);
            }
            assert(b.take(n as int) =~= head.spec_bytes());
            assert(b.skip(n as int) =~= tail.spec_bytes());
            assert(encoded(out@) =~= encoded(before).push(head.spec_bytes()));
            assert(encoded(out@) + chunks(tail.spec_bytes(), limit as int) =~= encoded(before)
                + chunks(b, limit as int));
            assert(out@.drop_last() =~= before);
            assert(joined(out@) + tail@ =~= joined(before) + rest@);
        }
        rest = tail;
    }
    if rest.as_bytes().len() > 0 {
        let ghost before = out@;
        out.push(rest);
        proof {
            assert(encoded(out@) =~= encoded(before).push(rest.spec_bytes()));
            assert(encoded(before) + chunks(rest.spec_bytes(), limit as int) =~= encoded(out@));
            assert(out@.drop_last() =~= before);
        }
    } else {
        proof {
            if rest@.len() > 0 {
                lemma_pop_first(rest@);
            }
            assert(encoded(out@) + chunks(rest.spec_bytes(), limit as int) =~= encoded(out@));
            assert(joined(out@) + rest@ =~= joined(out@));
        }
    }
    out
}

/// Whether every character of `text` takes at most `limit` bytes.
pub fn fits_limit(text: &str, limit: usize) -> (r: bool)
    ensures
        r == chars_fit(text@, limit as int),
{
    for c in it: text.chars()
        invariant
            it.seq() == text@,
            forall|i: int| 0 <= i < it.index() ==> char_width(#[trigger] text@[i]) <= limit,
    {
        let v: u32 = c as u32;
        let width: usize = if v <= 0x7F {
            1
        } else if v <= 0x7FF {
            2
        } else if v <= 0xFFFF {
            3
        } else {
            4
        };
        proof {
            char_is_scalar(c);
            assert(text@[it.index() as int] == c);
            assert(char_width(c) == width);
        }
        if width > limit {
            return false;
        }
    }
    true
}

/// No chunk is empty, and none is longer than the limit.
pub proof fn law_chunks_keep_the_limit(s: Seq<char>, limit: int)
    requires
        chars_fit(s, limit),
        limit >= 0,
    ensures
        forall|i: int|
            0 <= i < chunks(encode_utf8(s), limit).len() ==> 0 < (#[trigger] chunks(
                encode_utf8(s),
                limit,
            )[i]).len() <= limit,
    decreases encode_utf8(s).len(),
{
    let b = encode_utf8(s);
    if b.len() > limit {
        let tail = lemma_first_cut(s, limit);
        law_chunks_keep_the_limit(tail, limit);
        let parts = chunks(b, limit);
        let more = chunks(encode_utf8(tail), limit);
        assert forall|i: int| 0 <= i < parts.len() implies 0 < (#[trigger] parts[i]).len()
            <= limit by {
            if i > 0 {
                assert(parts[i] == more[i - 1]);
            }
        }
    }
}

/// The chunks, one after the other, are the whole encoded text.
pub proof fn law_chunks_rejoin(s: Seq<char>, limit: int)
    requires
        chars_fit(s, limit),
        limit >= 0,
    ensures
        chunks(encode_utf8(s), limit).flatten() == encode_utf8(s),
    decreases encode_utf8(s).len(),
{
    let b = encode_utf8(s);
    let parts = chunks(b, limit);
    if b.len() == 0 {
        assert(parts.flatten() =~= b);
    } else if b.len() <= limit {
        parts.lemma_flatten_one_element();
    } else {
        let n = break_point(b, limit);
        let tail = lemma_first_cut(s, limit);
        law_chunks_rejoin(tail, limit);
        assert(parts.drop_first() =~= chunks(b.skip(n), limit));
        assert(parts.flatten() == parts.first() + parts.drop_first().flatten());
        assert(b =~= b.take(n) + b.skip(n));
    }
}

/// Every chunk is the encoding of a text: no character is cut.
pub proof fn law_chunks_cut_no_character(s: Seq<char>, limit: int)
    requires
        chars_fit(s, limit),
        limit >= 0,
    ensures
        forall|i: int|
            0 <= i < chunks(encode_utf8(s), limit).len() ==> valid_utf8(
                #[trigger] chunks(encode_utf8(s), limit)[i],
            ),
    decreases encode_utf8(s).len(),
{
    let b = encode_utf8(s);
    encode_utf8_valid_utf8(s);
    if b.len() > limit {
        let n = break_point(b, limit);
        lemma_break_point(s, limit);
        valid_utf8_split(b, n);
        assert(b.take(n) =~= b.subrange(0, n));
        let tail = lemma_first_cut(s, limit);
        law_chunks_cut_no_character(tail, limit);
        let parts = chunks(b, limit);
        let more = chunks(encode_utf8(tail), limit);
        assert forall|i: int| 0 <= i < parts.len() implies valid_utf8(#[trigger] parts[i]) by {
            if i > 0 {
                assert(parts[i] == more[i - 1]);
            }
        }
    }
}

/// Where a text must be cut, the first chunk ends with the last newline of the search window if
/// there is one, else with its last space if there is one, else at the greatest boundary that the
/// limit allows.
pub proof fn law_break_prefers_line_then_word_end(s: Seq<char>, limit: int)
    requires
        chars_fit(s, limit),
        0 <= limit < encode_utf8(s).len(),
    ensures
        ({
            let b = encode_utf8(s);
            let end = floor_boundary(b, limit);
            let lo = window_start(b, end);
            let n = break_point(b, limit);
            let line_end = occurs(b, lo, end, 0x0Au8);
            let word_end = occurs(b, lo, end, 0x20u8);
            &&& is_char_boundary(b, end)
            &&& forall|j: int| end < j <= limit ==> !is_char_boundary(b, j)
            &&& line_end ==> lo < n <= end && b[n - 1] == 0x0Au8 && !occurs(b, n, end, 0x0Au8)
            &&& !line_end && word_end ==> lo < n <= end && b[n - 1] == 0x20u8 && !occurs(
                b,
                n,
                end,
                0x20u8,
            )
            &&& !line_end && !word_end ==> n == end
        }),
{
    let b = encode_utf8(s);
    encode_utf8_valid_utf8(s);
    lemma_floor(b, limit);
    let end = floor_boundary(b, limit);
    let lo = window_start(b, end);
    lemma_last_byte(b, lo, end, 0x0Au8);
    lemma_last_byte(b, lo, end, 0x20u8);
}

/// Every text can be cut where messages take four bytes or more.
pub proof fn law_four_bytes_hold_every_character(s: Seq<char>, limit: int)
    requires
        limit >= 4,
    ensures
        chars_fit(s, limit),
{
    assert forall|i: int| 0 <= i < s.len() implies char_width(#[trigger] s[i]) <= limit by {
        let one = seq![s[i]];
        lemma_pop_first(one);
    }
}

/// A text can be cut exactly if the limit holds each of its characters: one byte for ASCII, two up to
/// U+07FF, three up to U+FFFF and four above.
pub proof fn law_characters_fit_by_their_width(s: Seq<char>, limit: int)
    ensures
        chars_fit(s, limit) <==> forall|i: int|
            0 <= i < s.len() ==> limit >= (if (#[trigger] s[i]) as u32 <= 0x7F {
                1int
            } else if s[i] as u32 <= 0x7FF {
                2
            } else if s[i] as u32 <= 0xFFFF {
                3
            } else {
                4
            }),
{
    assert forall|c: char| #[trigger] char_width(c) == (if c as u32 <= 0x7F {
        1int
    } else if c as u32 <= 0x7FF {
        2
    } else if c as u32 <= 0xFFFF {
        3
    } else {
        4
    }) by {
        char_is_scalar(c);
    }
}

/// Where each chunk ends. `a` is where chunk `k` starts: behind all chunks before it. It is the last
/// one exactly if what is left from there on keeps the limit, and then it is all that is left. Else
/// let `end` be the greatest character boundary that the limit allows. Among the 200 bytes before
/// `end`, the chunk ends after the last newline if there is one, else after the last space if there
/// is one; else it ends at `end`.
pub proof fn law_every_chunk_ends_at_the_best_break(s: Seq<char>, limit: int, k: int, a: int)
    requires
        chars_fit(s, limit),
        limit >= 0,
        0 <= k < chunks(encode_utf8(s), limit).len(),
        a == chunks(encode_utf8(s), limit).take(k).flatten().len(),
    ensures
        ({
            let parts = chunks(encode_utf8(s), limit);
            let rest = encode_utf8(s).skip(a);
            let n = parts[k].len() as int;
            &&& 0 <= a <= encode_utf8(s).len()
            &&& parts[k] == rest.take(n)
            &&& k == parts.len() - 1 <==> rest.len() <= limit
            &&& k == parts.len() - 1 ==> parts[k] == rest
            &&& forall|end: int|
                k < parts.len() - 1 && 0 <= end <= limit && #[trigger] is_char_boundary(rest, end)
                    && (forall|j: int| end < j <= limit ==> !is_char_boundary(rest, j))
                    ==> ends_at_the_best_break(rest, n, end)
        }),
    decreases encode_utf8(s).len(),
{
    let b = encode_utf8(s);
    let parts = chunks(b, limit);
    encode_utf8_valid_utf8(s);
    if k == 0 {
        assert(parts.take(0) =~= Seq::<Seq<u8>>::empty());
        assert(b.skip(0) =~= b);
        if b.len() > limit {
            let n = break_point(b, limit);
            let tail = lemma_first_cut(s, limit);
            lemma_chunks_of_something(tail, limit);
            lemma_break_point(s, limit);
            assert forall|end: int|
                0 <= end <= limit && #[trigger] is_char_boundary(b, end) && (forall|j: int|
                    end < j <= limit ==> !is_char_boundary(b, j)) implies ends_at_the_best_break(
                b,
                n,
                end,
            ) by {
                lemma_floor(b, limit);
                assert(end == floor_boundary(b, limit));
                lemma_best_break(s, limit);
            }
        } else {
            assert(b.take(b.len() as int) =~= b);
        }
    } else {
        let n = break_point(b, limit);
        let tail = lemma_first_cut(s, limit);
        let more = chunks(encode_utf8(tail), limit);
        assert(parts.drop_first() =~= more);
        assert(parts.take(k).drop_first() =~= more.take(k - 1));
        let a0 = more.take(k - 1).flatten().len() as int;
        assert(parts.take(k).first() == b.take(n));
        assert(a == n + a0);
        law_every_chunk_ends_at_the_best_break(tail, limit, k - 1, a0);
        assert(b.skip(a) =~= encode_utf8(tail).skip(a0));
        assert(parts[k] == more[k - 1]);
    }
}

/// Whether `n` is where a chunk of `rest` ends best, where it can reach to `end`: after the last
/// newline among the 200 bytes before `end`, else after the last space among them, else at `end`.
pub open spec fn ends_at_the_best_break(rest: Seq<u8>, n: int, end: int) -> bool {
    let newline = exists|q: int| 0 <= q < end && end - 200 <= q && rest[q] == 0x0Au8;
    let space = exists|q: int| 0 <= q < end && end - 200 <= q && rest[q] == 0x20u8;
    &&& 0 < n <= end
    &&& newline ==> rest[n - 1] == 0x0Au8 && forall|q: int| n <= q < end ==> rest[q] != 0x0Au8
    &&& !newline && space ==> rest[n - 1] == 0x20u8 && forall|q: int|
        n <= q < end ==> rest[q] != 0x20u8
    &&& !newline && !space ==> n == end
}

proof fn lemma_chunks_of_something(s: Seq<char>, limit: int)
    requires
        chars_fit(s, limit),
        limit >= 0,
    ensures
        encode_utf8(s).len() > 0 ==> chunks(encode_utf8(s), limit).len() > 0,
{
    let b = encode_utf8(s);
    if b.len() > limit {
        lemma_break_point(s, limit);
    }
}

proof fn lemma_ceil_is_least(b: Seq<u8>, i: int, end: int, q: int)
    requires
        i <= q < end,
        is_char_boundary(b, q),
    ensures
        i <= ceil_boundary(b, i, end) <= q,
    decreases end - i,
{
    if !is_char_boundary(b, i) {
        lemma_ceil_is_least(b, i + 1, end, q);
    }
}

proof fn lemma_in_window(b: Seq<u8>, end: int, q: int)
    requires
        valid_utf8(b),
        0 <= q < end <= b.len(),
        end - 200 <= q,
        b[q] <= 0x7f,
    ensures
        window_start(b, end) <= q,
{
    is_char_boundary_iff_not_is_continuation_byte(b, q);
    if end > SEARCH_WINDOW {
        lemma_ceil_is_least(b, end - SEARCH_WINDOW, end, q);
    }
}

proof fn lemma_best_break(s: Seq<char>, limit: int)
    requires
        chars_fit(s, limit),
        0 <= limit < encode_utf8(s).len(),
    ensures
        ends_at_the_best_break(
            encode_utf8(s),
            break_point(encode_utf8(s), limit),
            floor_boundary(encode_utf8(s), limit),
        ),
{
    let b = encode_utf8(s);
    encode_utf8_valid_utf8(s);
    lemma_break_point(s, limit);
    lemma_floor(b, limit);
    let end = floor_boundary(b, limit);
    let lo = window_start(b, end);
    if end > SEARCH_WINDOW {
        lemma_ceil(b, end - SEARCH_WINDOW, end);
    }
    lemma_last_byte(b, lo, end, 0x0Au8);
    lemma_last_byte(b, lo, end, 0x20u8);
    assert forall|q: int|
        0 <= q < end && end - 200 <= q && (b[q] == 0x0Au8 || b[q] == 0x20u8) implies lo <= q by {
        lemma_in_window(b, end, q);
    }
}

/// The text that is left after the first chunk of a text that is too long.
proof fn lemma_first_cut(s: Seq<char>, limit: int) -> (tail: Seq<char>)
    requires
        chars_fit(s, limit),
        0 <= limit < encode_utf8(s).len(),
    ensures
        chars_fit(tail, limit),
        encode_utf8(tail) == encode_utf8(s).skip(break_point(encode_utf8(s), limit)),
        encode_utf8(tail).len() < encode_utf8(s).len(),
        0 < break_point(encode_utf8(s), limit) <= limit,
{
    let b = encode_utf8(s);
    lemma_break_point(s, limit);
    encode_utf8_valid_utf8(s);
    let n = break_point(b, limit);
    valid_utf8_split(b, n);
    let head = decode_utf8(b.subrange(0, n));
    let tail = decode_utf8(b.subrange(n, b.len() as int));
    decode_utf8_encode_utf8(b.subrange(0, n));
    decode_utf8_encode_utf8(b.subrange(n, b.len() as int));
    assert(b.skip(n) =~= b.subrange(n, b.len() as int));
    lemma_encode_concat(head, tail);
    assert(b =~= b.subrange(0, n) + b.subrange(n, b.len() as int));
    lemma_encoding_is_injective(s, head + tail);
    assert forall|i: int| 0 <= i < tail.len() implies char_width(#[trigger] tail[i]) <= limit by {
        assert(s[head.len() + i] == tail[i]);
    }
    tail
}

} // verus!
