//! Strings as sequences of characters: equality, trimming, splitting, removal and decimal numbers.

use vstd::prelude::*;
use vstd::string::*;
use vstd::utf8::*;

verus! {

/// Appends one character, as [`String::push`] documents.
pub assume_specification[ String::push ](s: &mut String, c: char)
    ensures
        final(s)@ == old(s)@.push(c),
;

/// Why bytes are no text.
#[verifier::external_type_specification]
#[verifier::external_body]
pub struct ExFromUtf8Error(std::string::FromUtf8Error);

/// [`String::from_utf8`] reads the text that the bytes encode, and fails where they are not UTF-8.
pub assume_specification[ String::from_utf8 ](bytes: Vec<u8>) -> (r: Result<
    String,
    std::string::FromUtf8Error,
>)
    ensures
        r is Ok <==> valid_utf8(bytes@),
        r is Ok ==> r->Ok_0@ == decode_utf8(bytes@),
;

/// The characters behind an optional string.
pub open spec fn opt_view(s: Option<String>) -> Option<Seq<char>> {
    match s {
        Some(t) => Some(t@),
        None => None,
    }
}

/// The characters behind an optional string slice.
pub open spec fn opt_str_view(s: Option<&str>) -> Option<Seq<char>> {
    match s {
        Some(t) => Some(t@),
        None => None,
    }
}

/// The text as a string of its own, if there is one.
pub(crate) fn opt_string(s: Option<&str>) -> (r: Option<String>)
    ensures
        opt_view(r) == opt_str_view(s),
{
    match s {
        Some(t) => Some(t.to_string()),
        None => None,
    }
}

/// Two texts with the same UTF-8 encoding are the same text.
pub proof fn lemma_encoding_is_injective(a: Seq<char>, b: Seq<char>)
    ensures
        encode_utf8(a) == encode_utf8(b) <==> a == b,
{
    encode_utf8_decode_utf8(a);
    encode_utf8_decode_utf8(b);
}

/// Whether two byte strings are equal.
pub fn bytes_eq(a: &[u8], b: &[u8]) -> (r: bool)
    ensures
        r == (a@ == b@),
{
    if a.len() != b.len() {
        return false;
    }
    let mut i: usize = 0;
    while i < a.len()
        invariant
            i <= a@.len(),
            a@.len() == b@.len(),
            forall|j: int| 0 <= j < i ==> a@[j] == b@[j],
        decreases a@.len() - i,
    {
        if a[i] != b[i] {
            return false;
        }
        i = i + 1;
    }
    assert(a@ =~= b@);
    true
}

/// Whether two texts are equal.
pub fn str_eq(a: &str, b: &str) -> (r: bool)
    ensures
        r == (a@ == b@),
{
    proof {
        lemma_encoding_is_injective(a@, b@);
    }
    bytes_eq(a.as_bytes(), b.as_bytes())
}

/// The characters of a text, in order.
pub fn to_chars(s: &str) -> (r: Vec<char>)
    ensures
        r@ == s@,
{
    let mut r: Vec<char> = Vec::new();
    for c in it: s.chars()
        invariant
            r@ == s@.take(it.index() as int),
            it.seq() == s@,
    {
        r.push(c);
        assert(s@.take(it.index() + 1) =~= s@.take(it.index() as int).push(c));
    }
    assert(s@.take(s@.len() as int) =~= s@);
    r
}

/// The text made of the characters from `from` to `to`.
pub fn from_chars(chars: &Vec<char>, from: usize, to: usize) -> (r: String)
    requires
        from <= to <= chars@.len(),
    ensures
        r@ == chars@.subrange(from as int, to as int),
{
    let mut r = String::new();
    let mut i: usize = from;
    while i < to
        invariant
            from <= i <= to <= chars@.len(),
            r@ == chars@.subrange(from as int, i as int),
        decreases to - i,
    {
        r.push(chars[i]);
        i = i + 1;
        assert(chars@.subrange(from as int, i as int) =~= chars@.subrange(
            from as int,
            i - 1,
        ).push(chars@[i - 1]));
    }
    r
}

/// The characters of each string.
pub open spec fn views(v: Seq<String>) -> Seq<Seq<char>> {
    v.map_values(|s: String| s@)
}

/// The pieces of `s` between the occurrences of `sep`.
pub open spec fn split_on(s: Seq<char>, sep: char) -> Seq<Seq<char>>
    decreases s.len(),
{
    if s.len() == 0 {
        seq![seq![]]
    } else {
        let p = split_on(s.drop_last(), sep);
        if s.last() == sep {
            p.push(seq![])
        } else {
            p.drop_last().push(p.last().push(s.last()))
        }
    }
}

/// There is at least one piece.
pub proof fn lemma_split_not_empty(s: Seq<char>, sep: char)
    ensures
        split_on(s, sep).len() > 0,
    decreases s.len(),
{
    if s.len() > 0 {
        lemma_split_not_empty(s.drop_last(), sep);
    }
}

/// The pieces of `s` between the occurrences of `sep`.
pub fn split_at_char(s: &str, sep: char) -> (r: Vec<String>)
    ensures
        views(r@) == split_on(s@, sep),
{
    let mut out: Vec<String> = Vec::new();
    let mut piece = String::new();
    assert(views(out@).push(piece@) =~= split_on(s@.take(0), sep));
    for c in it: s.chars()
        invariant
            it.seq() == s@,
            views(out@).push(piece@) == split_on(s@.take(it.index() as int), sep),
    {
        let ghost i = it.index() as int;
        let ghost before = out@;
        assert(s@.take(i + 1).drop_last() =~= s@.take(i));
        assert(s@.take(i + 1).last() == c);
        let ghost p = split_on(s@.take(i), sep);
        assert(p.drop_last() =~= views(before));
        assert(p.last() == piece@);
        if c == sep {
            out.push(piece);
            piece = String::new();
            assert(views(out@) =~= p);
        } else {
            piece.push(c);
        }
        assert(views(out@).push(piece@) =~= split_on(s@.take(i + 1), sep));
    }
    assert(s@.take(s@.len() as int) =~= s@);
    let ghost before = out@;
    let ghost last = piece@;
    out.push(piece);
    assert(views(out@) =~= views(before).push(last));
    out
}

/// The Unicode property `White_Space`.
pub open spec fn white_space(c: char) -> bool {
    ||| '\u{9}' <= c <= '\u{D}'
    ||| c == ' '
    ||| c == '\u{85}'
    ||| c == '\u{A0}'
    ||| c == '\u{1680}'
    ||| '\u{2000}' <= c <= '\u{200A}'
    ||| c == '\u{2028}'
    ||| c == '\u{2029}'
    ||| c == '\u{202F}'
    ||| c == '\u{205F}'
    ||| c == '\u{3000}'
}

/// `s` without its leading white space.
pub open spec fn trimmed_start(s: Seq<char>) -> Seq<char>
    decreases s.len(),
{
    if s.len() > 0 && white_space(s.first()) {
        trimmed_start(s.drop_first())
    } else {
        s
    }
}

/// `s` without its trailing white space.
pub open spec fn trimmed_end(s: Seq<char>) -> Seq<char>
    decreases s.len(),
{
    if s.len() > 0 && white_space(s.last()) {
        trimmed_end(s.drop_last())
    } else {
        s
    }
}

/// `s` without its leading and trailing white space.
pub open spec fn trimmed(s: Seq<char>) -> Seq<char> {
    trimmed_end(trimmed_start(s))
}

/// Whether the character is white space.
pub fn is_white_space(c: char) -> (r: bool)
    ensures
        r == white_space(c),
{
    ('\u{9}' <= c && c <= '\u{D}') || c == ' ' || c == '\u{85}' || c == '\u{A0}' || c == '\u{1680}' || (
    '\u{2000}' <= c && c <= '\u{200A}') || c == '\u{2028}' || c == '\u{2029}' || c == '\u{202F}' || c
        == '\u{205F}' || c == '\u{3000}'
}

/// The text without its leading and trailing white space.
pub fn trim<'a>(s: &'a str) -> (r: &'a str)
    ensures
        r@ == trimmed(s@),
{
    let chars = to_chars(s);
    let n: usize = chars.len();
    let mut i: usize = 0;
    assert(s@.skip(0) =~= s@);
    while i < n && is_white_space(chars[i])
        invariant
            i <= n == chars@.len(),
            chars@ == s@,
            trimmed_start(s@.skip(i as int)) == trimmed_start(s@),
        decreases n - i,
    {
        assert(s@.skip(i as int).drop_first() =~= s@.skip(i + 1));
        i = i + 1;
    }
    assert(trimmed_start(s@) == s@.skip(i as int));
    let mut j: usize = n;
    assert(s@.subrange(i as int, n as int) =~= s@.skip(i as int));
    while i < j && is_white_space(chars[j - 1])
        invariant
            i <= j <= n == chars@.len(),
            chars@ == s@,
            trimmed_end(s@.subrange(i as int, j as int)) == trimmed(s@),
        decreases j,
    {
        assert(s@.subrange(i as int, j as int).drop_last() =~= s@.subrange(i as int, j - 1));
        j = j - 1;
    }
    s.substring_char(i, j)
}

/// What trimming leaves starts and ends with no white space.
pub proof fn law_trimmed_ends_are_not_white_space(s: Seq<char>)
    ensures
        trimmed(s).len() > 0 ==> !white_space(trimmed(s).first()) && !white_space(trimmed(s).last()),
{
    lemma_trimmed_start(s);
    lemma_trimmed_end(trimmed_start(s));
}

/// Trimming leaves nothing exactly where there is nothing but white space.
pub proof fn law_trimmed_is_empty_iff_all_white_space(s: Seq<char>)
    ensures
        trimmed(s).len() == 0 <==> (forall|i: int|
            0 <= i < s.len() ==> white_space(#[trigger] s[i])),
{
    lemma_trimmed_start(s);
    lemma_trimmed_end(trimmed_start(s));
}

proof fn lemma_trimmed_start(s: Seq<char>)
    ensures
        trimmed_start(s).len() <= s.len(),
        trimmed_start(s) == s.skip(s.len() - trimmed_start(s).len()),
        trimmed_start(s).len() > 0 ==> !white_space(trimmed_start(s).first()),
        forall|i: int|
            0 <= i < s.len() - trimmed_start(s).len() ==> white_space(#[trigger] s[i]),
    decreases s.len(),
{
    if s.len() > 0 && white_space(s.first()) {
        let t = s.drop_first();
        lemma_trimmed_start(t);
        assert(trimmed_start(s) =~= s.skip(s.len() - trimmed_start(s).len()));
        assert forall|i: int| 0 <= i < s.len() - trimmed_start(s).len() implies white_space(
            #[trigger] s[i],
        ) by {
            if i > 0 {
                assert(s[i] == t[i - 1]);
            }
        }
    } else {
        assert(s.skip(0) =~= s);
    }
}

proof fn lemma_trimmed_end(s: Seq<char>)
    ensures
        trimmed_end(s).len() <= s.len(),
        trimmed_end(s) == s.take(trimmed_end(s).len() as int),
        trimmed_end(s).len() > 0 ==> !white_space(trimmed_end(s).last()),
        forall|i: int| trimmed_end(s).len() <= i < s.len() ==> white_space(#[trigger] s[i]),
    decreases s.len(),
{
    if s.len() > 0 && white_space(s.last()) {
        let t = s.drop_last();
        lemma_trimmed_end(t);
        assert(trimmed_end(s) =~= s.take(trimmed_end(s).len() as int));
        assert forall|i: int| trimmed_end(s).len() <= i < s.len() implies white_space(
            #[trigger] s[i],
        ) by {
            if i < t.len() {
                assert(s[i] == t[i]);
            }
        }
    } else {
        assert(s.take(s.len() as int) =~= s);
    }
}

/// Whether `key` stands in `s` at position `i`.
pub open spec fn occurs_at(s: Seq<char>, key: Seq<char>, i: int) -> bool {
    0 <= i && i + key.len() <= s.len() && s.subrange(i, i + key.len()) == key
}

/// The first position from `from` on at which `key` stands in `s`.
pub open spec fn first_occurrence(s: Seq<char>, key: Seq<char>, from: int) -> Option<int>
    decreases s.len() + 1 - from,
{
    if from + key.len() > s.len() {
        None
    } else if occurs_at(s, key, from) {
        Some(from)
    } else {
        first_occurrence(s, key, from + 1)
    }
}

/// `s` without the first occurrence of `key`.
pub open spec fn without_first(s: Seq<char>, key: Seq<char>) -> Seq<char> {
    match first_occurrence(s, key, 0) {
        Some(i) => s.take(i) + s.skip(i + key.len()),
        None => s,
    }
}

/// The first occurrence is an occurrence, and there is none before it.
pub proof fn lemma_first_occurrence(s: Seq<char>, key: Seq<char>, from: int)
    requires
        0 <= from,
    ensures
        match first_occurrence(s, key, from) {
            Some(i) => from <= i && occurs_at(s, key, i) && forall|j: int|
                from <= j < i ==> !occurs_at(s, key, j),
            None => forall|j: int| from <= j ==> !occurs_at(s, key, j),
        },
    decreases s.len() + 1 - from,
{
    if from + key.len() <= s.len() && !occurs_at(s, key, from) {
        lemma_first_occurrence(s, key, from + 1);
    }
}

fn occurs_here(s: &Vec<char>, key: &Vec<char>, i: usize) -> (r: bool)
    requires
        i + key@.len() <= s@.len(),
    ensures
        r == occurs_at(s@, key@, i as int),
{
    let n: usize = s.len();
    let mut j: usize = 0;
    while j < key.len()
        invariant
            j <= key@.len(),
            i + key@.len() <= n == s@.len(),
            forall|k: int| 0 <= k < j ==> s@[i + k] == key@[k],
        decreases key@.len() - j,
    {
        if s[i + j] != key[j] {
            assert(s@.subrange(i as int, i + key@.len())[j as int] == s@[i + j]);
            return false;
        }
        j = j + 1;
    }
    assert(s@.subrange(i as int, i + key@.len()) =~= key@);
    true
}

/// The text without the first occurrence of `key`.
pub fn remove_first(s: &str, key: &str) -> (r: String)
    ensures
        r@ == without_first(s@, key@),
{
    let chars = to_chars(s);
    let pattern = to_chars(key);
    let n: usize = chars.len();
    let m: usize = pattern.len();
    let mut i: usize = 0;
    while m <= n - i
        invariant
            i <= n,
            n == chars@.len(),
            m == pattern@.len(),
            chars@ == s@,
            pattern@ == key@,
            first_occurrence(s@, key@, i as int) == first_occurrence(s@, key@, 0),
        decreases n + 1 - i,
    {
        if occurs_here(&chars, &pattern, i) {
            let mut r = from_chars(&chars, 0, i);
            let tail = from_chars(&chars, i + m, n);
            r.append(tail.as_str());
            assert(s@.subrange(0, i as int) =~= s@.take(i as int));
            assert(s@.subrange(i + m, n as int) =~= s@.skip(i + m));
            return r;
        }
        if i == n {
            assert(first_occurrence(s@, key@, i + 1) is None);
            return s.to_string();
        }
        i = i + 1;
    }
    s.to_string()
}

/// Where `key` occurs, exactly its length is removed; elsewhere nothing changes.
pub proof fn law_without_first_removes_one_occurrence(s: Seq<char>, key: Seq<char>)
    ensures
        (exists|i: int| occurs_at(s, key, i)) ==> without_first(s, key).len() == s.len()
            - key.len(),
        !(exists|i: int| occurs_at(s, key, i)) ==> without_first(s, key) == s,
{
    lemma_first_occurrence(s, key, 0);
}

/// A decimal digit.
pub open spec fn digit(c: char) -> bool {
    '0' <= c <= '9'
}

/// Whether `s` is one or more decimal digits.
pub open spec fn decimal(s: Seq<char>) -> bool {
    s.len() > 0 && forall|i: int| 0 <= i < s.len() ==> digit(#[trigger] s[i])
}

/// The number that decimal digits write.
pub open spec fn decimal_value(s: Seq<char>) -> nat
    decreases s.len(),
{
    if s.len() == 0 {
        0
    } else {
        decimal_value(s.drop_last()) * 10 + ((s.last() as u32) - 48) as nat
    }
}

/// The digits behind an optional plus sign.
pub open spec fn unsigned_digits(s: Seq<char>) -> Seq<char> {
    if s.len() > 0 && s.first() == '+' {
        s.drop_first()
    } else {
        s
    }
}

/// The number that `s` writes: digits behind an optional plus sign, at most `max`.
pub open spec fn unsigned(s: Seq<char>, max: nat) -> Option<nat> {
    let d = unsigned_digits(s);
    if decimal(d) && decimal_value(d) <= max {
        Some(decimal_value(d))
    } else {
        None
    }
}

proof fn lemma_decimal_value_grows(s: Seq<char>, k: int)
    requires
        0 <= k <= s.len(),
        forall|i: int| 0 <= i < s.len() ==> digit(#[trigger] s[i]),
    ensures
        decimal_value(s.take(k)) <= decimal_value(s),
    decreases s.len(),
{
    if k == s.len() {
        assert(s.take(k) =~= s);
    } else {
        lemma_decimal_value_grows(s.drop_last(), k);
        assert(s.drop_last().take(k) =~= s.take(k));
    }
}

/// Reads an unsigned decimal number of at most `max`.
pub fn parse_unsigned(s: &str, max: u64) -> (r: Option<u64>)
    ensures
        match r {
            Some(v) => unsigned(s@, max as nat) == Some(v as nat),
            None => unsigned(s@, max as nat) is None,
        },
{
    let chars = to_chars(s);
    let n: usize = chars.len();
    let start: usize = if n > 0 && chars[0] == '+' {
        1
    } else {
        0
    };
    let ghost d = unsigned_digits(s@);
    assert(d =~= s@.skip(start as int));
    if start == n {
        return None;
    }
    let mut value: u64 = 0;
    let mut i: usize = start;
    assert(d.take(0) =~= seq![]);
    while i < n
        invariant
            start <= i <= n == chars@.len(),
            d == chars@.skip(start as int),
            d == unsigned_digits(s@),
            forall|k: int| 0 <= k < i - start ==> digit(#[trigger] d[k]),
            value == decimal_value(d.take(i - start)),
            value <= max,
        decreases n - i,
    {
        let c = chars[i];
        assert(d[i - start] == c);
        if c < '0' || c > '9' {
            return None;
        }
        let v: u64 = (c as u32 - 48) as u64;
        let ghost k = i - start;
        assert(d.take(k + 1).drop_last() =~= d.take(k));
        assert(decimal_value(d.take(k + 1)) == value * 10 + v);
        if v > max || value > (max - v) / 10 {
            proof {
                assert(value * 10 + v > max);
                if decimal(d) {
                    lemma_decimal_value_grows(d, k + 1);
                }
            }
            return None;
        }
        value = value * 10 + v;
        i = i + 1;
    }
    assert(d.take(n - start) =~= d);
    Some(value)
}

/// One text behind the other.
pub fn join(a: &str, b: &str) -> (r: String)
    ensures
        r@ == a@ + b@,
{
    let mut r = a.to_string();
    r.append(b);
    r
}

/// The decimal digits of a natural number.
pub open spec fn nat_text(n: nat) -> Seq<char>
    decreases n,
{
    let last = (48 + n % 10) as char;
    if n < 10 {
        seq![last]
    } else {
        nat_text(n / 10).push(last)
    }
}

/// An integer in decimal: a minus sign in front of a negative one, no superfluous zeros.
pub open spec fn int_text(n: int) -> Seq<char> {
    if n < 0 {
        seq!['-'] + nat_text((-n) as nat)
    } else {
        nat_text(n as nat)
    }
}

fn write_nat(n: u64) -> (r: String)
    ensures
        r@ == nat_text(n as nat),
    decreases n,
{
    let last = (48 + (n % 10) as u8) as char;
    let mut r = if n < 10 {
        String::new()
    } else {
        write_nat(n / 10)
    };
    r.push(last);
    assert(n < 10 ==> r@ =~= seq![last]);
    r
}

/// An integer in decimal.
pub fn write_int(n: i64) -> (r: String)
    ensures
        r@ == int_text(n as int),
{
    if n < 0 {
        let magnitude: u64 = ((-(n + 1)) as u64) + 1;
        let digits = write_nat(magnitude);
        let mut r = String::new();
        r.push('-');
        r.append(digits.as_str());
        assert(r@ =~= int_text(n as int));
        r
    } else {
        write_nat(n as u64)
    }
}

/// A natural number that is written in decimal reads back as itself.
pub proof fn law_written_number_reads_back(n: nat)
    ensures
        decimal(nat_text(n)),
        decimal_value(nat_text(n)) == n,
    decreases n,
{
    let t = nat_text(n);
    let last = (48 + n % 10) as char;
    if n < 10 {
        assert(t.drop_last() =~= seq![]);
        reveal_with_fuel(decimal_value, 2);
    } else {
        law_written_number_reads_back(n / 10);
        assert(t.drop_last() =~= nat_text(n / 10));
    }
    assert(digit(last));
    assert forall|i: int| 0 <= i < t.len() implies digit(#[trigger] t[i]) by {
        if i < t.len() - 1 {
            assert(t[i] == nat_text(n / 10)[i]);
        }
    }
}

/// The parts, one after the other, with `sep` between them.
pub open spec fn joined_by(parts: Seq<Seq<char>>, sep: char) -> Seq<char>
    decreases parts.len(),
{
    if parts.len() == 0 {
        seq![]
    } else if parts.len() == 1 {
        parts[0]
    } else {
        joined_by(parts.drop_last(), sep).push(sep) + parts.last()
    }
}

/// The pieces of a text, put together with the separator between them, are the text, and no piece
/// holds the separator.
pub proof fn law_split_cuts_at_every_separator(s: Seq<char>, sep: char)
    ensures
        split_on(s, sep).len() > 0,
        joined_by(split_on(s, sep), sep) == s,
        forall|i: int|
            0 <= i < split_on(s, sep).len() ==> !(#[trigger] split_on(s, sep)[i]).contains(sep),
    decreases s.len(),
{
    let r = split_on(s, sep);
    if s.len() == 0 {
        assert(joined_by(r, sep) =~= s);
    } else {
        let t = s.drop_last();
        let p = split_on(t, sep);
        law_split_cuts_at_every_separator(t, sep);
        assert(t.push(s.last()) =~= s);
        if s.last() == sep {
            assert(r.drop_last() =~= p);
            assert(joined_by(r, sep) =~= s);
        } else {
            assert(r.drop_last() =~= p.drop_last());
            assert(r.last() == p.last().push(s.last()));
            assert(joined_by(r, sep) =~= joined_by(p, sep).push(s.last()));
        }
        assert forall|i: int| 0 <= i < r.len() implies !(#[trigger] r[i]).contains(sep) by {
            if i < p.len() {
                assert(!p[i].contains(sep));
                if r[i].contains(sep) {
                    let j = choose|j: int| 0 <= j < r[i].len() && r[i][j] == sep;
                    if j < p[i].len() {
                        assert(p[i][j] == sep);
                    }
                }
            }
        }
    }
}

/// Trimming takes white space away from both ends and nothing else: what is left stands in the text
/// between two positions outside of which everything is white space.
pub proof fn law_trimmed_is_the_middle(s: Seq<char>)
    ensures
        exists|a: int, b: int|
            0 <= a <= b <= s.len() && trimmed(s) == #[trigger] s.subrange(a, b) && (forall|i: int|
                0 <= i < a || b <= i < s.len() ==> white_space(#[trigger] s[i])),
{
    lemma_trimmed_start(s);
    let t = trimmed_start(s);
    lemma_trimmed_end(t);
    let a = s.len() - t.len();
    let b = a + trimmed_end(t).len();
    assert(s.subrange(a, b) =~= trimmed(s));
    assert forall|i: int| 0 <= i < a || b <= i < s.len() implies white_space(#[trigger] s[i]) by {
        if b <= i {
            assert(s[i] == t[i - a]);
        }
    }
}

/// Of the places where `key` stands in `s`, the first one is cut out, and the rest of the text stays
/// as it is.
pub proof fn law_without_first_cuts_the_first_occurrence(s: Seq<char>, key: Seq<char>, i: int)
    requires
        0 <= i <= i + key.len() <= s.len(),
        s.subrange(i, i + key.len()) == key,
        forall|j: int|
            0 <= j < i ==> #[trigger] s.subrange(j, j + key.len()) != key,
    ensures
        without_first(s, key) == s.subrange(0, i) + s.subrange(i + key.len(), s.len() as int),
{
    lemma_first_occurrence(s, key, 0);
    assert(occurs_at(s, key, i));
    let f = first_occurrence(s, key, 0)->0;
    assert(first_occurrence(s, key, 0) is Some);
    if f < i {
        assert(s.subrange(f, f + key.len()) == key);
    }
    assert(f == i);
    assert(s.take(i) =~= s.subrange(0, i));
    assert(s.skip(i + key.len()) =~= s.subrange(i + key.len(), s.len() as int));
}

/// A text without the key stays as it is.
pub proof fn law_text_without_the_key_is_kept(s: Seq<char>, key: Seq<char>)
    requires
        forall|j: int|
            0 <= j && j + key.len() <= s.len() ==> #[trigger] s.subrange(j, j + key.len()) != key,
    ensures
        without_first(s, key) == s,
{
    lemma_first_occurrence(s, key, 0);
    if first_occurrence(s, key, 0) is Some {
        let f = first_occurrence(s, key, 0)->0;
        assert(s.subrange(f, f + key.len()) == key);
    }
}

/// A number has no superfluous zero in front, and is written with decimal digits alone.
pub proof fn law_written_number_has_no_leading_zero(n: nat)
    ensures
        nat_text(n).len() > 0,
        nat_text(n)[0] == '0' <==> n == 0,
        n < 10 <==> nat_text(n).len() == 1,
    decreases n,
{
    if n >= 10 {
        law_written_number_has_no_leading_zero(n / 10);
    }
}

/// A negative integer is its magnitude behind a minus sign; any other is its magnitude.
pub proof fn law_integer_is_sign_and_magnitude(n: nat)
    ensures
        int_text(n as int) == nat_text(n),
        n > 0 ==> int_text(-n) == seq!['-'] + nat_text(n),
{
}

/// A number in decimal is read as itself up to the maximum, with or without a plus sign, and is not
/// read above the maximum.
pub proof fn law_decimal_number_is_read(n: nat, max: nat)
    ensures
        unsigned(nat_text(n), max) == (if n <= max {
            Some(n)
        } else {
            None
        }),
        unsigned(seq!['+'] + nat_text(n), max) == unsigned(nat_text(n), max),
{
    let t = nat_text(n);
    law_written_number_reads_back(n);
    law_written_number_has_no_leading_zero(n);
    assert(digit(t[0]));
    assert(t.first() != '+');
    let signed = seq!['+'] + t;
    assert(signed.first() == '+');
    assert(signed.drop_first() =~= t);
}

/// A zero in front of the digits changes nothing, and a digit behind them counts ten times the
/// number before it and itself.
pub proof fn law_digits_count_by_tens(s: Seq<char>, c: char)
    requires
        '0' <= c <= '9',
    ensures
        decimal_value(s.push(c)) == 10 * decimal_value(s) + (c as int - '0' as int),
        decimal_value(seq!['0'] + s) == decimal_value(s),
    decreases s.len(),
{
    assert(s.push(c).drop_last() =~= s);
    let z = seq!['0'] + s;
    if s.len() == 0 {
        assert(z.drop_last() =~= Seq::<char>::empty());
        assert(decimal_value(z.drop_last()) == 0);
    } else {
        assert(z.drop_last() =~= seq!['0'] + s.drop_last());
        law_digits_count_by_tens(s.drop_last(), c);
    }
}

/// What is read as a number is decimal digits, one or more, behind an optional plus sign, and their
/// value is at most the maximum.
pub proof fn law_only_decimal_numbers_are_read(s: Seq<char>, max: nat)
    ensures
        unsigned(s, max) matches Some(n) ==> {
            let from: int = if s.len() > 0 && s[0] == '+' {
                1
            } else {
                0
            };
            &&& n <= max
            &&& from < s.len()
            &&& forall|i: int| from <= i < s.len() ==> '0' <= #[trigger] s[i] <= '9'
            &&& n == decimal_value(s.skip(from))
        },
{
    let d = unsigned_digits(s);
    let from: int = if s.len() > 0 && s[0] == '+' {
        1
    } else {
        0
    };
    assert(d =~= s.skip(from));
    if unsigned(s, max) is Some {
        assert forall|i: int| from <= i < s.len() implies '0' <= #[trigger] s[i] <= '9' by {
            assert(digit(d[i - from]));
        }
    }
}

} // verus!
