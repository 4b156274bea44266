//! Byte-offset spans over source text and their line/column locations.

use vstd::prelude::*;
use crate::text::{decimal, push_char, append_u64};

verus! {

/// A half-open byte range `start..end` in the source text.
#[derive(Debug, Clone, Copy, PartialEq, Eq, Hash)]
pub struct Span {
    pub start: usize,
    pub end: usize,
}

/// A 1-based line and column in the source text.
#[derive(Debug, Clone, Copy, PartialEq, Eq)]
pub struct Location {
    pub line: usize,
    pub col: usize,
}

/// Number of bytes that the UTF-8 encoding of `c` takes.
pub open spec fn utf8_width(c: char) -> nat {
    let u = c as u32;
    if u < 0x80 { 1 } else if u < 0x800 { 2 } else if u < 0x10000 { 3 } else { 4 }
}

/// How many leading characters of `s` start at a byte offset below `start`.
pub open spec fn chars_before(s: Seq<char>, start: int) -> nat
    decreases s.len(),
{
    if s.len() == 0 || start <= 0 {
        0
    } else {
        1 + chars_before(s.drop_first(), start - utf8_width(s[0]))
    }
}

/// The (line, column) reached after reading `chars` from line 1, column 1.
pub open spec fn location_after(chars: Seq<char>) -> (nat, nat)
    decreases chars.len(),
{
    if chars.len() == 0 {
        (1, 1)
    } else {
        let prev = location_after(chars.drop_last());
        if chars.last() == '\n' {
            (prev.0 + 1, 1)
        } else {
            (prev.0, prev.1 + 1)
        }
    }
}

proof fn lemma_location_bounded(chars: Seq<char>)
    ensures
        location_after(chars).0 <= chars.len() + 1,
        location_after(chars).1 <= chars.len() + 1,
        location_after(chars).0 >= 1,
        location_after(chars).1 >= 1,
    decreases chars.len(),
{
    if chars.len() > 0 {
        lemma_location_bounded(chars.drop_last());
    }
}

proof fn lemma_chars_before_step(s: Seq<char>, k: int, start: int, rem: int)
    requires
        0 <= k < s.len(),
        rem > 0,
        chars_before(s, start) == k + chars_before(s.skip(k), rem),
    ensures
        chars_before(s, start) == k + 1 + chars_before(s.skip(k + 1), rem - utf8_width(s[k])),
{
    assert(s.skip(k).drop_first() =~= s.skip(k + 1));
}

proof fn lemma_chars_before_le(s: Seq<char>, start: int)
    ensures
        chars_before(s, start) <= s.len(),
    decreases s.len(),
{
    if s.len() > 0 && start > 0 {
        lemma_chars_before_le(s.drop_first(), start - utf8_width(s[0]));
    }
}

/// Byte width of a character's UTF-8 encoding.
fn char_utf8_width(c: char) -> (w: usize)
    ensures
        w == utf8_width(c),
{
    let u = c as u32;
    if u < 0x80 { 1 } else if u < 0x800 { 2 } else if u < 0x10000 { 3 } else { 4 }
}

/// The span that `Span::merge` returns: the lower start and the higher end.
pub open spec fn merged(a: Span, b: Span) -> Span {
    Span {
        start: if a.start <= b.start { a.start } else { b.start },
        end: if a.end >= b.end { a.end } else { b.end },
    }
}

/// Merging spans is commutative, associative and idempotent, and the merged
/// span covers both of its parts.
pub proof fn lemma_merge_laws(a: Span, b: Span, c: Span)
    ensures
        merged(a, b) == merged(b, a),
        merged(merged(a, b), c) == merged(a, merged(b, c)),
        merged(a, a) == a,
        merged(a, b).start <= a.start,
        merged(a, b).start <= b.start,
        merged(a, b).end >= a.end,
        merged(a, b).end >= b.end,
{
}

impl Span {
    /// Creates the span `start..end`.
    pub fn new(start: usize, end: usize) -> (s: Span)
        ensures
            s.start == start,
            s.end == end,
    {
        Span { start, end }
    }

    /// The smallest span covering both `self` and `other`.
    pub fn merge(self, other: Span) -> (s: Span)
        ensures
            s == merged(self, other),
    {
        Span {
            start: if self.start <= other.start { self.start } else { other.start },
            end: if self.end >= other.end { self.end } else { other.end },
        }
    }

    /// The line and column of the span's start in `source`: lines and columns count
    /// from 1, a `\n` starts a new line, and every other character advances the column.
    pub fn to_location(&self, source: &str) -> (loc: Location)
        requires
            source@.len() < usize::MAX,
        ensures
            loc.line == location_after(source@.take(chars_before(source@, self.start as int) as int)).0,
            loc.col == location_after(source@.take(chars_before(source@, self.start as int) as int)).1,
    {
        let ghost s = source@;
        let mut line: usize = 1;
        let mut col: usize = 1;
        let mut rem: usize = self.start;
        let mut k: usize = 0;
        proof {
            assert(s.skip(0) =~= s);
            assert(s.take(0) =~= Seq::<char>::empty());
        }
        for ch in it: source.chars()
            invariant_except_break
                s == source@,
                it.seq() == s,
                k == it.index(),
                k <= s.len(),
                s.len() < usize::MAX,
                rem > 0 ==> chars_before(s, self.start as int) == k + chars_before(s.skip(k as int), rem as int),
                rem == 0 ==> chars_before(s, self.start as int) == k,
                (line as nat, col as nat) == location_after(s.take(k as int)),
            ensures
                (line as nat, col as nat) == location_after(s.take(chars_before(s, self.start as int) as int)),
        {
            if rem == 0 {
                break;
            }
            proof {
                assert(ch == s[k as int]);
                lemma_chars_before_step(s, k as int, self.start as int, rem as int);
                assert(s.take(k + 1).drop_last() =~= s.take(k as int));
                lemma_location_bounded(s.take(k as int));
            }
            if ch == '\n' {
                line = line + 1;
                col = 1;
            } else {
                col = col + 1;
            }
            let w = char_utf8_width(ch);
            rem = if w >= rem { 0 } else { rem - w };
            k = k + 1;
            proof {
                if rem > 0 {
                } else {
                    lemma_chars_before_zero(s.skip(k as int));
                }
            }
        }
        Location { line, col }
    }

    /// The span as a `start..end` range.
    pub fn into_range(self) -> (r: std::ops::Range<usize>)
        ensures
            r.start == self.start,
            r.end == self.end,
    {
        self.start..self.end
    }
}

proof fn lemma_chars_before_zero(s: Seq<char>)
    ensures
        chars_before(s, 0) == 0,
{
}

/// The text of a location: `line:col`.
pub open spec fn location_text(line: nat, col: nat) -> Seq<char> {
    decimal(line) + seq![':'] + decimal(col)
}

impl Location {
    /// Renders the location as `line:col`.
    pub fn to_text(&self) -> (s: String)
        ensures
            s@ == location_text(self.line as nat, self.col as nat),
    {
        let mut s = String::new();
        append_u64(&mut s, self.line as u64);
        push_char(&mut s, ':');
        append_u64(&mut s, self.col as u64);
        assert(s@ =~= location_text(self.line as nat, self.col as nat));
        s
    }
}

} // verus!
