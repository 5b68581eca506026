//! The offset model: where each character of a source text sits in its UTF-8
//! encoding, and how a byte offset is corrected into a codepoint index.
//!
//! The external parser reports spans in byte units, while callers consume
//! codepoint indices, so every reported offset runs through [`translate`].
//! Sentinel values and offsets at or past the end of the text pass through
//! unchanged.

use vstd::prelude::*;

verus! {

/// Number of bytes in the UTF-8 encoding of one character.
pub open spec fn utf8_len(c: char) -> int {
    if (c as u32) < 0x80 {
        1
    } else if (c as u32) < 0x800 {
        2
    } else if (c as u32) < 0x10000 {
        3
    } else {
        4
    }
}

/// Byte length of the UTF-8 encoding of a character sequence.
pub open spec fn byte_len(s: Seq<char>) -> int
    decreases s.len(),
{
    if s.len() == 0 {
        0
    } else {
        utf8_len(s[0]) + byte_len(s.drop_first())
    }
}

/// Codepoint index of the character whose encoding covers byte offset `b`.
pub open spec fn char_at_byte(s: Seq<char>, b: int) -> int
    decreases s.len(),
{
    if s.len() == 0 {
        0
    } else if b < utf8_len(s[0]) {
        0
    } else {
        1 + char_at_byte(s.drop_first(), b - utf8_len(s[0]))
    }
}

/// Byte-offset-to-codepoint-index conversion.  Offsets inside the text are
/// resolved to the index of the character owning that byte; any other value
/// (negative sentinels included) passes through unchanged.
pub open spec fn translate(s: Seq<char>, b: int) -> int {
    if 0 <= b < byte_len(s) {
        char_at_byte(s, b)
    } else {
        b
    }
}

/// Whether the character owning byte offset `b` is `target`.
pub open spec fn char_matches(s: Seq<char>, b: int, target: char) -> bool {
    0 <= b < byte_len(s) && s[char_at_byte(s, b)] == target
}

/// Nearest byte offset at or before `cur` whose character is `target`;
/// `-1` when there is none.
pub open spec fn scan_back(s: Seq<char>, cur: int, target: char) -> int
    decreases (if cur < 0 {
        0
    } else {
        cur + 1
    }),
{
    if cur < 0 {
        -1
    } else if char_matches(s, cur, target) {
        cur
    } else {
        scan_back(s, cur - 1, target)
    }
}

/// Nearest byte offset at or after `cur` whose character is `target`;
/// `byte_len(s)` when there is none.
pub open spec fn scan_forward(s: Seq<char>, cur: int, target: char) -> int
    decreases (if 0 <= cur <= byte_len(s) {
        byte_len(s) - cur
    } else {
        0
    }),
{
    if cur < 0 || cur >= byte_len(s) {
        byte_len(s)
    } else if char_matches(s, cur, target) {
        cur
    } else {
        scan_forward(s, cur + 1, target)
    }
}

/// Each character occupies at least one byte, so a text's byte length is at
/// least its character count, and never negative.
pub proof fn lemma_byte_len_bounds(s: Seq<char>)
    ensures
        byte_len(s) >= s.len(),
    decreases s.len(),
{
    if s.len() > 0 {
        lemma_byte_len_bounds(s.drop_first());
    }
}

/// Byte lengths add over concatenation.
pub proof fn lemma_byte_len_concat(s1: Seq<char>, s2: Seq<char>)
    ensures
        byte_len(s1 + s2) == byte_len(s1) + byte_len(s2),
    decreases s1.len(),
{
    if s1.len() == 0 {
        assert(s1 + s2 =~= s2);
    } else {
        assert((s1 + s2).drop_first() =~= s1.drop_first() + s2);
        lemma_byte_len_concat(s1.drop_first(), s2);
    }
}

/// A byte offset inside the text belongs to some character of the text.
pub proof fn lemma_char_at_byte_bounds(s: Seq<char>, b: int)
    requires
        0 <= b < byte_len(s),
    ensures
        0 <= char_at_byte(s, b) < s.len(),
    decreases s.len(),
{
    if s.len() == 0 {
    } else if b < utf8_len(s[0]) {
    } else {
        lemma_char_at_byte_bounds(s.drop_first(), b - utf8_len(s[0]));
    }
}

/// Characters appear in byte order: a later byte never belongs to an earlier
/// character.
pub proof fn lemma_char_at_byte_mono(s: Seq<char>, b1: int, b2: int)
    requires
        0 <= b1 <= b2 < byte_len(s),
    ensures
        char_at_byte(s, b1) <= char_at_byte(s, b2),
    decreases s.len(),
{
    if s.len() == 0 {
    } else if b1 < utf8_len(s[0]) {
        lemma_char_at_byte_bounds(s, b2);
    } else {
        lemma_char_at_byte_mono(s.drop_first(), b1 - utf8_len(s[0]), b2 - utf8_len(s[0]));
    }
}

/// How `char_at_byte` splits over a concatenation: bytes of the first part
/// keep their owner, bytes of the second part shift by the first part's
/// character count.
pub proof fn lemma_char_at_byte_concat(s1: Seq<char>, s2: Seq<char>, b: int)
    requires
        0 <= b < byte_len(s1) + byte_len(s2),
    ensures
        b < byte_len(s1) ==> char_at_byte(s1 + s2, b) == char_at_byte(s1, b),
        b >= byte_len(s1) ==> char_at_byte(s1 + s2, b) == s1.len() + char_at_byte(
            s2,
            b - byte_len(s1),
        ),
    decreases s1.len(),
{
    lemma_byte_len_bounds(s1);
    lemma_byte_len_bounds(s2);
    if s1.len() == 0 {
        assert(s1 + s2 =~= s2);
    } else {
        lemma_byte_len_bounds(s1.drop_first());
        assert((s1 + s2)[0] == s1[0]);
        if b < utf8_len(s1[0]) {
        } else {
            assert((s1 + s2).drop_first() =~= s1.drop_first() + s2);
            lemma_char_at_byte_concat(s1.drop_first(), s2, b - utf8_len(s1[0]));
        }
    }
}

/// The bytes of character `i` — those from `byte_len(s.take(i))` up to but not
/// including `byte_len(s.take(i + 1))` — all resolve to index `i`.
pub proof fn lemma_char_at_byte_of_char(s: Seq<char>, i: int, b: int)
    requires
        0 <= i < s.len(),
        byte_len(s.take(i)) <= b < byte_len(s.take(i)) + utf8_len(s[i]),
    ensures
        char_at_byte(s, b) == i,
{
    let p = s.take(i);
    let q = s.skip(i);
    assert(p + q =~= s);
    assert(q[0] == s[i]);
    lemma_byte_len_bounds(p);
    lemma_byte_len_bounds(q.drop_first());
    assert(byte_len(q) == utf8_len(q[0]) + byte_len(q.drop_first()));
    lemma_byte_len_concat(p, q);
    lemma_char_at_byte_concat(p, q, b);
    assert(char_at_byte(q, b - byte_len(p)) == 0);
}

/// Taking one more character extends the prefix byte length by that
/// character's width.
pub proof fn lemma_byte_len_take_succ(s: Seq<char>, i: int)
    requires
        0 <= i < s.len(),
    ensures
        byte_len(s.take(i + 1)) == byte_len(s.take(i)) + utf8_len(s[i]),
{
    let one = seq![s[i]];
    assert(s.take(i + 1) =~= s.take(i) + one);
    lemma_byte_len_concat(s.take(i), one);
    assert(one.drop_first() =~= Seq::<char>::empty());
    assert(byte_len(one.drop_first()) == 0);
    assert(one[0] == s[i]);
    assert(byte_len(one) == utf8_len(s[i]));
}

/// A successful backward scan lands on the nearest matching byte offset at or
/// before the anchor.
pub proof fn lemma_scan_back_found(s: Seq<char>, cur: int, target: char)
    requires
        exists|p: int| 0 <= p <= cur && char_matches(s, p, target),
    ensures
        0 <= scan_back(s, cur, target) <= cur,
        char_matches(s, scan_back(s, cur, target), target),
    decreases (if cur < 0 {
        0
    } else {
        cur + 1
    }),
{
    if char_matches(s, cur, target) {
    } else {
        assert(exists|p: int| 0 <= p <= cur - 1 && char_matches(s, p, target));
        lemma_scan_back_found(s, cur - 1, target);
    }
}

/// A successful forward scan lands on the nearest matching byte offset at or
/// after the anchor.
pub proof fn lemma_scan_forward_found(s: Seq<char>, cur: int, target: char)
    requires
        0 <= cur,
        exists|p: int| cur <= p && char_matches(s, p, target),
    ensures
        cur <= scan_forward(s, cur, target) < byte_len(s),
        char_matches(s, scan_forward(s, cur, target), target),
    decreases (if 0 <= cur <= byte_len(s) {
        byte_len(s) - cur
    } else {
        0
    }),
{
    if cur >= byte_len(s) {
        assert(false);
    } else if char_matches(s, cur, target) {
    } else {
        assert(exists|p: int| cur + 1 <= p && char_matches(s, p, target));
        lemma_scan_forward_found(s, cur + 1, target);
    }
}

/// Executable UTF-8 width of one character.
pub fn utf8_len_exec(c: char) -> (n: usize)
    ensures
        n == utf8_len(c),
{
    let u: u32 = c as u32;
    if u < 0x80 {
        1
    } else if u < 0x800 {
        2
    } else if u < 0x10000 {
        3
    } else {
        4
    }
}

} // verus!
