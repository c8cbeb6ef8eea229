//! Byte-level text primitives shared by the scanner and the attribute parsers.
//!
//! Registry dumps are not reliably UTF-8, so every text value is a sequence of
//! bytes. Keywords are written as string literals and compared through
//! [`word`].

use vstd::prelude::*;
use vstd::slice::*;
use vstd::string::*;
use vstd::utf8::{encode_utf8, is_ascii_chars, is_ascii_chars_encode_utf8};

verus! {

pub const LINE_FEED: u8 = 0x0a;

pub const SPACE: u8 = 0x20;

pub const DASH: u8 = 0x2d;

pub const DOT: u8 = 0x2e;

pub const SLASH: u8 = 0x2f;

pub const ZERO: u8 = 0x30;

pub const COLON: u8 = 0x3a;

/// The bytes that count as whitespace: space, tab, line feed, vertical tab,
/// form feed and carriage return.
pub open spec fn is_space(b: u8) -> bool {
    b == 0x20 || (0x09 <= b && b <= 0x0d)
}

/// Executable form of [`is_space`].
pub fn byte_is_space(b: u8) -> (r: bool)
    ensures
        r == is_space(b),
{
    b == 0x20 || (0x09 <= b && b <= 0x0d)
}

/// The bytes that spell a word: its UTF-8 encoding, which for an ASCII word
/// is one byte for each character.
pub open spec fn word(w: Seq<char>) -> Seq<u8> {
    encode_utf8(w)
}

/// An ASCII word is spelled by the codes of its characters.
pub proof fn lemma_ascii_word(w: Seq<char>)
    requires
        is_ascii_chars(w),
    ensures
        word(w) == Seq::new(w.len(), |i: int| w[i] as u8),
{
    is_ascii_chars_encode_utf8(w);
    assert(word(w) =~= Seq::new(w.len(), |i: int| w[i] as u8));
}

/// The byte sequences held by a vector of byte vectors.
pub open spec fn views(v: Seq<Vec<u8>>) -> Seq<Seq<u8>> {
    Seq::new(v.len(), |i: int| v[i]@)
}

/// Pushing one more vector appends its bytes to [`views`].
pub proof fn lemma_views_push(v: Seq<Vec<u8>>, x: Vec<u8>)
    ensures
        views(v.push(x)) == views(v).push(x@),
{
    assert(views(v.push(x)) =~= views(v).push(x@));
}

/// A line is blank when it holds nothing but whitespace.
pub open spec fn is_blank(s: Seq<u8>) -> bool {
    forall|i: int| 0 <= i < s.len() ==> is_space(#[trigger] s[i])
}

/// The first position at or after `i` that holds no whitespace, or the
/// length of `s` when there is none.
pub open spec fn skip_spaces(s: Seq<u8>, i: int) -> int
    decreases s.len() - i,
{
    if 0 <= i < s.len() && is_space(s[i]) {
        skip_spaces(s, i + 1)
    } else {
        i
    }
}

/// The end of `s[..j]` once its trailing whitespace is dropped.
pub open spec fn drop_spaces(s: Seq<u8>, j: int) -> int
    decreases j,
{
    if 0 < j <= s.len() && is_space(s[j - 1]) {
        drop_spaces(s, j - 1)
    } else {
        j
    }
}

/// `s` without its leading and trailing whitespace.
pub open spec fn trimmed(s: Seq<u8>) -> Seq<u8> {
    let a = skip_spaces(s, 0);
    let b = drop_spaces(s, s.len() as int);
    if a < b {
        s.subrange(a, b)
    } else {
        Seq::empty()
    }
}

/// What [`skip_spaces`] returns: everything it passes over is whitespace, and
/// it stops on the first byte that is not.
pub proof fn lemma_skip_spaces(s: Seq<u8>, i: int)
    requires
        0 <= i <= s.len(),
    ensures
        i <= skip_spaces(s, i) <= s.len(),
        forall|k: int| i <= k < skip_spaces(s, i) ==> is_space(#[trigger] s[k]),
        skip_spaces(s, i) < s.len() ==> !is_space(s[skip_spaces(s, i)]),
    decreases s.len() - i,
{
    if i < s.len() && is_space(s[i]) {
        lemma_skip_spaces(s, i + 1);
    }
}

/// What [`drop_spaces`] returns: everything it drops is whitespace, and the
/// byte before the new end is not.
pub proof fn lemma_drop_spaces(s: Seq<u8>, j: int)
    requires
        0 <= j <= s.len(),
    ensures
        0 <= drop_spaces(s, j) <= j,
        forall|k: int| drop_spaces(s, j) <= k < j ==> is_space(#[trigger] s[k]),
        drop_spaces(s, j) > 0 ==> !is_space(s[drop_spaces(s, j) - 1]),
    decreases j,
{
    if 0 < j && is_space(s[j - 1]) {
        lemma_drop_spaces(s, j - 1);
    }
}

/// A trimmed text is empty exactly when the text is blank; otherwise it
/// starts and ends with a byte that is not whitespace.
pub proof fn lemma_trimmed(s: Seq<u8>)
    ensures
        is_blank(s) <==> trimmed(s).len() == 0,
        trimmed(s).len() <= s.len(),
        trimmed(s).len() > 0 ==> !is_space(trimmed(s).first()) && !is_space(trimmed(s).last()),
{
    lemma_skip_spaces(s, 0);
    lemma_drop_spaces(s, s.len() as int);
    let a = skip_spaces(s, 0);
    let b = drop_spaces(s, s.len() as int);
    if a < b {
        assert(!is_space(s[a]));
        assert(trimmed(s).first() == s[a]);
        assert(trimmed(s).last() == s[b - 1]);
    } else {
        assert forall|k: int| 0 <= k < s.len() implies is_space(#[trigger] s[k]) by {
            if k >= a {
                assert(k >= b);
            }
        }
    }
}

/// Trimming leaves a text that has no whitespace at either end as it is.
pub proof fn lemma_trimmed_fixed(s: Seq<u8>)
    requires
        s.len() > 0 ==> !is_space(s.first()) && !is_space(s.last()),
    ensures
        trimmed(s) == s,
{
    if s.len() > 0 {
        assert(s.subrange(0, s.len() as int) =~= s);
    } else {
        assert(trimmed(s) =~= s);
    }
}

/// Trimming twice is trimming once.
pub proof fn lemma_trimmed_twice(s: Seq<u8>)
    ensures
        trimmed(trimmed(s)) == trimmed(s),
{
    lemma_trimmed(s);
    lemma_trimmed_fixed(trimmed(s));
}

/// The first position at or after `i` that holds the byte `c`, or the length
/// of `s` when there is none.
pub open spec fn find_byte(s: Seq<u8>, c: u8, i: int) -> int
    decreases s.len() - i,
{
    if 0 <= i < s.len() && s[i] != c {
        find_byte(s, c, i + 1)
    } else {
        i
    }
}

/// What [`find_byte`] returns: no `c` lies before it, and it stops on one.
pub proof fn lemma_find_byte(s: Seq<u8>, c: u8, i: int)
    requires
        0 <= i <= s.len(),
    ensures
        i <= find_byte(s, c, i) <= s.len(),
        forall|k: int| i <= k < find_byte(s, c, i) ==> #[trigger] s[k] != c,
        find_byte(s, c, i) < s.len() ==> s[find_byte(s, c, i)] == c,
    decreases s.len() - i,
{
    if i < s.len() && s[i] != c {
        lemma_find_byte(s, c, i + 1);
    }
}

/// The pieces of `s[i..]` between occurrences of the separator `c`.
pub open spec fn split_from(s: Seq<u8>, c: u8, i: int) -> Seq<Seq<u8>>
    decreases s.len() - i,
{
    let j = find_byte(s, c, i);
    if 0 <= i <= j < s.len() {
        seq![s.subrange(i, j)] + split_from(s, c, j + 1)
    } else {
        seq![s.subrange(i, s.len() as int)]
    }
}

/// The pieces of `s` between occurrences of the separator `c`: one more than
/// the number of separators, empty pieces included.
pub open spec fn split(s: Seq<u8>, c: u8) -> Seq<Seq<u8>> {
    split_from(s, c, 0)
}

/// Copies `s[a..b]`.
fn copy_range(s: &[u8], a: usize, b: usize) -> (r: Vec<u8>)
    requires
        a <= b <= s@.len(),
    ensures
        r@ == s@.subrange(a as int, b as int),
{
    slice_to_vec(slice_subrange(s, a, b))
}

/// Removes leading and trailing whitespace.
pub fn trim(s: &[u8]) -> (r: Vec<u8>)
    ensures
        r@ == trimmed(s@),
{
    let mut a: usize = 0;
    while a < s.len() && byte_is_space(s[a])
        invariant
            a <= s@.len(),
            skip_spaces(s@, 0) == skip_spaces(s@, a as int),
        decreases s@.len() - a,
    {
        a += 1;
    }
    let mut b: usize = s.len();
    while b > 0 && byte_is_space(s[b - 1])
        invariant
            b <= s@.len(),
            drop_spaces(s@, s@.len() as int) == drop_spaces(s@, b as int),
        decreases b,
    {
        b -= 1;
    }
    if a < b {
        copy_range(s, a, b)
    } else {
        Vec::new()
    }
}

/// Tells whether a line holds nothing but whitespace.
pub fn line_is_blank(s: &[u8]) -> (r: bool)
    ensures
        r == is_blank(s@),
{
    let mut i: usize = 0;
    while i < s.len()
        invariant
            i <= s@.len(),
            forall|k: int| 0 <= k < i ==> is_space(#[trigger] s@[k]),
        decreases s@.len() - i,
    {
        if !byte_is_space(s[i]) {
            return false;
        }
        i += 1;
    }
    true
}

/// Finds the first `c` at or after `from`; the length of `s` when there is
/// none, and `from` when that lies beyond the end of `s`.
pub fn position(s: &[u8], c: u8, from: usize) -> (r: usize)
    ensures
        r == find_byte(s@, c, from as int),
        from <= r,
        from <= s@.len() ==> r <= s@.len(),
{
    let mut i: usize = from;
    while i < s.len() && s[i] != c
        invariant
            from <= i,
            from <= s@.len() ==> i <= s@.len(),
            find_byte(s@, c, from as int) == find_byte(s@, c, i as int),
        decreases s@.len() - i,
    {
        i += 1;
    }
    i
}

/// Cuts `s` at every occurrence of the separator `c`.
pub fn split_bytes(s: &[u8], c: u8) -> (r: Vec<Vec<u8>>)
    ensures
        views(r@) == split(s@, c),
{
    let mut r: Vec<Vec<u8>> = Vec::new();
    let mut start: usize = 0;
    assert(views(r@) =~= Seq::<Seq<u8>>::empty());
    loop
        invariant
            start <= s@.len(),
            split(s@, c) == views(r@) + split_from(s@, c, start as int),
        decreases s@.len() - start,
    {
        let j = position(s, c, start);
        let ghost before = r@;
        if j < s.len() {
            let piece = copy_range(s, start, j);
            r.push(piece);
            proof {
                lemma_views_push(before, piece);
                assert(views(before).push(piece@) + split_from(s@, c, j + 1) =~= views(before) + (
                seq![piece@] + split_from(s@, c, j + 1)));
            }
            start = j + 1;
        } else {
            let piece = copy_range(s, start, s.len());
            r.push(piece);
            proof {
                lemma_views_push(before, piece);
                assert(views(before).push(piece@) =~= views(before) + seq![piece@]);
            }
            return r;
        }
    }
}

/// Compares two byte texts.
pub fn bytes_eq(a: &[u8], b: &[u8]) -> (r: bool)
    ensures
        r == (a@ == b@),
{
    if a.len() != b.len() {
        return false;
    }
    let mut i: usize = 0;
    while i < a.len()
        invariant
            i <= a@.len(),
            a@.len() == b@.len(),
            forall|k: int| 0 <= k < i ==> a@[k] == b@[k],
        decreases a@.len() - i,
    {
        if a[i] != b[i] {
            return false;
        }
        i += 1;
    }
    assert(a@ =~= b@);
    true
}

/// Tells whether `s` spells the word `w`.
pub fn is_word(s: &[u8], w: &str) -> (r: bool)
    ensures
        r == (s@ == word(w@)),
{
    bytes_eq(s, w.as_bytes())
}

/// The bytes that spell the word `w`.
pub fn word_bytes(w: &str) -> (r: Vec<u8>)
    ensures
        r@ == word(w@),
{
    slice_to_vec(w.as_bytes())
}

} // verus!
