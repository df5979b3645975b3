//! Character classes and sequence utilities used throughout the crate.
//!
//! All executable functions here are verified against spec functions over
//! `Seq<char>`; the only trusted item is the wrapper around `String::push`.

use vstd::prelude::*;

verus! {

// ------------------------------------------------------------------
// Character classes
// ------------------------------------------------------------------

/// The Unicode `White_Space` characters, written out in full.
pub open spec fn is_space_char(c: char) -> bool {
    ||| c == ' '
    ||| c == '\t'
    ||| c == '\n'
    ||| c == '\u{0B}'
    ||| c == '\u{0C}'
    ||| c == '\r'
    ||| c == '\u{85}'
    ||| c == '\u{A0}'
    ||| c == '\u{1680}'
    ||| (0x2000 <= c as u32 && c as u32 <= 0x200A)
    ||| c == '\u{2028}'
    ||| c == '\u{2029}'
    ||| c == '\u{202F}'
    ||| c == '\u{205F}'
    ||| c == '\u{3000}'
}

/// Decides the Unicode `White_Space` property.
pub fn is_space(c: char) -> (r: bool)
    ensures
        r == is_space_char(c),
{
    c == ' ' || c == '\t' || c == '\n' || c == '\u{0B}' || c == '\u{0C}' || c == '\r' || c
        == '\u{85}' || c == '\u{A0}' || c == '\u{1680}' || (0x2000 <= c as u32 && c as u32
        <= 0x200A) || c == '\u{2028}' || c == '\u{2029}' || c == '\u{202F}' || c == '\u{205F}' || c
        == '\u{3000}'
}

/// ASCII punctuation: `!`..`/`, `:`..`@`, `[`..`` ` ``, `{`..`~`.
pub open spec fn is_ascii_punct_char(c: char) -> bool {
    ||| (0x21 <= c as u32 && c as u32 <= 0x2F)
    ||| (0x3A <= c as u32 && c as u32 <= 0x40)
    ||| (0x5B <= c as u32 && c as u32 <= 0x60)
    ||| (0x7B <= c as u32 && c as u32 <= 0x7E)
}

/// Decides ASCII punctuation.
pub fn is_ascii_punct(c: char) -> (r: bool)
    ensures
        r == is_ascii_punct_char(c),
{
    let u = c as u32;
    (0x21 <= u && u <= 0x2F) || (0x3A <= u && u <= 0x40) || (0x5B <= u && u <= 0x60) || (0x7B <= u
        && u <= 0x7E)
}

pub open spec fn is_ascii_digit_char(c: char) -> bool {
    0x30 <= c as u32 && c as u32 <= 0x39
}

/// Decides ASCII digits `0`..`9`.
pub fn is_ascii_digit(c: char) -> (r: bool)
    ensures
        r == is_ascii_digit_char(c),
{
    let u = c as u32;
    0x30 <= u && u <= 0x39
}

pub open spec fn is_ascii_alpha_char(c: char) -> bool {
    (0x41 <= c as u32 && c as u32 <= 0x5A) || (0x61 <= c as u32 && c as u32 <= 0x7A)
}

pub open spec fn is_ascii_alnum_char(c: char) -> bool {
    is_ascii_digit_char(c) || is_ascii_alpha_char(c)
}

/// Decides ASCII alphanumeric characters.
pub fn is_ascii_alnum(c: char) -> (r: bool)
    ensures
        r == is_ascii_alnum_char(c),
{
    let u = c as u32;
    (0x30 <= u && u <= 0x39) || (0x41 <= u && u <= 0x5A) || (0x61 <= u && u <= 0x7A)
}

/// The set of characters accepted as CJK ideographs for transcription glyphs:
/// the Unicode blocks "CJK Unified Ideographs" and
/// "CJK Unified Ideographs Extension A".
pub open spec fn is_cjk_char(c: char) -> bool {
    (0x3400 <= c as u32 && c as u32 <= 0x4DBF) || (0x4E00 <= c as u32 && c as u32 <= 0x9FFF)
}

/// Decides membership in the two CJK ideograph blocks used for transcription.
pub fn is_cjk(c: char) -> (r: bool)
    ensures
        r == is_cjk_char(c),
{
    let u = c as u32;
    (0x3400 <= u && u <= 0x4DBF) || (0x4E00 <= u && u <= 0x9FFF)
}

/// The printable ASCII range `!`..=`~`, the class of key strings whose postfix
/// is introduced by a colon.
pub open spec fn is_ascii_printable_char(c: char) -> bool {
    0x21 <= c as u32 && c as u32 <= 0x7E
}

/// Decides the printable ASCII range `!`..=`~`.
pub fn is_ascii_printable(c: char) -> (r: bool)
    ensures
        r == is_ascii_printable_char(c),
{
    let u = c as u32;
    0x21 <= u && u <= 0x7E
}

// ------------------------------------------------------------------
// Conversions between `&str`, `Vec<char>` and `String`
// ------------------------------------------------------------------

/// Collects the characters of a string slice into a vector.
pub fn chars_vec(s: &str) -> (r: Vec<char>)
    ensures
        r@ == s@,
{
    let n = s.unicode_len();
    let mut r: Vec<char> = Vec::new();
    let mut i: usize = 0;
    while i < n
        invariant
            n == s@.len(),
            i <= n,
            r@ == s@.take(i as int),
        decreases n - i,
    {
        r.push(s.get_char(i));
        i = i + 1;
        assert(r@ =~= s@.take(i as int));
    }
    assert(s@.take(n as int) =~= s@);
    r
}

/// Relies on `String::push`: appends exactly the given character.
#[verifier::external_body]
pub(crate) fn push_char(s: &mut String, c: char)
    ensures
        final (s)@ == old(s)@.push(c),
{
    s.push(c);
}

/// Builds a `String` holding exactly the given characters.
pub fn chars_to_string(v: &Vec<char>) -> (r: String)
    ensures
        r@ == v@,
{
    let mut r = String::new();
    let mut i: usize = 0;
    while i < v.len()
        invariant
            i <= v@.len(),
            r@ == v@.take(i as int),
        decreases v@.len() - i,
    {
        push_char(&mut r, v[i]);
        i = i + 1;
        assert(r@ =~= v@.take(i as int));
    }
    assert(v@.take(v@.len() as int) =~= v@);
    r
}

/// Compares two character vectors element by element.
pub fn chars_eq(a: &Vec<char>, b: &Vec<char>) -> (r: bool)
    ensures
        r == (a@ == b@),
{
    if a.len() != b.len() {
        assert(a@ != b@);
        return false;
    }
    let mut i: usize = 0;
    while i < a.len()
        invariant
            i <= a@.len(),
            a@.len() == b@.len(),
            forall|j: int| 0 <= j < i ==> a@[j] == b@[j],
        decreases a@.len() - i,
    {
        if a[i] != b[i] {
            return false;
        }
        i = i + 1;
    }
    assert(a@ =~= b@);
    true
}

// ------------------------------------------------------------------
// Searching
// ------------------------------------------------------------------

/// The index of the first occurrence of `c` in `s`, or `-1` if there is none.
pub open spec fn first_index_of(s: Seq<char>, c: char) -> int
    decreases s.len(),
{
    if s.len() == 0 {
        -1
    } else if s[0] == c {
        0
    } else {
        let r = first_index_of(s.drop_first(), c);
        if r < 0 {
            -1
        } else {
            r + 1
        }
    }
}

pub proof fn lemma_first_index_of_at(s: Seq<char>, c: char, m: int)
    requires
        0 <= m < s.len(),
        s[m] == c,
        forall|j: int| 0 <= j < m ==> s[j] != c,
    ensures
        first_index_of(s, c) == m,
    decreases m,
{
    if m > 0 {
        lemma_first_index_of_at(s.drop_first(), c, m - 1);
    }
}

pub proof fn lemma_first_index_of_none(s: Seq<char>, c: char)
    requires
        forall|j: int| 0 <= j < s.len() ==> s[j] != c,
    ensures
        first_index_of(s, c) == -1,
    decreases s.len(),
{
    if s.len() > 0 {
        lemma_first_index_of_none(s.drop_first(), c);
    }
}

/// Finds the first occurrence of `c` in `s` at or after `start`.
pub fn find_char_from(s: &Vec<char>, start: usize, c: char) -> (r: Option<usize>)
    requires
        start <= s@.len(),
    ensures
        match r {
            Some(j) => start <= j < s@.len() && first_index_of(s@.skip(start as int), c) == j
                - start,
            None => first_index_of(s@.skip(start as int), c) == -1,
        },
{
    let mut i: usize = start;
    while i < s.len()
        invariant
            start <= i <= s@.len(),
            forall|j: int| start <= j < i ==> s@[j] != c,
        decreases s@.len() - i,
    {
        if s[i] == c {
            proof {
                assert(s@.skip(start as int)[i - start] == c);
                assert(forall|j: int|
                    0 <= j < i - start ==> s@.skip(start as int)[j] == s@[j + start] && s@[j
                        + start] != c);
                lemma_first_index_of_at(s@.skip(start as int), c, i - start);
            }
            return Some(i);
        }
        i = i + 1;
    }
    proof {
        assert(forall|j: int|
            0 <= j < s@.skip(start as int).len() ==> s@.skip(start as int)[j] == s@[j + start]
                && s@[j + start] != c);
        lemma_first_index_of_none(s@.skip(start as int), c);
    }
    None
}

pub open spec fn seq_contains_char(s: Seq<char>, c: char) -> bool {
    exists|i: int| 0 <= i < s.len() && s[i] == c
}

/// Decides whether `c` occurs in `s`.
pub fn contains_char(s: &Vec<char>, c: char) -> (r: bool)
    ensures
        r == seq_contains_char(s@, c),
{
    match find_char_from(s, 0, c) {
        Some(j) => {
            assert(s@.skip(0) =~= s@);
            proof {
                lemma_first_index_of_found(s@, c);
            }
            true
        },
        None => {
            assert(s@.skip(0) =~= s@);
            proof {
                lemma_first_index_of_found(s@, c);
            }
            false
        },
    }
}

/// The first index is nonnegative exactly when the character occurs.
pub proof fn lemma_first_index_of_found(s: Seq<char>, c: char)
    ensures
        seq_contains_char(s, c) <==> first_index_of(s, c) >= 0,
        first_index_of(s, c) >= 0 ==> first_index_of(s, c) < s.len() && s[first_index_of(s, c)]
            == c,
    decreases s.len(),
{
    if s.len() > 0 && s[0] != c {
        lemma_first_index_of_found(s.drop_first(), c);
        if seq_contains_char(s, c) {
            let i = choose|i: int| 0 <= i < s.len() && s[i] == c;
            assert(s.drop_first()[i - 1] == c);
        }
    }
}

} // verus!

verus! {

// ------------------------------------------------------------------
// Prefix tests and pattern search
// ------------------------------------------------------------------

pub open spec fn starts_with(s: Seq<char>, p: Seq<char>) -> bool {
    s.len() >= p.len() && s.take(p.len() as int) == p
}

/// Decides whether `s` starts with `p` at position `at`.
pub fn starts_with_at(s: &Vec<char>, at: usize, p: &Vec<char>) -> (r: bool)
    requires
        at <= s@.len(),
    ensures
        r == starts_with(s@.skip(at as int), p@),
{
    if s.len() - at < p.len() {
        return false;
    }
    let mut i: usize = 0;
    while i < p.len()
        invariant
            i <= p@.len(),
            at + p@.len() <= s@.len(),
            forall|j: int| 0 <= j < i ==> s@[at + j] == p@[j],
        decreases p@.len() - i,
    {
        assert(at + i < s.len());
        if s[at + i] != p[i] {
            assert(s@.skip(at as int).take(p@.len() as int)[i as int] != p@[i as int]);
            return false;
        }
        i = i + 1;
    }
    assert(s@.skip(at as int).take(p@.len() as int) =~= p@);
    true
}

/// The index of the first occurrence of the pattern `p` in `s`, or `-1`.
pub open spec fn first_pat_index(s: Seq<char>, p: Seq<char>) -> int
    decreases s.len(),
{
    if s.len() < p.len() {
        -1
    } else if starts_with(s, p) {
        0
    } else if s.len() == 0 {
        -1
    } else {
        let r = first_pat_index(s.drop_first(), p);
        if r < 0 {
            -1
        } else {
            r + 1
        }
    }
}

pub proof fn lemma_first_pat_index_at(s: Seq<char>, p: Seq<char>, m: int)
    requires
        0 <= m,
        m + p.len() <= s.len(),
        starts_with(s.skip(m), p),
        forall|j: int| 0 <= j < m ==> !starts_with(#[trigger] s.skip(j), p),
    ensures
        first_pat_index(s, p) == m,
    decreases m,
{
    assert(s.skip(0) =~= s);
    if m > 0 {
        assert forall|j: int| 0 <= j < m - 1 implies !starts_with(
            #[trigger] s.drop_first().skip(j),
            p,
        ) by {
            assert(s.drop_first().skip(j) =~= s.skip(j + 1));
        }
        assert(s.drop_first().skip(m - 1) =~= s.skip(m));
        lemma_first_pat_index_at(s.drop_first(), p, m - 1);
    }
}

pub proof fn lemma_first_pat_index_none(s: Seq<char>, p: Seq<char>)
    requires
        forall|j: int| 0 <= j <= s.len() - p.len() ==> !starts_with(#[trigger] s.skip(j), p),
    ensures
        first_pat_index(s, p) == -1,
    decreases s.len(),
{
    assert(s.skip(0) =~= s);
    if s.len() >= p.len() && s.len() > 0 {
        assert forall|j: int| 0 <= j <= s.drop_first().len() - p.len() implies !starts_with(
            #[trigger] s.drop_first().skip(j),
            p,
        ) by {
            assert(s.drop_first().skip(j) =~= s.skip(j + 1));
        }
        lemma_first_pat_index_none(s.drop_first(), p);
    }
}

/// Finds the first occurrence of pattern `p` in `s` at or after `start`.
pub fn find_pat_from(s: &Vec<char>, start: usize, p: &Vec<char>) -> (r: Option<usize>)
    requires
        start <= s@.len(),
        p@.len() >= 1,
    ensures
        match r {
            Some(j) => start <= j && j + p@.len() <= s@.len() && first_pat_index(
                s@.skip(start as int),
                p@,
            ) == j - start,
            None => first_pat_index(s@.skip(start as int), p@) == -1,
        },
{
    if p.len() > s.len() - start {
        proof {
            lemma_first_pat_index_none(s@.skip(start as int), p@);
        }
        return None;
    }
    let last = s.len() - p.len();
    let mut i: usize = start;
    while i <= last
        invariant
            start <= i,
            i <= last + 1,
            last == s.len() - p@.len(),
            last < s.len(),
            p@.len() >= 1,
            start <= s@.len(),
            forall|j: int| start <= j < i ==> !starts_with(#[trigger] s@.skip(j), p@),
        decreases last + 1 - i,
    {
        if starts_with_at(s, i, p) {
            proof {
                assert forall|j: int| 0 <= j < i - start implies !starts_with(
                    #[trigger] s@.skip(start as int).skip(j),
                    p@,
                ) by {
                    assert(s@.skip(start as int).skip(j) =~= s@.skip(start + j));
                }
                assert(s@.skip(start as int).skip(i - start) =~= s@.skip(i as int));
                lemma_first_pat_index_at(s@.skip(start as int), p@, i - start);
            }
            return Some(i);
        }
        i = i + 1;
    }
    proof {
        assert forall|j: int|
            0 <= j <= s@.skip(start as int).len() - p@.len() implies !starts_with(
            #[trigger] s@.skip(start as int).skip(j),
            p@,
        ) by {
            assert(s@.skip(start as int).skip(j) =~= s@.skip(start + j));
            if start + j < i {
            } else {
                assert(s@.skip(start + j).len() < p@.len());
            }
        }
        lemma_first_pat_index_none(s@.skip(start as int), p@);
    }
    None
}

pub open spec fn seq_contains_pat(s: Seq<char>, p: Seq<char>) -> bool {
    exists|i: int| 0 <= i && i + p.len() <= s.len() && #[trigger] s.subrange(i, i + p.len()) == p
}

/// Decides whether the pattern `p` occurs anywhere in `s`.
pub fn contains_pat(s: &Vec<char>, p: &Vec<char>) -> (r: bool)
    requires
        p@.len() >= 1,
    ensures
        r == seq_contains_pat(s@, p@),
{
    let r = find_pat_from(s, 0, p);
    proof {
        assert(s@.skip(0) =~= s@);
        lemma_first_pat_index_found(s@, p@);
        if r is Some {
            let j = first_pat_index(s@, p@);
            assert(s@.skip(j).take(p@.len() as int) =~= s@.subrange(j, j + p@.len()));
        }
        if seq_contains_pat(s@, p@) {
            let i = choose|i: int|
                0 <= i && i + p@.len() <= s@.len() && #[trigger] s@.subrange(i, i + p@.len())
                    == p@;
            assert(s@.skip(i).take(p@.len() as int) =~= s@.subrange(i, i + p@.len()));
            assert(starts_with(s@.skip(i), p@));
        }
    }
    r.is_some()
}

/// The first pattern index is nonnegative exactly when the pattern occurs
/// (for nonempty patterns).
pub proof fn lemma_first_pat_index_found(s: Seq<char>, p: Seq<char>)
    requires
        p.len() >= 1,
    ensures
        (exists|i: int| 0 <= i && i + p.len() <= s.len() && starts_with(#[trigger] s.skip(i), p))
            <==> first_pat_index(s, p) >= 0,
        first_pat_index(s, p) >= 0 ==> first_pat_index(s, p) + p.len() <= s.len() && starts_with(
            s.skip(first_pat_index(s, p)),
            p,
        ),
    decreases s.len(),
{
    assert(s.skip(0) =~= s);
    if s.len() >= p.len() && !starts_with(s, p) && s.len() > 0 {
        lemma_first_pat_index_found(s.drop_first(), p);
        if exists|i: int| 0 <= i && i + p.len() <= s.len() && starts_with(#[trigger] s.skip(i), p) {
            let i = choose|i: int|
                0 <= i && i + p.len() <= s.len() && starts_with(#[trigger] s.skip(i), p);
            assert(i >= 1);
            assert(s.drop_first().skip(i - 1) =~= s.skip(i));
        }
        if first_pat_index(s.drop_first(), p) >= 0 {
            let r = first_pat_index(s.drop_first(), p);
            assert(s.skip(r + 1) =~= s.drop_first().skip(r));
        }
    }
}

} // verus!

verus! {

// ------------------------------------------------------------------
// Building blocks for copying
// ------------------------------------------------------------------

/// Copies the characters of `s` in the index range `from..to`.
pub fn copy_range(s: &Vec<char>, from: usize, to: usize) -> (r: Vec<char>)
    requires
        from <= to <= s@.len(),
    ensures
        r@ == s@.subrange(from as int, to as int),
{
    let mut r: Vec<char> = Vec::new();
    let mut i: usize = from;
    while i < to
        invariant
            from <= i <= to <= s@.len(),
            r@ == s@.subrange(from as int, i as int),
        decreases to - i,
    {
        assert(i < s.len());
        r.push(s[i]);
        i = i + 1;
        assert(r@ =~= s@.subrange(from as int, i as int));
    }
    r
}

/// Appends all characters of `src` to `dst`.
pub fn append_chars(dst: &mut Vec<char>, src: &Vec<char>)
    ensures
        final (dst)@ == old(dst)@ + src@,
{
    let mut i: usize = 0;
    while i < src.len()
        invariant
            i <= src@.len(),
            dst@ == old(dst)@ + src@.take(i as int),
        decreases src@.len() - i,
    {
        dst.push(src[i]);
        i = i + 1;
        assert(dst@ =~= old(dst)@ + src@.take(i as int));
    }
    assert(old(dst)@ + src@.take(src@.len() as int) =~= old(dst)@ + src@);
}

// ------------------------------------------------------------------
// Replacement
// ------------------------------------------------------------------

/// Replaces every (leftmost, non-overlapping) occurrence of `pat` by `rep`.
pub open spec fn replace_pat(s: Seq<char>, pat: Seq<char>, rep: Seq<char>) -> Seq<char>
    decreases s.len(),
{
    if pat.len() == 0 || s.len() < pat.len() {
        s
    } else if starts_with(s, pat) {
        rep + replace_pat(s.skip(pat.len() as int), pat, rep)
    } else {
        seq![s[0]] + replace_pat(s.drop_first(), pat, rep)
    }
}

/// Replaces every occurrence of `pat` in `s` by `rep`, scanning left to right
/// without overlaps.
pub fn replace_all(s: &Vec<char>, pat: &Vec<char>, rep: &Vec<char>) -> (r: Vec<char>)
    requires
        pat@.len() >= 1,
    ensures
        r@ == replace_pat(s@, pat@, rep@),
{
    let mut out: Vec<char> = Vec::new();
    let mut i: usize = 0;
    proof {
        assert(s@.skip(0) =~= s@);
        assert(out@ + replace_pat(s@, pat@, rep@) =~= replace_pat(s@, pat@, rep@));
    }
    while i < s.len()
        invariant
            i <= s@.len(),
            pat@.len() >= 1,
            replace_pat(s@, pat@, rep@) == out@ + replace_pat(s@.skip(i as int), pat@, rep@),
        decreases s@.len() - i,
    {
        let ghost prev = out@;
        if starts_with_at(s, i, pat) {
            append_chars(&mut out, rep);
            let ghost old_i = i;
            i = i + pat.len();
            proof {
                assert(s@.skip(old_i as int).skip(pat@.len() as int) =~= s@.skip(i as int));
                assert(prev + (rep@ + replace_pat(s@.skip(i as int), pat@, rep@)) =~= out@
                    + replace_pat(s@.skip(i as int), pat@, rep@));
            }
        } else {
            assert(i < s.len());
            out.push(s[i]);
            i = i + 1;
            proof {
                let suf = s@.skip(i - 1);
                assert(suf.drop_first() =~= s@.skip(i as int));
                if suf.len() < pat@.len() {
                    assert(replace_pat(suf, pat@, rep@) == suf);
                    assert(replace_pat(suf.drop_first(), pat@, rep@) == suf.drop_first());
                    assert(suf =~= seq![suf[0]] + suf.drop_first());
                }
                assert(prev + (seq![s@[i - 1]] + replace_pat(s@.skip(i as int), pat@, rep@)) =~= out@
                    + replace_pat(s@.skip(i as int), pat@, rep@));
            }
        }
    }
    proof {
        assert(s@.skip(i as int).len() == 0);
        assert(replace_pat(s@.skip(i as int), pat@, rep@) =~= Seq::<char>::empty());
        assert(out@ + Seq::<char>::empty() =~= out@);
    }
    out
}

// ------------------------------------------------------------------
// Splitting
// ------------------------------------------------------------------

/// A class of separator characters for splitting.
#[derive(Clone, Copy)]
pub enum CharClass {
    /// Splits at one exact character.
    Exact(char),
    /// Splits at every Unicode whitespace character.
    Space,
    /// Splits at every whitespace or ASCII punctuation character,
    /// the token separator of romanized phrase text.
    SpaceOrPunct,
    /// The CJK ideographs accepted as transcription glyphs.
    Cjk,
    /// The sentence-final punctuation of transcriptions.
    SentencePunct,
    /// ASCII alphanumeric characters.
    AsciiAlnum,
    /// ASCII digits.
    AsciiDigit,
}

impl CharClass {
    pub open spec fn matches(self, c: char) -> bool {
        match self {
            CharClass::Exact(x) => c == x,
            CharClass::Space => is_space_char(c),
            CharClass::SpaceOrPunct => is_space_char(c) || is_ascii_punct_char(c),
            CharClass::Cjk => is_cjk_char(c),
            CharClass::SentencePunct => c == '\u{FF01}' || c == '\u{FF1F}' || c == '\u{3002}'
                || c == '\u{300C}' || c == '\u{300D}',
            CharClass::AsciiAlnum => is_ascii_alnum_char(c),
            CharClass::AsciiDigit => is_ascii_digit_char(c),
        }
    }

    /// Decides whether `c` belongs to this separator class.
    pub fn check(&self, c: char) -> (r: bool)
        ensures
            r == self.matches(c),
    {
        match self {
            CharClass::Exact(x) => c == *x,
            CharClass::Space => is_space(c),
            CharClass::SpaceOrPunct => is_space(c) || is_ascii_punct(c),
            CharClass::Cjk => is_cjk(c),
            CharClass::SentencePunct => c == '\u{FF01}' || c == '\u{FF1F}' || c == '\u{3002}'
                || c == '\u{300C}' || c == '\u{300D}',
            CharClass::AsciiAlnum => is_ascii_alnum(c),
            CharClass::AsciiDigit => is_ascii_digit(c),
        }
    }
}

/// The index of the first separator character in `s`, or `-1`.
pub open spec fn first_cls_index(s: Seq<char>, sep: CharClass) -> int
    decreases s.len(),
{
    if s.len() == 0 {
        -1
    } else if sep.matches(s[0]) {
        0
    } else {
        let r = first_cls_index(s.drop_first(), sep);
        if r < 0 {
            -1
        } else {
            r + 1
        }
    }
}

pub proof fn lemma_first_cls_index_at(s: Seq<char>, sep: CharClass, m: int)
    requires
        0 <= m < s.len(),
        sep.matches(s[m]),
        forall|j: int| 0 <= j < m ==> !sep.matches(s[j]),
    ensures
        first_cls_index(s, sep) == m,
    decreases m,
{
    if m > 0 {
        lemma_first_cls_index_at(s.drop_first(), sep, m - 1);
    }
}

pub proof fn lemma_first_cls_index_none(s: Seq<char>, sep: CharClass)
    requires
        forall|j: int| 0 <= j < s.len() ==> !sep.matches(s[j]),
    ensures
        first_cls_index(s, sep) == -1,
    decreases s.len(),
{
    if s.len() > 0 {
        lemma_first_cls_index_none(s.drop_first(), sep);
    }
}

/// The pieces of `s` between separator characters, separators not included.
/// Consecutive separators give empty pieces, as `str::split` does.
pub open spec fn split_cls(s: Seq<char>, sep: CharClass) -> Seq<Seq<char>>
    decreases s.len(),
{
    let i = first_cls_index(s, sep);
    if 0 <= i < s.len() {
        seq![s.take(i)] + split_cls(s.skip(i + 1), sep)
    } else {
        seq![s]
    }
}

/// Splits `s` at every character of the separator class.
pub fn split_chars(s: &Vec<char>, sep: CharClass) -> (r: Vec<Vec<char>>)
    ensures
        r.deep_view() == split_cls(s@, sep),
{
    let mut r: Vec<Vec<char>> = Vec::new();
    let mut start: usize = 0;
    proof {
        assert(s@.skip(0) =~= s@);
        assert(r.deep_view() + split_cls(s@, sep) =~= split_cls(s@, sep));
    }
    loop
        invariant
            start <= s@.len(),
            split_cls(s@, sep) == r.deep_view() + split_cls(s@.skip(start as int), sep),
        decreases s@.len() - start,
    {
        let mut j: usize = start;
        let mut found: bool = false;
        while j < s.len() && !found
            invariant
                start <= j <= s@.len(),
                forall|k: int| start <= k < j ==> !sep.matches(s@[k]),
                found ==> j < s@.len() && sep.matches(s@[j as int]),
            decreases s@.len() - j, (if found { 0int } else { 1int }),
        {
            if sep.check(s[j]) {
                found = true;
            } else {
                j = j + 1;
            }
        }
        let ghost suf = s@.skip(start as int);
        if found {
            proof {
                assert(suf[j - start] == s@[j as int]);
                assert(forall|k: int|
                    0 <= k < j - start ==> suf[k] == s@[k + start] && !sep.matches(s@[k + start]));
                lemma_first_cls_index_at(suf, sep, j - start);
                assert(suf.take(j - start) =~= s@.subrange(start as int, j as int));
                assert(suf.skip(j - start + 1) =~= s@.skip(j + 1));
            }
            let piece = copy_range(s, start, j);
            let ghost prev = r.deep_view();
            r.push(piece);
            proof {
                assert(r.deep_view() =~~= prev + seq![s@.subrange(start as int, j as int)]);
                assert(prev + (seq![suf.take(j - start)] + split_cls(s@.skip(j + 1), sep))
                    =~~= r.deep_view() + split_cls(s@.skip(j + 1), sep));
            }
            start = j + 1;
        } else {
            proof {
                assert(forall|k: int|
                    0 <= k < suf.len() ==> suf[k] == s@[k + start] && !sep.matches(s@[k + start]));
                lemma_first_cls_index_none(suf, sep);
                assert(suf =~= s@.subrange(start as int, s@.len() as int));
            }
            let piece = copy_range(s, start, s.len());
            let ghost prev = r.deep_view();
            r.push(piece);
            proof {
                assert(r.deep_view() =~~= prev + seq![suf]);
            }
            return r;
        }
    }
}

} // verus!

verus! {

// ------------------------------------------------------------------
// Splitting at a multi-character pattern
// ------------------------------------------------------------------

/// The pieces of `s` between (leftmost, non-overlapping) occurrences of the
/// pattern `pat`, as `str::split` with a string pattern.
pub open spec fn split_pat(s: Seq<char>, pat: Seq<char>) -> Seq<Seq<char>>
    decreases s.len(),
{
    let i = first_pat_index(s, pat);
    if pat.len() >= 1 && 0 <= i && i + pat.len() <= s.len() {
        seq![s.take(i)] + split_pat(s.skip(i + pat.len()), pat)
    } else {
        seq![s]
    }
}

/// Splits `s` at every occurrence of the pattern `pat`.
pub fn split_at_pat(s: &Vec<char>, pat: &Vec<char>) -> (r: Vec<Vec<char>>)
    requires
        pat@.len() >= 1,
    ensures
        r.deep_view() == split_pat(s@, pat@),
{
    let mut r: Vec<Vec<char>> = Vec::new();
    let mut start: usize = 0;
    proof {
        assert(s@.skip(0) =~= s@);
        assert(r.deep_view() + split_pat(s@, pat@) =~= split_pat(s@, pat@));
    }
    loop
        invariant
            start <= s@.len(),
            pat@.len() >= 1,
            split_pat(s@, pat@) == r.deep_view() + split_pat(s@.skip(start as int), pat@),
        decreases s@.len() - start,
    {
        let ghost suf = s@.skip(start as int);
        match find_pat_from(s, start, pat) {
            Some(j) => {
                proof {
                    lemma_first_pat_index_found(suf, pat@);
                    assert(suf.take(j - start) =~= s@.subrange(start as int, j as int));
                    assert(suf.skip(j - start + pat@.len()) =~= s@.skip(j + pat@.len()));
                }
                let piece = copy_range(s, start, j);
                let ghost prev = r.deep_view();
                r.push(piece);
                proof {
                    assert(r.deep_view() =~~= prev + seq![s@.subrange(start as int, j as int)]);
                    assert(prev + (seq![suf.take(j - start)] + split_pat(
                        s@.skip(j + pat@.len()),
                        pat@,
                    )) =~~= r.deep_view() + split_pat(s@.skip(j + pat@.len()), pat@));
                }
                proof {
                    assert(j + pat@.len() <= s.len());
                }
                start = j + pat.len();
            },
            None => {
                proof {
                    lemma_first_pat_index_found(suf, pat@);
                    assert(suf =~= s@.subrange(start as int, s@.len() as int));
                }
                let piece = copy_range(s, start, s.len());
                let ghost prev = r.deep_view();
                r.push(piece);
                proof {
                    assert(r.deep_view() =~~= prev + seq![suf]);
                }
                return r;
            },
        }
    }
}

// ------------------------------------------------------------------
// Joining
// ------------------------------------------------------------------

/// The concatenation of `parts` with `sep` between adjacent parts.
pub open spec fn join_with(parts: Seq<Seq<char>>, sep: Seq<char>) -> Seq<char>
    decreases parts.len(),
{
    if parts.len() == 0 {
        Seq::empty()
    } else if parts.len() == 1 {
        parts[0]
    } else {
        parts[0] + sep + join_with(parts.drop_first(), sep)
    }
}

/// Joins the parts with the separator between adjacent parts.
pub fn join_chars(parts: &Vec<Vec<char>>, sep: &Vec<char>) -> (r: Vec<char>)
    ensures
        r@ == join_with(parts.deep_view(), sep@),
{
    let ghost all = parts.deep_view();
    let mut out: Vec<char> = Vec::new();
    let mut i: usize = 0;
    while i < parts.len()
        invariant
            i <= parts@.len(),
            all == parts.deep_view(),
            all.len() == parts@.len(),
            i == 0 ==> out@ == Seq::<char>::empty(),
            0 < i < all.len() ==> join_with(all, sep@) == out@ + sep@ + join_with(
                all.skip(i as int),
                sep@,
            ),
            i == all.len() && i > 0 ==> join_with(all, sep@) == out@,
        decreases parts@.len() - i,
    {
        proof {
            assert(all[i as int] =~= parts@[i as int].deep_view());
        }
        if i > 0 {
            append_chars(&mut out, sep);
        }
        let ghost mid = out@;
        append_chars(&mut out, &parts[i]);
        proof {
            let rest = all.skip(i as int);
            assert(rest[0] == all[i as int]);
            assert(rest.drop_first() =~= all.skip(i + 1));
            if i == 0 {
                if all.len() == 1 {
                    assert(join_with(all, sep@) == all[0]);
                    assert(out@ =~= all[0]);
                } else {
                    assert(all.skip(0) =~= all);
                    assert(join_with(all, sep@) == all[0] + sep@ + join_with(all.skip(1), sep@));
                    assert(out@ + sep@ + join_with(all.skip(1), sep@) =~= join_with(all, sep@));
                }
            } else {
                if rest.len() == 1 {
                    assert(join_with(rest, sep@) == rest[0]);
                    assert(out@ =~= mid + all[i as int]);
                    assert(join_with(all, sep@) =~= out@);
                } else {
                    assert(join_with(rest, sep@) == rest[0] + sep@ + join_with(
                        rest.drop_first(),
                        sep@,
                    ));
                    assert(out@ + sep@ + join_with(all.skip(i + 1), sep@) =~= join_with(all, sep@));
                }
            }
        }
        i = i + 1;
    }
    out
}

// ------------------------------------------------------------------
// Runs, trimming and filtering
// ------------------------------------------------------------------

/// The length of the longest suffix of `s` made of characters of `cls`.
pub open spec fn trailing_run_len(s: Seq<char>, cls: CharClass) -> int
    decreases s.len(),
{
    if s.len() == 0 || !cls.matches(s.last()) {
        0
    } else {
        1 + trailing_run_len(s.drop_last(), cls)
    }
}

pub proof fn lemma_trailing_run_len_bounds(s: Seq<char>, cls: CharClass)
    ensures
        0 <= trailing_run_len(s, cls) <= s.len(),
        forall|k: int| s.len() - trailing_run_len(s, cls) <= k < s.len() ==> cls.matches(s[k]),
        trailing_run_len(s, cls) < s.len() ==> !cls.matches(s[s.len() - trailing_run_len(s, cls)
            - 1]),
    decreases s.len(),
{
    if s.len() > 0 && cls.matches(s.last()) {
        let t = s.drop_last();
        lemma_trailing_run_len_bounds(t, cls);
        assert forall|k: int|
            s.len() - trailing_run_len(s, cls) <= k < s.len() implies cls.matches(s[k]) by {
            if k < s.len() - 1 {
                assert(cls.matches(t[k]));
            }
        }
    }
}

/// Computes the length of the trailing run of characters of `cls`.
pub fn trailing_run(s: &Vec<char>, cls: CharClass) -> (r: usize)
    ensures
        r == trailing_run_len(s@, cls),
{
    let mut j: usize = s.len();
    while j > 0 && cls.check(s[j - 1])
        invariant
            j <= s@.len(),
            forall|k: int| j <= k < s@.len() ==> cls.matches(s@[k]),
        decreases j,
    {
        j = j - 1;
    }
    proof {
        lemma_trailing_run_at(s@, cls, s@.len() - j);
    }
    s.len() - j
}

pub proof fn lemma_trailing_run_at(s: Seq<char>, cls: CharClass, r: int)
    requires
        0 <= r <= s.len(),
        forall|k: int| s.len() - r <= k < s.len() ==> cls.matches(s[k]),
        r < s.len() ==> !cls.matches(s[s.len() - r - 1]),
    ensures
        trailing_run_len(s, cls) == r,
    decreases r,
{
    if r == 0 {
    } else {
        assert(cls.matches(s.last()));
        let t = s.drop_last();
        assert(forall|k: int| t.len() - (r - 1) <= k < t.len() ==> cls.matches(t[k]));
        lemma_trailing_run_at(t, cls, r - 1);
    }
}

/// The length of the longest prefix of `s` made of characters of `cls`.
pub open spec fn leading_run_len(s: Seq<char>, cls: CharClass) -> int
    decreases s.len(),
{
    if s.len() == 0 || !cls.matches(s[0]) {
        0
    } else {
        1 + leading_run_len(s.drop_first(), cls)
    }
}

pub proof fn lemma_leading_run_at(s: Seq<char>, cls: CharClass, r: int)
    requires
        0 <= r <= s.len(),
        forall|k: int| 0 <= k < r ==> cls.matches(s[k]),
        r < s.len() ==> !cls.matches(s[r]),
    ensures
        leading_run_len(s, cls) == r,
    decreases r,
{
    if r > 0 {
        lemma_leading_run_at(s.drop_first(), cls, r - 1);
    }
}

pub proof fn lemma_leading_run_len_bounds(s: Seq<char>, cls: CharClass)
    ensures
        0 <= leading_run_len(s, cls) <= s.len(),
        forall|k: int| 0 <= k < leading_run_len(s, cls) ==> cls.matches(s[k]),
        leading_run_len(s, cls) < s.len() ==> !cls.matches(s[leading_run_len(s, cls)]),
    decreases s.len(),
{
    if s.len() > 0 && cls.matches(s[0]) {
        let t = s.drop_first();
        lemma_leading_run_len_bounds(t, cls);
        assert forall|k: int| 0 <= k < leading_run_len(s, cls) implies cls.matches(s[k]) by {
            if k > 0 {
                assert(cls.matches(t[k - 1]));
            }
        }
    }
}

/// Computes the length of the leading run of characters of `cls`.
pub fn leading_run(s: &Vec<char>, cls: CharClass) -> (r: usize)
    ensures
        r == leading_run_len(s@, cls),
{
    let mut i: usize = 0;
    while i < s.len() && cls.check(s[i])
        invariant
            i <= s@.len(),
            forall|k: int| 0 <= k < i ==> cls.matches(s@[k]),
        decreases s@.len() - i,
    {
        i = i + 1;
    }
    proof {
        lemma_leading_run_at(s@, cls, i as int);
    }
    i
}

/// `s` with leading and trailing whitespace removed, as `str::trim`.
pub open spec fn trim_spec(s: Seq<char>) -> Seq<char> {
    let t = s.take(s.len() - trailing_run_len(s, CharClass::Space));
    t.skip(leading_run_len(t, CharClass::Space))
}

/// Removes leading and trailing whitespace.
pub fn trim(s: &Vec<char>) -> (r: Vec<char>)
    ensures
        r@ == trim_spec(s@),
{
    proof {
        lemma_trailing_run_len_bounds(s@, CharClass::Space);
    }
    let t = trailing_run(s, CharClass::Space);
    let cut = copy_range(s, 0, s.len() - t);
    proof {
        assert(cut@ =~= s@.take(s@.len() - trailing_run_len(s@, CharClass::Space)));
        lemma_leading_run_len_bounds(cut@, CharClass::Space);
    }
    let l = leading_run(&cut, CharClass::Space);
    copy_range(&cut, l, cut.len())
}

/// `s` with every character of `cls` removed.
pub open spec fn remove_cls(s: Seq<char>, cls: CharClass) -> Seq<char>
    decreases s.len(),
{
    if s.len() == 0 {
        s
    } else if cls.matches(s[0]) {
        remove_cls(s.drop_first(), cls)
    } else {
        seq![s[0]] + remove_cls(s.drop_first(), cls)
    }
}

/// Removes every character of `cls` from `s`.
pub fn remove_matching(s: &Vec<char>, cls: CharClass) -> (r: Vec<char>)
    ensures
        r@ == remove_cls(s@, cls),
{
    let mut out: Vec<char> = Vec::new();
    let mut i: usize = 0;
    proof {
        assert(s@.skip(0) =~= s@);
        assert(out@ + remove_cls(s@, cls) =~= remove_cls(s@, cls));
    }
    while i < s.len()
        invariant
            i <= s@.len(),
            remove_cls(s@, cls) == out@ + remove_cls(s@.skip(i as int), cls),
        decreases s@.len() - i,
    {
        let ghost prev = out@;
        let ghost suf = s@.skip(i as int);
        if !cls.check(s[i]) {
            out.push(s[i]);
        }
        i = i + 1;
        proof {
            assert(suf.drop_first() =~= s@.skip(i as int));
            if !cls.matches(suf[0]) {
                assert(prev + (seq![suf[0]] + remove_cls(s@.skip(i as int), cls)) =~= out@
                    + remove_cls(s@.skip(i as int), cls));
            }
        }
    }
    proof {
        assert(remove_cls(s@.skip(i as int), cls) =~= Seq::<char>::empty());
        assert(out@ + Seq::<char>::empty() =~= out@);
    }
    out
}

// ------------------------------------------------------------------
// Uppercasing
// ------------------------------------------------------------------

/// The characters that `char::to_uppercase` yields for `c`.
pub uninterp spec fn upper_chars(c: char) -> Seq<char>;

/// Relies on `char::to_uppercase`: the result is a function of the character
/// alone, given a name here and never otherwise constrained.
#[verifier::external_body]
pub(crate) fn char_to_uppercase(c: char) -> (r: Vec<char>)
    ensures
        r@ == upper_chars(c),
{
    c.to_uppercase().collect()
}

} // verus!

verus! {

/// Pushing onto a vector pushes the element's view onto the deep view.
pub proof fn lemma_deep_view_push<T: DeepView>(old_v: Vec<T>, new_v: Vec<T>, e: T)
    requires
        new_v@ == old_v@.push(e),
    ensures
        new_v.deep_view() == old_v.deep_view().push(e.deep_view()),
{
    assert(new_v.deep_view() =~= old_v.deep_view().push(e.deep_view()));
}

} // verus!

verus! {

/// Computes the length of the run of characters of `cls` starting at `start`.
pub fn run_from(s: &Vec<char>, start: usize, cls: CharClass) -> (r: usize)
    requires
        start <= s@.len(),
    ensures
        r == leading_run_len(s@.skip(start as int), cls),
        start + r <= s@.len(),
{
    let mut i: usize = start;
    while i < s.len() && cls.check(s[i])
        invariant
            start <= i <= s@.len(),
            forall|k: int| start <= k < i ==> cls.matches(s@[k]),
        decreases s@.len() - i,
    {
        i = i + 1;
    }
    proof {
        let suf = s@.skip(start as int);
        assert(forall|k: int| 0 <= k < i - start ==> suf[k] == s@[k + start]);
        lemma_leading_run_at(suf, cls, i - start);
    }
    i - start
}

} // verus!

verus! {

// ------------------------------------------------------------------
// Repetition and line splitting
// ------------------------------------------------------------------

/// `s` repeated `n` times.
pub open spec fn repeat_seq(s: Seq<char>, n: nat) -> Seq<char>
    decreases n,
{
    if n == 0 {
        Seq::empty()
    } else {
        s + repeat_seq(s, (n - 1) as nat)
    }
}

pub proof fn lemma_repeat_snoc(s: Seq<char>, n: nat)
    ensures
        repeat_seq(s, n + 1) == repeat_seq(s, n) + s,
    decreases n,
{
    if n == 0 {
        assert(repeat_seq(s, 0) == Seq::<char>::empty());
        assert(repeat_seq(s, 1) == s + repeat_seq(s, 0));
        assert(s + Seq::<char>::empty() =~= s);
        assert(repeat_seq(s, 0) + s =~= s);
    } else {
        lemma_repeat_snoc(s, (n - 1) as nat);
        assert(s + (repeat_seq(s, (n - 1) as nat) + s) =~= (s + repeat_seq(s, (n - 1) as nat)) + s);
    }
}

/// Repeats the characters `n` times.
pub fn repeat_chars(s: &Vec<char>, n: usize) -> (r: Vec<char>)
    ensures
        r@ == repeat_seq(s@, n as nat),
{
    let mut out: Vec<char> = Vec::new();
    let mut i: usize = 0;
    proof {
        assert(out@ =~= repeat_seq(s@, 0));
    }
    while i < n
        invariant
            i <= n,
            out@ == repeat_seq(s@, i as nat),
        decreases n - i,
    {
        append_chars(&mut out, s);
        i = i + 1;
        proof {
            lemma_repeat_snoc(s@, (i - 1) as nat);
        }
    }
    out
}

/// A line with one trailing carriage return removed.
pub open spec fn strip_cr(l: Seq<char>) -> Seq<char> {
    if l.len() > 0 && l.last() == '\r' {
        l.drop_last()
    } else {
        l
    }
}

/// The lines of a text, as `str::lines`: pieces between newlines, a final
/// empty piece dropped, one trailing carriage return removed per line.
pub open spec fn lines_spec(s: Seq<char>) -> Seq<Seq<char>> {
    if s.len() == 0 {
        Seq::empty()
    } else {
        let parts = split_cls(s, CharClass::Exact('\n'));
        let kept = if parts.last().len() == 0 {
            parts.drop_last()
        } else {
            parts
        };
        kept.map_values(|l: Seq<char>| strip_cr(l))
    }
}

pub proof fn lemma_split_cls_nonempty(s: Seq<char>, sep: CharClass)
    ensures
        split_cls(s, sep).len() >= 1,
    decreases s.len(),
{
}

/// Splits a text into its lines.
pub fn lines_vec(s: &Vec<char>) -> (r: Vec<Vec<char>>)
    ensures
        r.deep_view() == lines_spec(s@),
{
    if s.len() == 0 {
        let r: Vec<Vec<char>> = Vec::new();
        assert(r.deep_view() =~= lines_spec(s@));
        return r;
    }
    let mut parts = split_chars(s, CharClass::Exact('\n'));
    proof {
        lemma_split_cls_nonempty(s@, CharClass::Exact('\n'));
        assert(parts.deep_view().len() == parts@.len());
        assert(parts.deep_view().last() == parts@[parts@.len() - 1]@);
    }
    let last_len = parts[parts.len() - 1].len();
    if last_len == 0 {
        let ghost before = parts.deep_view();
        let popped = parts.pop();
        proof {
            assert(parts.deep_view() =~= before.drop_last());
        }
    }
    let ghost kept = parts.deep_view();
    let mut out: Vec<Vec<char>> = Vec::new();
    let mut i: usize = 0;
    proof {
        assert(out.deep_view() =~= kept.take(0).map_values(|l: Seq<char>| strip_cr(l)));
    }
    while i < parts.len()
        invariant
            i <= parts@.len(),
            kept == parts.deep_view(),
            kept.len() == parts@.len(),
            out.deep_view() == kept.take(i as int).map_values(|l: Seq<char>| strip_cr(l)),
        decreases parts@.len() - i,
    {
        proof {
            assert(kept[i as int] == parts@[i as int]@);
        }
        let line = &parts[i];
        let piece = if line.len() > 0 && line[line.len() - 1] == '\r' {
            copy_range(line, 0, line.len() - 1)
        } else {
            copy_range(line, 0, line.len())
        };
        proof {
            if line@.len() > 0 && line@.last() == '\r' {
                assert(piece@ =~= strip_cr(kept[i as int]));
            } else {
                assert(piece@ =~= strip_cr(kept[i as int]));
            }
        }
        let ghost old_out = out;
        out.push(piece);
        i = i + 1;
        proof {
            lemma_deep_view_push(old_out, out, piece);
            assert(piece.deep_view() =~= piece@);
            assert(old_out.deep_view().push(strip_cr(kept[i - 1])) =~= kept.take(
                i as int,
            ).map_values(|l: Seq<char>| strip_cr(l)));
        }
    }
    proof {
        assert(kept.take(kept.len() as int) =~= kept);
    }
    out
}

} // verus!
