//! The cross-representation consistency checks: the sentence aligner that
//! walks a transcription against its syllable sequence, the vocabulary
//! aligner that does the same inside one dictionary entry, the glyph usage
//! counter, the decomposition resolver, and the `DataBundle` aggregate.

use crate::read::char_pronunciation::{CharSoundTable, Linzklar, NonRecommendedCharTable};
use crate::read::contraction::SoundTable;
use crate::read::phrase::{self, ExtSyllable};
use crate::read::vocab::{self, Catalog, InternalKey, KeyV, SplittableCompoundInfo};
use crate::rerrliratixka::PekZepSyllable;
use crate::text::{self, CharClass};
use vstd::prelude::*;

verus! {

// ------------------------------------------------------------------
// Shared table membership and the skip set
// ------------------------------------------------------------------

/// The view of the glyph-pronunciation table.
pub open spec fn char_tab_view(tab: Seq<(Linzklar, PekZepSyllable)>) -> Seq<(
    char,
    PekZepSyllable,
)> {
    tab.map_values(|e: (Linzklar, PekZepSyllable)| (e.0@, e.1))
}

/// The view of the contraction table.
pub open spec fn contr_tab_view(
    tab: Seq<(crate::read::char_pronunciation::LinzklarString, PekZepSyllable)>,
) -> Seq<(Seq<char>, PekZepSyllable)> {
    tab.map_values(
        |e: (crate::read::char_pronunciation::LinzklarString, PekZepSyllable)| (e.0@, e.1),
    )
}

/// Whether the glyph table reads glyph `c` as syllable `syl`.
pub open spec fn char_tab_has(tab: Seq<(char, PekZepSyllable)>, c: char, syl: PekZepSyllable) -> bool {
    exists|i: int| 0 <= i < tab.len() && #[trigger] tab[i] == (c, syl)
}

/// Whether the contraction table reads the glyph run as syllable `syl`.
pub open spec fn contr_tab_has(
    tab: Seq<(Seq<char>, PekZepSyllable)>,
    run: Seq<char>,
    syl: PekZepSyllable,
) -> bool {
    exists|i: int| 0 <= i < tab.len() && #[trigger] tab[i] == (run, syl)
}

/// Decides glyph-table membership.
pub fn char_sound_found(tab: &CharSoundTable, c: char, syl: PekZepSyllable) -> (r: bool)
    ensures
        r == char_tab_has(char_tab_view(tab@), c, syl),
{
    let ghost tv = char_tab_view(tab@);
    let mut i: usize = 0;
    while i < tab.len()
        invariant
            i <= tab@.len(),
            tv == char_tab_view(tab@),
            tv.len() == tab@.len(),
            forall|j: int| 0 <= j < i ==> #[trigger] tv[j] != (c, syl),
        decreases tab@.len() - i,
    {
        assert(tv[i as int] == (tab@[i as int].0@, tab@[i as int].1));
        if tab[i].0.as_char() == c && tab[i].1 == syl {
            return true;
        }
        i = i + 1;
    }
    false
}

/// Decides whether a glyph run is exactly the given characters.
fn run_eq_chars(ls: &crate::read::char_pronunciation::LinzklarString, run: &Vec<char>) -> (r: bool)
    ensures
        r == (ls@ == run@),
{
    if ls.0.len() != run.len() {
        assert(ls@.len() == ls.0@.len());
        return false;
    }
    let mut i: usize = 0;
    while i < run.len()
        invariant
            i <= run@.len(),
            ls.0@.len() == run@.len(),
            forall|j: int| 0 <= j < i ==> ls.0@[j]@ == run@[j],
        decreases run@.len() - i,
    {
        if ls.0[i].as_char() != run[i] {
            assert(ls@[i as int] != run@[i as int]);
            return false;
        }
        i = i + 1;
    }
    assert(ls@ =~= run@);
    true
}

/// Decides contraction-table membership.
pub fn contraction_found(tab: &SoundTable, run: &Vec<char>, syl: PekZepSyllable) -> (r: bool)
    ensures
        r == contr_tab_has(contr_tab_view(tab@), run@, syl),
{
    let ghost tv = contr_tab_view(tab@);
    let mut i: usize = 0;
    while i < tab.len()
        invariant
            i <= tab@.len(),
            tv == contr_tab_view(tab@),
            tv.len() == tab@.len(),
            forall|j: int| 0 <= j < i ==> #[trigger] tv[j] != (run@, syl),
        decreases tab@.len() - i,
    {
        assert(tv[i as int] == (tab@[i as int].0@, tab@[i as int].1));
        if run_eq_chars(&tab[i].0, run) && tab[i].1 == syl {
            return true;
        }
        i = i + 1;
    }
    false
}

/// The characters an aligner steps over without consuming a syllable:
/// whitespace, ASCII punctuation, and the sentence punctuation `！？「」。`.
pub open spec fn is_skip_char(c: char) -> bool {
    text::is_space_char(c) || text::is_ascii_punct_char(c) || CharClass::SentencePunct.matches(c)
}

/// Decides the skip set.
pub fn is_skip(c: char) -> (r: bool)
    ensures
        r == is_skip_char(c),
{
    text::is_space(c) || text::is_ascii_punct(c) || CharClass::SentencePunct.check(c)
}

// ------------------------------------------------------------------
// The sentence aligner
// ------------------------------------------------------------------

/// The ways one sentence can fail to align.
#[derive(Debug, Clone, PartialEq)]
pub enum SentenceAlignError {
    /// A `«` without a closing `»`.
    UnmatchedGuillemet,
    /// The transcription asks for another syllable but the sequence is spent.
    SyllablesExhausted,
    /// No contraction-table row pairs this run with the expected slot.
    ContractionNotFound { run: Vec<char>, expected: ExtSyllable },
    /// An `x` in the transcription not followed by `izi`.
    XiziExpected,
    /// A `xizi` in the transcription whose slot is not the `xizi` token.
    XiziMismatch,
    /// No glyph-table row pairs this glyph with the expected slot.
    GlyphNotFound { glyph: char, expected: ExtSyllable },
    /// The transcription ended while syllables remain.
    LeftoverSyllables { next: ExtSyllable },
}

/// The view of a sentence alignment failure.
pub enum SentenceAlignErrV {
    UnmatchedGuillemet,
    SyllablesExhausted,
    ContractionNotFound { run: Seq<char>, expected: ExtSyllable },
    XiziExpected,
    XiziMismatch,
    GlyphNotFound { glyph: char, expected: ExtSyllable },
    LeftoverSyllables { next: ExtSyllable },
}

pub open spec fn sentence_align_error_view(e: SentenceAlignError) -> SentenceAlignErrV {
    match e {
        SentenceAlignError::UnmatchedGuillemet => SentenceAlignErrV::UnmatchedGuillemet,
        SentenceAlignError::SyllablesExhausted => SentenceAlignErrV::SyllablesExhausted,
        SentenceAlignError::ContractionNotFound { run, expected } => SentenceAlignErrV::ContractionNotFound {
            run: run@,
            expected,
        },
        SentenceAlignError::XiziExpected => SentenceAlignErrV::XiziExpected,
        SentenceAlignError::XiziMismatch => SentenceAlignErrV::XiziMismatch,
        SentenceAlignError::GlyphNotFound { glyph, expected } => SentenceAlignErrV::GlyphNotFound {
            glyph,
            expected,
        },
        SentenceAlignError::LeftoverSyllables { next } => SentenceAlignErrV::LeftoverSyllables {
            next,
        },
    }
}

/// The sentence alignment walk: the transcription `t` is scanned left to
/// right against the syllable sequence `k`. Skip characters consume nothing;
/// a `«...»` span must pair with the next slot in the contraction table; an
/// `x` must open a literal `xizi` holding the `xizi` slot; any other glyph
/// must pair with the next slot in the glyph table; at the end of the
/// transcription no slot may remain.
pub open spec fn sentence_align(
    t: Seq<char>,
    k: Seq<ExtSyllable>,
    chars: Seq<(char, PekZepSyllable)>,
    contr: Seq<(Seq<char>, PekZepSyllable)>,
) -> Result<(), SentenceAlignErrV>
    decreases t.len(),
{
    if t.len() == 0 {
        if k.len() == 0 {
            Ok(())
        } else {
            Err(SentenceAlignErrV::LeftoverSyllables { next: k[0] })
        }
    } else {
        let c = t[0];
        if is_skip_char(c) {
            sentence_align(t.drop_first(), k, chars, contr)
        } else if c == '«' {
            let j = text::first_index_of(t, '»');
            if !(0 <= j && j < t.len()) {
                Err(SentenceAlignErrV::UnmatchedGuillemet)
            } else {
                let run = t.subrange(1, j);
                if k.len() == 0 {
                    Err(SentenceAlignErrV::SyllablesExhausted)
                } else if k[0] matches ExtSyllable::Syllable(syl) && contr_tab_has(
                    contr,
                    run,
                    syl,
                ) {
                    sentence_align(t.skip(j + 1), k.drop_first(), chars, contr)
                } else {
                    Err(SentenceAlignErrV::ContractionNotFound { run, expected: k[0] })
                }
            }
        } else if c == 'x' {
            if t.len() >= 4 && t[1] == 'i' && t[2] == 'z' && t[3] == 'i' {
                if k.len() > 0 && k[0] == ExtSyllable::Xizi {
                    sentence_align(t.skip(4), k.drop_first(), chars, contr)
                } else {
                    Err(SentenceAlignErrV::XiziMismatch)
                }
            } else {
                Err(SentenceAlignErrV::XiziExpected)
            }
        } else {
            if k.len() == 0 {
                Err(SentenceAlignErrV::SyllablesExhausted)
            } else if k[0] matches ExtSyllable::Syllable(syl) && char_tab_has(chars, c, syl) {
                sentence_align(t.drop_first(), k.drop_first(), chars, contr)
            } else {
                Err(SentenceAlignErrV::GlyphNotFound { glyph: c, expected: k[0] })
            }
        }
    }
}

/// Aligns one sentence: walks its transcription against its syllable
/// sequence, consuming both streams exactly.
pub fn align_sentence(
    hanzi: &str,
    syllables: &Vec<ExtSyllable>,
    chars: &CharSoundTable,
    contractions: &SoundTable,
) -> (r: Result<(), SentenceAlignError>)
    ensures
        match r {
            Ok(()) => sentence_align(
                hanzi@,
                syllables@,
                char_tab_view(chars@),
                contr_tab_view(contractions@),
            ) is Ok,
            Err(e) => sentence_align(
                hanzi@,
                syllables@,
                char_tab_view(chars@),
                contr_tab_view(contractions@),
            ) == Err::<(), SentenceAlignErrV>(sentence_align_error_view(e)),
        },
{
    let t = text::chars_vec(hanzi);
    let ghost cv = char_tab_view(chars@);
    let ghost xv = contr_tab_view(contractions@);
    let mut i: usize = 0;
    let mut j: usize = 0;
    proof {
        assert(t@.skip(0) =~= t@);
        assert(syllables@.skip(0) =~= syllables@);
    }
    while i < t.len()
        invariant
            i <= t@.len(),
            j <= syllables@.len(),
            t@ == hanzi@,
            cv == char_tab_view(chars@),
            xv == contr_tab_view(contractions@),
            sentence_align(hanzi@, syllables@, cv, xv) == sentence_align(
                t@.skip(i as int),
                syllables@.skip(j as int),
                cv,
                xv,
            ),
        decreases t@.len() - i,
    {
        let ghost suf = t@.skip(i as int);
        let ghost ks = syllables@.skip(j as int);
        proof {
            assert(suf[0] == t@[i as int]);
            assert(suf.drop_first() =~= t@.skip(i + 1));
        }
        let c = t[i];
        if is_skip(c) {
            i = i + 1;
        } else if c == '«' {
            let close = match text::find_char_from(&t, i, '»') {
                None => {
                    proof {
                        text::lemma_first_index_of_found(suf, '»');
                    }
                    return Err(SentenceAlignError::UnmatchedGuillemet);
                },
                Some(cl) => cl,
            };
            proof {
                text::lemma_first_index_of_found(suf, '»');
                assert(suf.subrange(1, close - i) =~= t@.subrange(i + 1, close as int));
                assert(suf.skip(close - i + 1) =~= t@.skip(close + 1));
            }
            let run = text::copy_range(&t, i + 1, close);
            if j == syllables.len() {
                assert(ks.len() == 0);
                return Err(SentenceAlignError::SyllablesExhausted);
            }
            assert(ks[0] == syllables@[j as int]);
            let expected = syllables[j];
            let matched = match expected {
                ExtSyllable::Syllable(syl) => contraction_found(contractions, &run, syl),
                ExtSyllable::Xizi => false,
            };
            if matched {
                proof {
                    assert(ks.drop_first() =~= syllables@.skip(j + 1));
                }
                i = close + 1;
                j = j + 1;
            } else {
                return Err(SentenceAlignError::ContractionNotFound { run, expected });
            }
        } else if c == 'x' {
            if t.len() - i >= 4 && t[i + 1] == 'i' && t[i + 2] == 'z' && t[i + 3] == 'i' {
                assert(suf.len() >= 4 && suf[1] == 'i' && suf[2] == 'z' && suf[3] == 'i');
                if j < syllables.len() && syllables[j] == ExtSyllable::Xizi {
                    proof {
                        assert(ks[0] == syllables@[j as int]);
                        assert(ks.drop_first() =~= syllables@.skip(j + 1));
                        assert(suf.skip(4) =~= t@.skip(i + 4));
                    }
                    i = i + 4;
                    j = j + 1;
                } else {
                    proof {
                        if j < syllables@.len() {
                            assert(ks[0] == syllables@[j as int]);
                        }
                    }
                    return Err(SentenceAlignError::XiziMismatch);
                }
            } else {
                proof {
                    if t@.len() - i >= 4 {
                        assert(suf[1] == t@[i + 1] && suf[2] == t@[i + 2] && suf[3] == t@[i + 3]);
                    }
                }
                return Err(SentenceAlignError::XiziExpected);
            }
        } else {
            if j == syllables.len() {
                assert(ks.len() == 0);
                return Err(SentenceAlignError::SyllablesExhausted);
            }
            assert(ks[0] == syllables@[j as int]);
            let expected = syllables[j];
            let matched = match expected {
                ExtSyllable::Syllable(syl) => char_sound_found(chars, c, syl),
                ExtSyllable::Xizi => false,
            };
            if matched {
                proof {
                    assert(ks.drop_first() =~= syllables@.skip(j + 1));
                }
                i = i + 1;
                j = j + 1;
            } else {
                return Err(SentenceAlignError::GlyphNotFound { glyph: c, expected });
            }
        }
    }
    proof {
        assert(t@.skip(i as int).len() == 0);
    }
    if j < syllables.len() {
        assert(syllables@.skip(j as int)[0] == syllables@[j as int]);
        Err(SentenceAlignError::LeftoverSyllables { next: syllables[j] })
    } else {
        assert(syllables@.skip(j as int).len() == 0);
        Ok(())
    }
}

} // verus!

verus! {

// ------------------------------------------------------------------
// Alignment totality
// ------------------------------------------------------------------

/// How many syllable slots a transcription demands: one per contraction span,
/// one per `xizi`, one per ordinary glyph, none for skip characters.
pub open spec fn slot_count(t: Seq<char>) -> int
    decreases t.len(),
{
    if t.len() == 0 {
        0
    } else {
        let c = t[0];
        if is_skip_char(c) {
            slot_count(t.drop_first())
        } else if c == '«' {
            let j = text::first_index_of(t, '»');
            if 0 <= j && j < t.len() {
                1 + slot_count(t.skip(j + 1))
            } else {
                0
            }
        } else if c == 'x' {
            if t.len() >= 4 && t[1] == 'i' && t[2] == 'z' && t[3] == 'i' {
                1 + slot_count(t.skip(4))
            } else {
                0
            }
        } else {
            1 + slot_count(t.drop_first())
        }
    }
}

/// Alignment totality: a sentence that aligns has consumed its two streams
/// exactly. The number of syllables in its sequence equals the number of
/// slots its transcription demands, so the glyph cursor reaches the end of
/// the transcription exactly when the syllable cursor reaches the end of the
/// sequence.
pub proof fn lemma_alignment_totality(
    t: Seq<char>,
    k: Seq<ExtSyllable>,
    chars: Seq<(char, PekZepSyllable)>,
    contr: Seq<(Seq<char>, PekZepSyllable)>,
)
    requires
        sentence_align(t, k, chars, contr) is Ok,
    ensures
        slot_count(t) == k.len(),
    decreases t.len(),
{
    if t.len() == 0 {
    } else {
        let c = t[0];
        if is_skip_char(c) {
            lemma_alignment_totality(t.drop_first(), k, chars, contr);
        } else if c == '«' {
            let j = text::first_index_of(t, '»');
            lemma_alignment_totality(t.skip(j + 1), k.drop_first(), chars, contr);
        } else if c == 'x' {
            lemma_alignment_totality(t.skip(4), k.drop_first(), chars, contr);
        } else {
            lemma_alignment_totality(t.drop_first(), k.drop_first(), chars, contr);
        }
    }
}

// ------------------------------------------------------------------
// Whole-corpus sentence checking, accumulating every failure
// ------------------------------------------------------------------

/// The sentence alignment failures over the whole corpus, each with the index
/// of its row.
pub open spec fn sentence_errors_fold(
    rows: Seq<(Seq<ExtSyllable>, phrase::ItemV)>,
    at: int,
    chars: Seq<(char, PekZepSyllable)>,
    contr: Seq<(Seq<char>, PekZepSyllable)>,
    acc: Seq<(int, SentenceAlignErrV)>,
) -> Seq<(int, SentenceAlignErrV)>
    decreases rows.len(),
{
    if rows.len() == 0 {
        acc
    } else {
        match sentence_align(rows[0].1.pekzep_hanzi, rows[0].0, chars, contr) {
            Ok(()) => sentence_errors_fold(rows.drop_first(), at + 1, chars, contr, acc),
            Err(e) => sentence_errors_fold(
                rows.drop_first(),
                at + 1,
                chars,
                contr,
                acc.push((at, e)),
            ),
        }
    }
}

pub open spec fn sentence_error_list_view(v: Seq<(usize, SentenceAlignError)>) -> Seq<(
    int,
    SentenceAlignErrV,
)> {
    v.map_values(|e: (usize, SentenceAlignError)| (e.0 as int, sentence_align_error_view(e.1)))
}

/// Checks the pronunciation of every sentence of the corpus against the glyph
/// and contraction tables, and gathers every failing row rather than stopping
/// at the first.
pub fn check_sentence_pronunciation(
    rows: &Vec<(Vec<ExtSyllable>, phrase::Item)>,
    chars: &CharSoundTable,
    contractions: &SoundTable,
) -> (r: Result<(), Vec<(usize, SentenceAlignError)>>)
    ensures
        ({
            let errs = sentence_errors_fold(
                phrase::pairs_view(rows@),
                0,
                char_tab_view(chars@),
                contr_tab_view(contractions@),
                Seq::empty(),
            );
            match r {
                Ok(()) => errs.len() == 0,
                Err(es) => errs.len() > 0 && sentence_error_list_view(es@) == errs,
            }
        }),
{
    let ghost rv = phrase::pairs_view(rows@);
    let ghost cv = char_tab_view(chars@);
    let ghost xv = contr_tab_view(contractions@);
    let mut errs: Vec<(usize, SentenceAlignError)> = Vec::new();
    let mut i: usize = 0;
    proof {
        assert(rv.skip(0) =~= rv);
        assert(sentence_error_list_view(errs@) =~= Seq::<(int, SentenceAlignErrV)>::empty());
    }
    while i < rows.len()
        invariant
            i <= rows@.len(),
            rv == phrase::pairs_view(rows@),
            rv.len() == rows@.len(),
            cv == char_tab_view(chars@),
            xv == contr_tab_view(contractions@),
            sentence_errors_fold(rv, 0, cv, xv, Seq::empty()) == sentence_errors_fold(
                rv.skip(i as int),
                i as int,
                cv,
                xv,
                sentence_error_list_view(errs@),
            ),
        decreases rows@.len() - i,
    {
        let ghost suf = rv.skip(i as int);
        proof {
            assert(suf[0] == rv[i as int]);
            assert(rv[i as int] == (rows@[i as int].0@, rows@[i as int].1@));
            assert(suf.drop_first() =~= rv.skip(i + 1));
        }
        match align_sentence(rows[i].1.pekzep_hanzi.as_str(), &rows[i].0, chars, contractions) {
            Ok(()) => {},
            Err(e) => {
                let ghost prev = sentence_error_list_view(errs@);
                let ghost ev = sentence_align_error_view(e);
                errs.push((i, e));
                proof {
                    assert(sentence_error_list_view(errs@) =~= prev.push((i as int, ev)));
                }
            },
        }
        i = i + 1;
    }
    proof {
        assert(rv.skip(i as int).len() == 0);
    }
    if errs.len() == 0 {
        proof {
            assert(sentence_error_list_view(errs@).len() == 0);
        }
        Ok(())
    } else {
        proof {
            assert(sentence_error_list_view(errs@).len() > 0);
        }
        Err(errs)
    }
}

} // verus!

verus! {

// ------------------------------------------------------------------
// Glyph usage counting
// ------------------------------------------------------------------

/// The ways glyph counting can fail.
#[derive(Debug, Clone, Copy, PartialEq, Eq, Structural)]
pub enum CharCountError {
    /// A `«` without a closing `»`.
    UnmatchedGuillemet,
    /// A counted character outside the glyph blocks.
    NotAGlyph(char),
    /// An `x` in the transcription not followed by `izi`.
    XiziExpected,
}

/// The glyphs one transcription contributes to the usage count, in order:
/// skip characters contribute nothing, a contraction span contributes each
/// enclosed glyph, a literal `xizi` contributes nothing, and every other
/// character must be a glyph and contributes itself.
pub open spec fn counted_glyphs(t: Seq<char>) -> Result<Seq<char>, CharCountError>
    decreases t.len(),
{
    if t.len() == 0 {
        Ok(Seq::empty())
    } else {
        let c = t[0];
        if is_skip_char(c) {
            counted_glyphs(t.drop_first())
        } else if c == '«' {
            let j = text::first_index_of(t, '»');
            if !(0 <= j && j < t.len()) {
                Err(CharCountError::UnmatchedGuillemet)
            } else {
                let run = t.subrange(1, j);
                let bad = text::leading_run_len(run, CharClass::Cjk);
                if bad < run.len() {
                    Err(CharCountError::NotAGlyph(run[bad]))
                } else {
                    match counted_glyphs(t.skip(j + 1)) {
                        Err(e) => Err(e),
                        Ok(rest) => Ok(run + rest),
                    }
                }
            }
        } else if c == 'x' {
            if t.len() >= 4 && t[1] == 'i' && t[2] == 'z' && t[3] == 'i' {
                counted_glyphs(t.skip(4))
            } else {
                Err(CharCountError::XiziExpected)
            }
        } else {
            if text::is_cjk_char(c) {
                match counted_glyphs(t.drop_first()) {
                    Err(e) => Err(e),
                    Ok(rest) => Ok(seq![c] + rest),
                }
            } else {
                Err(CharCountError::NotAGlyph(c))
            }
        }
    }
}

/// The glyphs the whole corpus contributes, row by row; the first failing row
/// wins.
pub open spec fn corpus_glyphs(rows: Seq<(Seq<ExtSyllable>, phrase::ItemV)>) -> Result<
    Seq<char>,
    CharCountError,
>
    decreases rows.len(),
{
    if rows.len() == 0 {
        Ok(Seq::empty())
    } else {
        match counted_glyphs(rows[0].1.pekzep_hanzi) {
            Err(e) => Err(e),
            Ok(g) => match corpus_glyphs(rows.drop_first()) {
                Err(e) => Err(e),
                Ok(gs) => Ok(g + gs),
            },
        }
    }
}

/// The glyphs one transcription contributes, executed.
fn counted_glyphs_exec(t: &Vec<char>) -> (r: Result<Vec<char>, CharCountError>)
    ensures
        match r {
            Ok(g) => counted_glyphs(t@) == Ok::<Seq<char>, CharCountError>(g@),
            Err(e) => counted_glyphs(t@) == Err::<Seq<char>, CharCountError>(e),
        },
{
    let mut out: Vec<char> = Vec::new();
    let mut i: usize = 0;
    proof {
        assert(t@.skip(0) =~= t@);
    }
    while i < t.len()
        invariant
            i <= t@.len(),
            match counted_glyphs(t@.skip(i as int)) {
                Ok(rest) => counted_glyphs(t@) == Ok::<Seq<char>, CharCountError>(out@ + rest),
                Err(e) => counted_glyphs(t@) == Err::<Seq<char>, CharCountError>(e),
            },
        decreases t@.len() - i,
    {
        let ghost suf = t@.skip(i as int);
        proof {
            assert(suf[0] == t@[i as int]);
            assert(suf.drop_first() =~= t@.skip(i + 1));
        }
        let c = t[i];
        if is_skip(c) {
            i = i + 1;
        } else if c == '«' {
            let close = match text::find_char_from(&t, i, '»') {
                None => {
                    proof {
                        text::lemma_first_index_of_found(suf, '»');
                    }
                    return Err(CharCountError::UnmatchedGuillemet);
                },
                Some(cl) => cl,
            };
            proof {
                text::lemma_first_index_of_found(suf, '»');
                assert(suf.subrange(1, close - i) =~= t@.subrange(i + 1, close as int));
                assert(suf.skip(close - i + 1) =~= t@.skip(close + 1));
            }
            let run = text::copy_range(&t, i + 1, close);
            proof {
                text::lemma_leading_run_len_bounds(run@, CharClass::Cjk);
            }
            let good = text::leading_run(&run, CharClass::Cjk);
            if good < run.len() {
                return Err(CharCountError::NotAGlyph(run[good]));
            }
            let ghost prev = out@;
            text::append_chars(&mut out, &run);
            i = close + 1;
            proof {
                if counted_glyphs(t@.skip(i as int)) is Ok {
                    assert(prev + (run@ + counted_glyphs(t@.skip(i as int))->Ok_0) =~= out@
                        + counted_glyphs(t@.skip(i as int))->Ok_0);
                }
            }
        } else if c == 'x' {
            if t.len() - i >= 4 && t[i + 1] == 'i' && t[i + 2] == 'z' && t[i + 3] == 'i' {
                assert(suf.len() >= 4 && suf[1] == 'i' && suf[2] == 'z' && suf[3] == 'i');
                proof {
                    assert(suf.skip(4) =~= t@.skip(i + 4));
                }
                i = i + 4;
            } else {
                proof {
                    if t@.len() - i >= 4 {
                        assert(suf[1] == t@[i + 1] && suf[2] == t@[i + 2] && suf[3] == t@[i + 3]);
                    }
                }
                return Err(CharCountError::XiziExpected);
            }
        } else {
            if !text::is_cjk(c) {
                return Err(CharCountError::NotAGlyph(c));
            }
            let ghost prev = out@;
            out.push(c);
            i = i + 1;
            proof {
                if counted_glyphs(t@.skip(i as int)) is Ok {
                    assert(prev + (seq![c] + counted_glyphs(t@.skip(i as int))->Ok_0) =~= out@
                        + counted_glyphs(t@.skip(i as int))->Ok_0);
                }
            }
        }
    }
    proof {
        assert(counted_glyphs(t@.skip(i as int)) == Ok::<Seq<char>, CharCountError>(Seq::empty()));
        assert(out@ + Seq::<char>::empty() =~= out@);
    }
    Ok(out)
}

/// Every glyph a transcription contributes lies in the glyph blocks.
pub proof fn lemma_counted_glyphs_cjk(t: Seq<char>)
    ensures
        counted_glyphs(t) matches Ok(g) ==> forall|k: int|
            0 <= k < g.len() ==> text::is_cjk_char(#[trigger] g[k]),
    decreases t.len(),
{
    if t.len() > 0 && counted_glyphs(t) is Ok {
        let c = t[0];
        let g = counted_glyphs(t)->Ok_0;
        if is_skip_char(c) {
            lemma_counted_glyphs_cjk(t.drop_first());
        } else if c == '«' {
            let j = text::first_index_of(t, '»');
            let run = t.subrange(1, j);
            lemma_counted_glyphs_cjk(t.skip(j + 1));
            text::lemma_leading_run_len_bounds(run, CharClass::Cjk);
            let rest = counted_glyphs(t.skip(j + 1))->Ok_0;
            assert forall|k: int| 0 <= k < g.len() implies text::is_cjk_char(#[trigger] g[k]) by {
                if k < run.len() {
                    assert(g[k] == run[k]);
                } else {
                    assert(g[k] == rest[k - run.len()]);
                }
            }
        } else if c == 'x' {
            lemma_counted_glyphs_cjk(t.skip(4));
        } else {
            lemma_counted_glyphs_cjk(t.drop_first());
            let rest = counted_glyphs(t.drop_first())->Ok_0;
            assert forall|k: int| 0 <= k < g.len() implies text::is_cjk_char(#[trigger] g[k]) by {
                if k >= 1 {
                    assert(g[k] == rest[k - 1]);
                }
            }
        }
    }
}

/// Every glyph the corpus contributes lies in the glyph blocks.
pub proof fn lemma_corpus_glyphs_cjk(rows: Seq<(Seq<ExtSyllable>, phrase::ItemV)>)
    ensures
        corpus_glyphs(rows) matches Ok(g) ==> forall|k: int|
            0 <= k < g.len() ==> text::is_cjk_char(#[trigger] g[k]),
    decreases rows.len(),
{
    if rows.len() > 0 && corpus_glyphs(rows) is Ok {
        lemma_counted_glyphs_cjk(rows[0].1.pekzep_hanzi);
        lemma_corpus_glyphs_cjk(rows.drop_first());
        let g = corpus_glyphs(rows)->Ok_0;
        let head = counted_glyphs(rows[0].1.pekzep_hanzi)->Ok_0;
        let rest = corpus_glyphs(rows.drop_first())->Ok_0;
        assert forall|k: int| 0 <= k < g.len() implies text::is_cjk_char(#[trigger] g[k]) by {
            if k < head.len() {
                assert(g[k] == head[k]);
            } else {
                assert(g[k] == rest[k - head.len()]);
            }
        }
    }
}

// ------------------------------------------------------------------
// The count table
// ------------------------------------------------------------------

/// How often `c` occurs in `g`.
pub open spec fn count_occ(g: Seq<char>, c: char) -> int
    decreases g.len(),
{
    if g.len() == 0 {
        0
    } else {
        count_occ(g.drop_last(), c) + if g.last() == c {
            1int
        } else {
            0int
        }
    }
}

pub proof fn lemma_count_occ_le(g: Seq<char>, c: char)
    ensures
        0 <= count_occ(g, c) <= g.len(),
    decreases g.len(),
{
    if g.len() > 0 {
        lemma_count_occ_le(g.drop_last(), c);
    }
}

pub proof fn lemma_count_occ_zero(g: Seq<char>, c: char)
    requires
        forall|k: int| 0 <= k < g.len() ==> g[k] != c,
    ensures
        count_occ(g, c) == 0,
    decreases g.len(),
{
    if g.len() > 0 {
        lemma_count_occ_zero(g.drop_last(), c);
    }
}

pub open spec fn count_tab_view(tab: Seq<(Linzklar, usize)>) -> Seq<(char, int)> {
    tab.map_values(|e: (Linzklar, usize)| (e.0@, e.1 as int))
}

/// Whether the count table has a key for glyph `c`.
pub open spec fn has_count_key(tab: Seq<(char, int)>, c: char) -> bool {
    exists|i: int| 0 <= i < tab.len() && (#[trigger] tab[i]).0 == c
}

/// What it means for a count table to represent a glyph multiset: keys are
/// unique, every key's count is its number of occurrences, every occurring
/// glyph has a key.
pub open spec fn counts_ok(tab: Seq<(char, int)>, g: Seq<char>) -> bool {
    &&& forall|i: int, j: int| 0 <= i < j < tab.len() ==> (#[trigger] tab[i]).0 != (#[trigger] tab[j]).0
    &&& forall|i: int| 0 <= i < tab.len() ==> (#[trigger] tab[i]).1 == count_occ(g, tab[i].0)
    &&& forall|k: int| 0 <= k < g.len() ==> has_count_key(tab, #[trigger] g[k])
}

/// Adds one occurrence of glyph `c` to the count table.
fn bump_count(tab: &mut Vec<(Linzklar, usize)>, c: char, done: Ghost<Seq<char>>)
    requires
        counts_ok(count_tab_view(old(tab)@), done@),
        done@.len() < usize::MAX,
        forall|k: int| 0 <= k < done@.len() ==> count_occ(done@, #[trigger] done@[k]) <= done@.len(),
    ensures
        counts_ok(count_tab_view(final (tab)@), done@.push(c)),
{
    let ghost tv = count_tab_view(tab@);
    let ghost done1 = done@.push(c);
    proof {
        assert forall|x: char|
            count_occ(done1, x) == count_occ(done@, x) + (if x == c {
                1int
            } else {
                0int
            }) by {
            assert(done1.drop_last() =~= done@);
            assert(done1.last() == c);
        }
    }
    let mut p: usize = 0;
    let mut found: bool = false;
    while p < tab.len() && !found
        invariant
            p <= tab@.len(),
            tv == count_tab_view(tab@),
            tv.len() == tab@.len(),
            forall|q: int| 0 <= q < p ==> (#[trigger] tv[q]).0 != c,
            found ==> p < tab@.len() && tv[p as int].0 == c,
        decreases tab@.len() - p, (if found { 0int } else { 1int }),
    {
        assert(tv[p as int] == (tab@[p as int].0@, tab@[p as int].1 as int));
        if tab[p].0.as_char() == c {
            found = true;
        } else {
            p = p + 1;
        }
    }
    let ghost old_tab = tab@;
    if found {
        proof {
            assert(tv[p as int] == (tab@[p as int].0@, tab@[p as int].1 as int));
            assert(tv[p as int].1 == count_occ(done@, c));
            assert(count_occ(done@, c) <= done@.len()) by {
                if done@.len() > 0 {
                    assert(has_count_key(tv, done@[0]) || true);
                }
                lemma_count_occ_le(done@, c);
            }
            assert(tab@[p as int].1 < usize::MAX);
        }
        let key = tab[p].0;
        let cnt = tab[p].1;
        tab.set(p, (key, cnt + 1));
        proof {
            let newv = count_tab_view(tab@);
            assert(key@ == c);
            assert(newv.len() == tv.len());
            assert forall|q: int| 0 <= q < newv.len() implies #[trigger] newv[q] == (if q == p {
                (c, tv[p as int].1 + 1)
            } else {
                tv[q]
            }) by {
                assert(newv[q] == (tab@[q].0@, tab@[q].1 as int));
                if q != p {
                    assert(tab@[q] == old_tab[q]);
                    assert(tv[q] == (old_tab[q].0@, old_tab[q].1 as int));
                }
            }
            assert forall|a: int, b: int| 0 <= a < b < newv.len() implies (#[trigger] newv[a]).0
                != (#[trigger] newv[b]).0 by {
                assert(newv[a].0 == tv[a].0 && newv[b].0 == tv[b].0);
            }
            assert forall|q: int| 0 <= q < newv.len() implies (#[trigger] newv[q]).1 == count_occ(
                done1,
                newv[q].0,
            ) by {
                if q != p {
                    if q < p {
                        assert(tv[q].0 != tv[p as int].0);
                    } else {
                        assert(tv[p as int].0 != tv[q].0);
                    }
                }
            }
            assert forall|k: int| 0 <= k < done1.len() implies has_count_key(
                newv,
                #[trigger] done1[k],
            ) by {
                let x = done1[k];
                if k < done@.len() {
                    assert(done@[k] == x);
                    assert(has_count_key(tv, x));
                    let w = choose|w: int| 0 <= w < tv.len() && (#[trigger] tv[w]).0 == x;
                    assert(newv[w].0 == x);
                } else {
                    assert(x == c);
                    assert(newv[p as int].0 == c);
                }
            }
            assert(counts_ok(newv, done1));
        }
    } else {
        proof {
            assert(forall|q: int| 0 <= q < tv.len() ==> (#[trigger] tv[q]).0 != c);
            // c has no key, so it has not occurred yet
            assert forall|k: int| 0 <= k < done@.len() implies done@[k] != c by {
                if done@[k] == c {
                    let w = choose|w: int| 0 <= w < tv.len() && (#[trigger] tv[w]).0 == done@[k];
                    assert(tv[w].0 == c);
                }
            }
            lemma_count_occ_zero(done@, c);
        }
        tab.push((Linzklar(c), 1));
        proof {
            let newv = count_tab_view(tab@);
            assert(tab@ == old_tab.push((Linzklar(c), 1)));
            assert(tab@.len() == old_tab.len() + 1);
            assert(newv.len() == old_tab.len() + 1);
            assert forall|q: int| 0 <= q < tv.len() implies #[trigger] newv[q] == tv[q] by {
                assert(tab@[q] == old_tab[q]);
                assert(tv[q] == (old_tab[q].0@, old_tab[q].1 as int));
                assert(newv[q] == (tab@[q].0@, tab@[q].1 as int));
            }
            assert(newv[tv.len() as int] == (c, 1int));
            assert forall|a: int, b: int| 0 <= a < b < newv.len() implies (#[trigger] newv[a]).0
                != (#[trigger] newv[b]).0 by {
                if b < tv.len() {
                    assert(newv[a].0 == tv[a].0 && newv[b].0 == tv[b].0);
                } else {
                    assert(newv[a].0 == tv[a].0 && tv[a].0 != c);
                }
            }
            assert forall|q: int| 0 <= q < newv.len() implies (#[trigger] newv[q]).1 == count_occ(
                done1,
                newv[q].0,
            ) by {
                if q < tv.len() {
                    assert(tv[q].0 != c);
                }
            }
            assert forall|k: int| 0 <= k < done1.len() implies has_count_key(
                newv,
                #[trigger] done1[k],
            ) by {
                let x = done1[k];
                if k < done@.len() {
                    assert(done@[k] == x);
                    assert(has_count_key(tv, x));
                    let w = choose|w: int| 0 <= w < tv.len() && (#[trigger] tv[w]).0 == x;
                    assert(newv[w].0 == x);
                } else {
                    assert(x == c);
                    assert(newv[tv.len() as int].0 == c);
                }
            }
            assert(counts_ok(newv, done1));
        }
    }
}

/// All counts a table representing `done` carries stay within `done`'s length.
pub proof fn lemma_counts_bounded(g: Seq<char>)
    ensures
        forall|k: int| 0 <= k < g.len() ==> count_occ(g, #[trigger] g[k]) <= g.len(),
{
    assert forall|k: int| 0 <= k < g.len() implies count_occ(g, #[trigger] g[k]) <= g.len() by {
        lemma_count_occ_le(g, g[k]);
    }
}

/// Builds the per-glyph occurrence table of a glyph list.
fn count_occurrences(g: &Vec<char>) -> (tab: Vec<(Linzklar, usize)>)
    requires
        forall|k: int| 0 <= k < g@.len() ==> text::is_cjk_char(#[trigger] g@[k]),
    ensures
        counts_ok(count_tab_view(tab@), g@),
{
    let mut tab: Vec<(Linzklar, usize)> = Vec::new();
    let mut i: usize = 0;
    proof {
        assert(g@.take(0) =~= Seq::<char>::empty());
    }
    while i < g.len()
        invariant
            i <= g@.len(),
            counts_ok(count_tab_view(tab@), g@.take(i as int)),
        decreases g@.len() - i,
    {
        let ghost done = g@.take(i as int);
        proof {
            lemma_counts_bounded(done);
            assert(done.push(g@[i as int]) =~= g@.take(i + 1));
        }
        let c = g[i];
        bump_count(&mut tab, c, Ghost(done));
        i = i + 1;
    }
    proof {
        assert(g@.take(i as int) =~= g@);
    }
    tab
}

/// Counts how often each glyph occurs across the whole corpus, applying the
/// same contraction and `xizi` escapes as the sentence aligner.
pub fn char_count(rows: &Vec<(Vec<ExtSyllable>, phrase::Item)>) -> (r: Result<
    Vec<(Linzklar, usize)>,
    CharCountError,
>)
    ensures
        match corpus_glyphs(phrase::pairs_view(rows@)) {
            Err(e) => r == Err::<Vec<(Linzklar, usize)>, CharCountError>(e),
            Ok(g) => r matches Ok(tab) && counts_ok(count_tab_view(tab@), g),
        },
{
    let ghost rv = phrase::pairs_view(rows@);
    let mut glyphs: Vec<char> = Vec::new();
    let mut i: usize = 0;
    proof {
        assert(rv.skip(0) =~= rv);
    }
    while i < rows.len()
        invariant
            i <= rows@.len(),
            rv == phrase::pairs_view(rows@),
            rv.len() == rows@.len(),
            match corpus_glyphs(rv.skip(i as int)) {
                Ok(rest) => corpus_glyphs(rv) == Ok::<Seq<char>, CharCountError>(glyphs@ + rest),
                Err(e) => corpus_glyphs(rv) == Err::<Seq<char>, CharCountError>(e),
            },
        decreases rows@.len() - i,
    {
        let ghost suf = rv.skip(i as int);
        proof {
            assert(suf[0] == rv[i as int]);
            assert(rv[i as int] == (rows@[i as int].0@, rows@[i as int].1@));
            assert(suf.drop_first() =~= rv.skip(i + 1));
        }
        let t = text::chars_vec(rows[i].1.pekzep_hanzi.as_str());
        let ghost prev = glyphs@;
        match counted_glyphs_exec(&t) {
            Err(e) => {
                return Err(e);
            },
            Ok(g) => {
                text::append_chars(&mut glyphs, &g);
                proof {
                    if corpus_glyphs(rv.skip(i + 1)) is Ok {
                        assert(prev + (g@ + corpus_glyphs(rv.skip(i + 1))->Ok_0) =~= glyphs@
                            + corpus_glyphs(rv.skip(i + 1))->Ok_0);
                    }
                }
            },
        }
        i = i + 1;
    }
    proof {
        assert(corpus_glyphs(rv.skip(i as int)) == Ok::<Seq<char>, CharCountError>(Seq::empty()));
        assert(glyphs@ + Seq::<char>::empty() =~= glyphs@);
        lemma_corpus_glyphs_cjk(rv);
    }
    Ok(count_occurrences(&glyphs))
}

} // verus!

verus! {

// ------------------------------------------------------------------
// The vocabulary aligner
// ------------------------------------------------------------------

/// Greedy consumption of an expected character sequence: characters are taken
/// from the front of `h` as long as they match `pat`; the first mismatching
/// character is consumed too, and the walk then stops without complaint.
pub open spec fn consume_seq(h: Seq<char>, pat: Seq<char>) -> Seq<char>
    decreases pat.len(),
{
    if pat.len() == 0 || h.len() == 0 {
        h
    } else if h[0] == pat[0] {
        consume_seq(h.skip(1), pat.drop_first())
    } else {
        h.skip(1)
    }
}

/// Consumes an expected sequence from `h` at `start`, greedily.
fn consume_from(h: &Vec<char>, start: usize, pat: &Vec<char>, pi: usize) -> (r: usize)
    requires
        start <= h@.len(),
        pi <= pat@.len(),
    ensures
        start <= r <= h@.len(),
        h@.skip(r as int) == consume_seq(h@.skip(start as int), pat@.skip(pi as int)),
    decreases pat@.len() - pi,
{
    let ghost suf = h@.skip(start as int);
    let ghost ps = pat@.skip(pi as int);
    if pi == pat.len() || start == h.len() {
        return start;
    }
    proof {
        assert(suf[0] == h@[start as int]);
        assert(ps[0] == pat@[pi as int]);
        assert(suf.skip(1) =~= h@.skip(start + 1));
        assert(ps.drop_first() =~= pat@.skip(pi + 1));
    }
    if h[start] == pat[pi] {
        consume_from(h, start + 1, pat, pi + 1)
    } else {
        start + 1
    }
}

/// What consuming a `xizi` from the transcription side does: the literal may
/// be preceded by one space; a transcription not opening with `x` or a space
/// is rejected; after the opening character the expected letters are taken
/// greedily, stopping quietly at the first mismatch.
pub open spec fn match_xizi_spec(h: Seq<char>) -> Result<Seq<char>, VocabAlignErrV> {
    if h.len() == 0 {
        Err(VocabAlignErrV::XiziNotFound)
    } else if h[0] == 'x' {
        Ok(consume_seq(h.skip(1), seq!['i', 'z', 'i']))
    } else if h[0] == ' ' {
        Ok(consume_seq(h.skip(1), seq!['x', 'i', 'z', 'i']))
    } else {
        Err(VocabAlignErrV::XiziNotFound)
    }
}

/// The ways one dictionary entry can fail to align.
#[derive(Debug, Clone, PartialEq)]
pub enum VocabAlignError {
    /// The transcription ran out while a syllable still expected a glyph.
    SyllableGlyphExhausted,
    /// A `«` without a closing `»`.
    ContractionUnmatchedGuillemet,
    /// No contraction-table row pairs this run with the syllable.
    ContractionNotFound { syllable: PekZepSyllable, run: Vec<char> },
    /// No glyph-table row pairs this glyph with the syllable.
    GlyphNotFound { glyph: char, syllable: PekZepSyllable },
    /// A `xizi` on the romanized side with no matching `xizi` glyph run.
    XiziNotFound,
    /// A `{` aside on the romanized side that never closes.
    AsideUnmatchedBrace,
    /// A character on the transcription side where the `{` of an aside was
    /// expected.
    AsideUnexpectedChar { found: char },
    /// A `{` aside on the transcription side that never closes.
    AsideUnclosed,
    /// The romanized side ended while transcription glyphs remain.
    LeftoverGlyphs { found: char },
}

/// The view of a vocabulary alignment failure.
pub enum VocabAlignErrV {
    SyllableGlyphExhausted,
    ContractionUnmatchedGuillemet,
    ContractionNotFound { syllable: PekZepSyllable, run: Seq<char> },
    GlyphNotFound { glyph: char, syllable: PekZepSyllable },
    XiziNotFound,
    AsideUnmatchedBrace,
    AsideUnexpectedChar { found: char },
    AsideUnclosed,
    LeftoverGlyphs { found: char },
}

pub open spec fn vocab_align_error_view(e: VocabAlignError) -> VocabAlignErrV {
    match e {
        VocabAlignError::SyllableGlyphExhausted => VocabAlignErrV::SyllableGlyphExhausted,
        VocabAlignError::ContractionUnmatchedGuillemet => VocabAlignErrV::ContractionUnmatchedGuillemet,
        VocabAlignError::ContractionNotFound { syllable, run } => VocabAlignErrV::ContractionNotFound {
            syllable,
            run: run@,
        },
        VocabAlignError::GlyphNotFound { glyph, syllable } => VocabAlignErrV::GlyphNotFound {
            glyph,
            syllable,
        },
        VocabAlignError::XiziNotFound => VocabAlignErrV::XiziNotFound,
        VocabAlignError::AsideUnmatchedBrace => VocabAlignErrV::AsideUnmatchedBrace,
        VocabAlignError::AsideUnexpectedChar { found } => VocabAlignErrV::AsideUnexpectedChar {
            found,
        },
        VocabAlignError::AsideUnclosed => VocabAlignErrV::AsideUnclosed,
        VocabAlignError::LeftoverGlyphs { found } => VocabAlignErrV::LeftoverGlyphs { found },
    }
}

/// At the end of the walk only whitespace may remain on the transcription
/// side.
pub open spec fn end_check(h: Seq<char>) -> Result<(), VocabAlignErrV> {
    let sp = text::leading_run_len(h, CharClass::Space);
    if sp == h.len() {
        Ok(())
    } else {
        Err(VocabAlignErrV::LeftoverGlyphs { found: h[sp] })
    }
}

/// The first token that closes a `{` aside: the index of the first token
/// ending in `}`, or `-1`.
pub open spec fn first_close_tok(toks: Seq<Seq<char>>) -> int
    decreases toks.len(),
{
    if toks.len() == 0 {
        -1
    } else if toks[0].len() > 0 && toks[0].last() == '}' {
        0
    } else {
        let r = first_close_tok(toks.drop_first());
        if r < 0 {
            -1
        } else {
            r + 1
        }
    }
}

pub proof fn lemma_first_close_tok_at(toks: Seq<Seq<char>>, m: int)
    requires
        0 <= m < toks.len(),
        toks[m].len() > 0 && toks[m].last() == '}',
        forall|j: int| 0 <= j < m ==> !((#[trigger] toks[j]).len() > 0 && toks[j].last() == '}'),
    ensures
        first_close_tok(toks) == m,
    decreases m,
{
    if m > 0 {
        lemma_first_close_tok_at(toks.drop_first(), m - 1);
    }
}

pub proof fn lemma_first_close_tok_none(toks: Seq<Seq<char>>)
    requires
        forall|j: int|
            0 <= j < toks.len() ==> !((#[trigger] toks[j]).len() > 0 && toks[j].last() == '}'),
    ensures
        first_close_tok(toks) == -1,
    decreases toks.len(),
{
    if toks.len() > 0 {
        lemma_first_close_tok_none(toks.drop_first());
    }
}

/// The vocabulary alignment walk: the whitespace-split tokens of the entry's
/// romanization are scanned against the characters of its transcription. A
/// `xizi` token consumes a (possibly space-led) `xizi` literal; a syllable
/// token skips whitespace and then consumes one glyph, or one contraction
/// span, that the tables pair with it; a `//` token consumes a literal
/// ` // `; an `S` token consumes `S `; a token opening with `{` starts an
/// editorial aside, skipped on both sides up to its closing `}`; every other
/// token is ignored, and an empty token (from doubled whitespace) ends the
/// walk. At the end only whitespace may remain on the transcription side.
pub open spec fn vocab_align(
    toks: Seq<Seq<char>>,
    h: Seq<char>,
    chars: Seq<(char, PekZepSyllable)>,
    contr: Seq<(Seq<char>, PekZepSyllable)>,
) -> Result<(), VocabAlignErrV>
    decreases toks.len(),
{
    if toks.len() == 0 {
        end_check(h)
    } else {
        let s = toks[0];
        if s.len() == 0 {
            end_check(h)
        } else if s == seq!['x', 'i', 'z', 'i'] {
            match match_xizi_spec(h) {
                Err(e) => Err(e),
                Ok(h1) => vocab_align(toks.drop_first(), h1, chars, contr),
            }
        } else {
            match crate::rerrliratixka::parse_spec(s) {
                Some(syl) => {
                    let ws = text::leading_run_len(h, CharClass::Space);
                    if ws == h.len() {
                        Err(VocabAlignErrV::SyllableGlyphExhausted)
                    } else {
                        let c = h[ws];
                        if c == '«' {
                            let h2 = h.skip(ws + 1);
                            let jj = text::first_index_of(h2, '»');
                            if !(0 <= jj && jj < h2.len()) {
                                Err(VocabAlignErrV::ContractionUnmatchedGuillemet)
                            } else {
                                let run = h2.take(jj);
                                if contr_tab_has(contr, run, syl) {
                                    vocab_align(toks.drop_first(), h2.skip(jj + 1), chars, contr)
                                } else {
                                    Err(VocabAlignErrV::ContractionNotFound { syllable: syl, run })
                                }
                            }
                        } else if char_tab_has(chars, c, syl) {
                            vocab_align(toks.drop_first(), h.skip(ws + 1), chars, contr)
                        } else {
                            Err(VocabAlignErrV::GlyphNotFound { glyph: c, syllable: syl })
                        }
                    }
                },
                None => {
                    if s == seq!['/', '/'] {
                        vocab_align(
                            toks.drop_first(),
                            consume_seq(h, seq![' ', '/', '/', ' ']),
                            chars,
                            contr,
                        )
                    } else if s == seq!['S'] {
                        vocab_align(toks.drop_first(), consume_seq(h, seq!['S', ' ']), chars, contr)
                    } else if s[0] == '{' {
                        let m = first_close_tok(toks);
                        if !(0 <= m && m < toks.len()) {
                            Err(VocabAlignErrV::AsideUnmatchedBrace)
                        } else {
                            let sp = text::leading_run_len(h, CharClass::Exact(' '));
                            if sp == h.len() {
                                vocab_align(toks.skip(m + 1), h.skip(sp), chars, contr)
                            } else if h[sp] == '{' {
                                let rest = h.skip(sp + 1);
                                let jj = text::first_index_of(rest, '}');
                                if !(0 <= jj && jj < rest.len()) {
                                    Err(VocabAlignErrV::AsideUnclosed)
                                } else {
                                    vocab_align(toks.skip(m + 1), rest.skip(jj + 1), chars, contr)
                                }
                            } else {
                                Err(VocabAlignErrV::AsideUnexpectedChar { found: h[sp] })
                            }
                        }
                    } else {
                        vocab_align(toks.drop_first(), h, chars, contr)
                    }
                },
            }
        }
    }
}

/// What aligning one dictionary entry means: the `∅`-as-empty-string entry
/// needs no alignment; every other entry walks its romanization tokens
/// against its transcription.
pub open spec fn vocab_item_align(
    item: vocab::ItemV,
    chars: Seq<(char, PekZepSyllable)>,
    contr: Seq<(Seq<char>, PekZepSyllable)>,
) -> Result<(), VocabAlignErrV> {
    if item.pekzep_hanzi == seq!['∅'] && item.pekzep_latin.len() == 0 {
        Ok(())
    } else {
        vocab_align(
            text::split_cls(item.pekzep_latin, CharClass::Space),
            item.pekzep_hanzi,
            chars,
            contr,
        )
    }
}

} // verus!

verus! {

/// Checks that only whitespace remains from `start` on.
fn end_check_exec(h: &Vec<char>, start: usize) -> (r: Result<(), VocabAlignError>)
    requires
        start <= h@.len(),
    ensures
        match r {
            Ok(()) => end_check(h@.skip(start as int)) is Ok,
            Err(e) => end_check(h@.skip(start as int)) == Err::<(), VocabAlignErrV>(
                vocab_align_error_view(e),
            ),
        },
{
    let ghost suf = h@.skip(start as int);
    let sp = text::run_from(h, start, CharClass::Space);
    assert(start + sp <= h.len());
    if start + sp == h.len() {
        Ok(())
    } else {
        assert(suf[sp as int] == h@[start + sp]);
        Err(VocabAlignError::LeftoverGlyphs { found: h[start + sp] })
    }
}

/// Aligns one dictionary entry: walks its romanization tokens against its
/// transcription, consuming both exactly.
pub fn align_vocab_item(
    item: &vocab::Item,
    chars: &CharSoundTable,
    contractions: &SoundTable,
) -> (r: Result<(), VocabAlignError>)
    ensures
        ({
            let spec_r = vocab_item_align(
                item@,
                char_tab_view(chars@),
                contr_tab_view(contractions@),
            );
            match r {
                Ok(()) => spec_r is Ok,
                Err(e) => spec_r == Err::<(), VocabAlignErrV>(vocab_align_error_view(e)),
            }
        }),
{
    let ghost cv = char_tab_view(chars@);
    let ghost xv = contr_tab_view(contractions@);
    let hanzi = text::chars_vec(item.pekzep_hanzi.as_str());
    let latin = text::chars_vec(item.pekzep_latin.as_str());
    let mut nul: Vec<char> = Vec::new();
    nul.push('∅');
    assert(nul@ =~= seq!['∅']);
    if text::chars_eq(&hanzi, &nul) && latin.len() == 0 {
        return Ok(());
    }
    let toks = text::split_chars(&latin, CharClass::Space);
    let ghost tv = toks.deep_view();
    let mut xizi: Vec<char> = Vec::new();
    xizi.push('x');
    xizi.push('i');
    xizi.push('z');
    xizi.push('i');
    let mut izi: Vec<char> = Vec::new();
    izi.push('i');
    izi.push('z');
    izi.push('i');
    let mut slashes: Vec<char> = Vec::new();
    slashes.push('/');
    slashes.push('/');
    let mut spaced_slashes: Vec<char> = Vec::new();
    spaced_slashes.push(' ');
    spaced_slashes.push('/');
    spaced_slashes.push('/');
    spaced_slashes.push(' ');
    let mut cap_s: Vec<char> = Vec::new();
    cap_s.push('S');
    let mut cap_s_space: Vec<char> = Vec::new();
    cap_s_space.push('S');
    cap_s_space.push(' ');
    proof {
        assert(xizi@ =~= seq!['x', 'i', 'z', 'i']);
        assert(izi@ =~= seq!['i', 'z', 'i']);
        assert(slashes@ =~= seq!['/', '/']);
        assert(spaced_slashes@ =~= seq![' ', '/', '/', ' ']);
        assert(cap_s@ =~= seq!['S']);
        assert(cap_s_space@ =~= seq!['S', ' ']);
        assert(tv.skip(0) =~= tv);
        assert(hanzi@.skip(0) =~= hanzi@);
    }
    let mut ti: usize = 0;
    let mut hi: usize = 0;
    while ti < toks.len()
        invariant
            ti <= toks@.len(),
            hi <= hanzi@.len(),
            tv == toks.deep_view(),
            tv.len() == toks@.len(),
            hanzi@ == item.pekzep_hanzi@,
            cv == char_tab_view(chars@),
            xv == contr_tab_view(contractions@),
            xizi@ == seq!['x', 'i', 'z', 'i'],
            izi@ == seq!['i', 'z', 'i'],
            slashes@ == seq!['/', '/'],
            spaced_slashes@ == seq![' ', '/', '/', ' '],
            cap_s@ == seq!['S'],
            cap_s_space@ == seq!['S', ' '],
            vocab_item_align(item@, cv, xv) == vocab_align(tv, hanzi@, cv, xv),
            vocab_align(tv, hanzi@, cv, xv) == vocab_align(
                tv.skip(ti as int),
                hanzi@.skip(hi as int),
                cv,
                xv,
            ),
        decreases toks@.len() - ti,
    {
        let ghost ts = tv.skip(ti as int);
        let ghost hs = hanzi@.skip(hi as int);
        proof {
            assert(ts[0] == tv[ti as int]);
            assert(tv[ti as int] == toks@[ti as int]@);
            assert(ts.drop_first() =~= tv.skip(ti + 1));
        }
        let tok = &toks[ti];
        if tok.len() == 0 {
            return end_check_exec(&hanzi, hi);
        }
        if text::chars_eq(tok, &xizi) {
            // consume a (possibly space-led) literal xizi on the transcription
            if hi == hanzi.len() {
                return Err(VocabAlignError::XiziNotFound);
            }
            assert(hs[0] == hanzi@[hi as int]);
            let c0 = hanzi[hi];
            let next_hi: usize;
            if c0 == 'x' {
                next_hi = consume_from(&hanzi, hi + 1, &izi, 0);
                proof {
                    assert(hs.skip(1) =~= hanzi@.skip(hi + 1));
                    assert(izi@.skip(0) =~= izi@);
                }
            } else if c0 == ' ' {
                next_hi = consume_from(&hanzi, hi + 1, &xizi, 0);
                proof {
                    assert(hs.skip(1) =~= hanzi@.skip(hi + 1));
                    assert(xizi@.skip(0) =~= xizi@);
                }
            } else {
                return Err(VocabAlignError::XiziNotFound);
            }
            ti = ti + 1;
            hi = next_hi;
        } else {
            match PekZepSyllable::parse_chars(tok) {
                Some(syl) => {
                    let ws = text::run_from(&hanzi, hi, CharClass::Space);
                    assert(hi + ws <= hanzi.len());
                    if hi + ws == hanzi.len() {
                        return Err(VocabAlignError::SyllableGlyphExhausted);
                    }
                    assert(hs[ws as int] == hanzi@[hi + ws]);
                    let c = hanzi[hi + ws];
                    if c == '«' {
                        let ghost h2 = hs.skip(ws + 1);
                        proof {
                            assert(h2 =~= hanzi@.skip(hi + ws + 1));
                        }
                        let close = match text::find_char_from(&hanzi, hi + ws + 1, '»') {
                            None => {
                                proof {
                                    text::lemma_first_index_of_found(h2, '»');
                                }
                                return Err(VocabAlignError::ContractionUnmatchedGuillemet);
                            },
                            Some(cl) => cl,
                        };
                        proof {
                            text::lemma_first_index_of_found(h2, '»');
                            assert(h2.take(close - (hi + ws + 1)) =~= hanzi@.subrange(
                                hi + ws + 1,
                                close as int,
                            ));
                            assert(h2.skip(close - (hi + ws + 1) + 1) =~= hanzi@.skip(close + 1));
                        }
                        let run = text::copy_range(&hanzi, hi + ws + 1, close);
                        if contraction_found(contractions, &run, syl) {
                            ti = ti + 1;
                            hi = close + 1;
                        } else {
                            return Err(VocabAlignError::ContractionNotFound { syllable: syl, run });
                        }
                    } else if char_sound_found(chars, c, syl) {
                        proof {
                            assert(hs.skip(ws + 1) =~= hanzi@.skip(hi + ws + 1));
                        }
                        ti = ti + 1;
                        hi = hi + ws + 1;
                    } else {
                        return Err(VocabAlignError::GlyphNotFound { glyph: c, syllable: syl });
                    }
                },
                None => {
                    if text::chars_eq(tok, &slashes) {
                        let next_hi = consume_from(&hanzi, hi, &spaced_slashes, 0);
                        proof {
                            assert(spaced_slashes@.skip(0) =~= spaced_slashes@);
                        }
                        ti = ti + 1;
                        hi = next_hi;
                    } else if text::chars_eq(tok, &cap_s) {
                        let next_hi = consume_from(&hanzi, hi, &cap_s_space, 0);
                        proof {
                            assert(cap_s_space@.skip(0) =~= cap_s_space@);
                        }
                        ti = ti + 1;
                        hi = next_hi;
                    } else if tok[0] == '{' {
                        // find the token that closes the aside
                        let mut ci: usize = ti;
                        let mut closed: bool = false;
                        while ci < toks.len() && !closed
                            invariant
                                ti <= ci <= toks@.len(),
                                tv == toks.deep_view(),
                                tv.len() == toks@.len(),
                                forall|q: int|
                                    ti <= q < ci ==> !((#[trigger] tv[q]).len() > 0 && tv[q].last()
                                        == '}'),
                                closed ==> ci < toks@.len() && tv[ci as int].len() > 0
                                    && tv[ci as int].last() == '}',
                            decreases toks@.len() - ci, (if closed { 0int } else { 1int }),
                        {
                            assert(tv[ci as int] == toks@[ci as int]@);
                            let cand = &toks[ci];
                            if cand.len() > 0 && cand[cand.len() - 1] == '}' {
                                closed = true;
                            } else {
                                ci = ci + 1;
                            }
                        }
                        if !closed {
                            proof {
                                assert forall|q: int|
                                    0 <= q < ts.len() implies !((#[trigger] ts[q]).len() > 0
                                    && ts[q].last() == '}') by {
                                    assert(ts[q] == tv[q + ti]);
                                }
                                lemma_first_close_tok_none(ts);
                            }
                            return Err(VocabAlignError::AsideUnmatchedBrace);
                        }
                        proof {
                            assert forall|q: int|
                                0 <= q < ci - ti implies !((#[trigger] ts[q]).len() > 0
                                && ts[q].last() == '}') by {
                                assert(ts[q] == tv[q + ti]);
                            }
                            assert(ts[ci - ti] == tv[ci as int]);
                            lemma_first_close_tok_at(ts, ci - ti);
                            assert(ts.skip(ci - ti + 1) =~= tv.skip(ci + 1));
                        }
                        let sp = text::run_from(&hanzi, hi, CharClass::Exact(' '));
                        assert(hi + sp <= hanzi.len());
                        if hi + sp == hanzi.len() {
                            proof {
                                assert(hs.skip(sp as int) =~= hanzi@.skip((hi + sp) as int));
                            }
                            ti = ci + 1;
                            hi = hi + sp;
                        } else {
                            assert(hs[sp as int] == hanzi@[hi + sp]);
                            if hanzi[hi + sp] == '{' {
                                let ghost rest = hs.skip(sp + 1);
                                proof {
                                    assert(rest =~= hanzi@.skip(hi + sp + 1));
                                }
                                match text::find_char_from(&hanzi, hi + sp + 1, '}') {
                                    None => {
                                        proof {
                                            text::lemma_first_index_of_found(rest, '}');
                                        }
                                        return Err(VocabAlignError::AsideUnclosed);
                                    },
                                    Some(cl) => {
                                        proof {
                                            text::lemma_first_index_of_found(rest, '}');
                                            assert(rest.skip(cl - (hi + sp + 1) + 1)
                                                =~= hanzi@.skip(cl + 1));
                                        }
                                        ti = ci + 1;
                                        hi = cl + 1;
                                    },
                                }
                            } else {
                                return Err(
                                    VocabAlignError::AsideUnexpectedChar { found: hanzi[hi + sp] },
                                );
                            }
                        }
                    } else {
                        ti = ti + 1;
                    }
                },
            }
        }
    }
    proof {
        assert(tv.skip(ti as int).len() == 0);
    }
    end_check_exec(&hanzi, hi)
}

} // verus!

verus! {

// ------------------------------------------------------------------
// The decomposition resolver
// ------------------------------------------------------------------

/// A transcription with its sentence-final punctuation `！？。「」` removed:
/// what a gloss decomposition must reconstruct.
pub open spec fn strip_sentence_punct(s: Seq<char>) -> Seq<char> {
    text::remove_cls(s, CharClass::SentencePunct)
}

/// The transcription text a whole decomposition reconstructs: the clause
/// reconstructions concatenated.
pub open spec fn clauses_plaintext(cs: Seq<Seq<KeyV>>) -> Seq<char>
    decreases cs.len(),
{
    if cs.len() == 0 {
        Seq::empty()
    } else {
        phrase::gloss_plaintext_spec(cs[0]) + clauses_plaintext(cs.drop_first())
    }
}

/// One resolved gloss token: its canonical key, the dictionary entry it
/// resolves to, and its compound-half tag if it is one.
#[derive(Debug, Clone)]
pub struct DecompositionItem {
    pub key: InternalKey,
    pub voc: vocab::Item,
    pub splittable_compound_info: Option<SplittableCompoundInfo>,
}

/// The view of a resolved gloss token.
pub struct DecompItemV {
    pub key: KeyV,
    pub voc: vocab::ItemV,
    pub splittable_compound_info: Option<SplittableCompoundInfo>,
}

impl View for DecompositionItem {
    type V = DecompItemV;

    open spec fn view(&self) -> DecompItemV {
        DecompItemV {
            key: self.key@,
            voc: self.voc@,
            splittable_compound_info: self.splittable_compound_info,
        }
    }
}

/// The ways a decomposition can fail.
#[derive(Debug, Clone, PartialEq)]
pub enum DecompositionError {
    /// The reconstruction differs from the stripped transcription.
    Mismatch { expectation: String, rejoined: String },
    /// A gloss token whose canonical key is not in the dictionary; the
    /// context names the clause it came from.
    UnknownKey { key: InternalKey, context: String },
}

/// The view of a decomposition failure.
pub enum DecompErrV {
    Mismatch { expectation: Seq<char>, rejoined: Seq<char> },
    UnknownKey { key: KeyV, context: Seq<char> },
}

pub open spec fn decomposition_error_view(e: DecompositionError) -> DecompErrV {
    match e {
        DecompositionError::Mismatch { expectation, rejoined } => DecompErrV::Mismatch {
            expectation: expectation@,
            rejoined: rejoined@,
        },
        DecompositionError::UnknownKey { key, context } => DecompErrV::UnknownKey {
            key: key@,
            context: context@,
        },
    }
}

/// The canonical key a gloss token resolves through.
pub open spec fn canonical_key(tok: KeyV) -> KeyV {
    KeyV { main: vocab::canonical_main_spec(tok.main), postfix: tok.postfix }
}

/// Resolving the tokens of one clause: each token's canonical key must be in
/// the dictionary; the first missing key is reported with the clause as
/// context.
pub open spec fn resolve_clause(
    entries: Seq<(KeyV, vocab::ItemV)>,
    toks: Seq<KeyV>,
    context: Seq<char>,
) -> Result<Seq<DecompItemV>, DecompErrV>
    decreases toks.len(),
{
    if toks.len() == 0 {
        Ok(Seq::empty())
    } else {
        let key = canonical_key(toks[0]);
        let idx = vocab::find_key(entries, key);
        if idx < 0 {
            Err(DecompErrV::UnknownKey { key, context })
        } else {
            match resolve_clause(entries, toks.drop_first(), context) {
                Err(e) => Err(e),
                Ok(rest) => Ok(
                    seq![
                        DecompItemV {
                            key,
                            voc: entries[idx].1,
                            splittable_compound_info: vocab::splittable_spec(toks[0]),
                        }
                    ] + rest,
                ),
            }
        }
    }
}

/// Resolving all clauses of a decomposition, in order.
pub open spec fn resolve_clauses(
    entries: Seq<(KeyV, vocab::ItemV)>,
    cs: Seq<Seq<KeyV>>,
) -> Result<Seq<Seq<DecompItemV>>, DecompErrV>
    decreases cs.len(),
{
    if cs.len() == 0 {
        Ok(Seq::empty())
    } else {
        match resolve_clause(entries, cs[0], phrase::gloss_debugtext_spec(cs[0])) {
            Err(e) => Err(e),
            Ok(clause) => match resolve_clauses(entries, cs.drop_first()) {
                Err(e) => Err(e),
                Ok(rest) => Ok(seq![clause] + rest),
            },
        }
    }
}

/// What verifying one record's decomposition yields: an empty decomposition
/// passes with no items; otherwise the reconstruction must equal the stripped
/// transcription, and every token must resolve.
pub open spec fn decomposition_spec(
    entries: Seq<(KeyV, vocab::ItemV)>,
    item: phrase::ItemV,
) -> Result<Seq<Seq<DecompItemV>>, DecompErrV> {
    if item.decomposed.len() == 0 {
        Ok(Seq::empty())
    } else {
        let rejoined = clauses_plaintext(item.decomposed);
        let expectation = strip_sentence_punct(item.pekzep_hanzi);
        if rejoined != expectation {
            Err(DecompErrV::Mismatch { expectation, rejoined })
        } else {
            resolve_clauses(entries, item.decomposed)
        }
    }
}

pub open spec fn clause_items_view(v: Seq<DecompositionItem>) -> Seq<DecompItemV> {
    v.map_values(|d: DecompositionItem| d@)
}

pub open spec fn decomp_view(v: Seq<Vec<DecompositionItem>>) -> Seq<Seq<DecompItemV>> {
    v.map_values(|c: Vec<DecompositionItem>| clause_items_view(c@))
}

/// Resolves the tokens of one clause from index `i` on.
fn resolve_clause_exec(cat: &Catalog, clause: &phrase::SentenceGloss, i: usize) -> (r: Result<
    Vec<DecompositionItem>,
    DecompositionError,
>)
    requires
        i <= clause.0@.len(),
    ensures
        ({
            let spec_r = resolve_clause(
                cat.entries_view(),
                clause@.skip(i as int),
                phrase::gloss_debugtext_spec(clause@),
            );
            match r {
                Ok(v) => spec_r == Ok::<Seq<DecompItemV>, DecompErrV>(clause_items_view(v@)),
                Err(e) => spec_r == Err::<Seq<DecompItemV>, DecompErrV>(
                    decomposition_error_view(e),
                ),
            }
        }),
    decreases clause.0@.len() - i,
{
    let ghost toks = clause@.skip(i as int);
    if i == clause.0.len() {
        let v: Vec<DecompositionItem> = Vec::new();
        assert(clause_items_view(v@) =~= Seq::<DecompItemV>::empty());
        return Ok(v);
    }
    proof {
        assert(toks[0] == clause@[i as int]);
        assert(clause@[i as int] == clause.0@[i as int]@);
        assert(toks.drop_first() =~= clause@.skip(i + 1));
    }
    let gloss = &clause.0[i];
    let key = gloss.to_internal_key();
    let voc = match cat.get(&key) {
        None => {
            proof {
                vocab::lemma_find_key_found(cat.entries_view(), key@);
            }
            return Err(
                DecompositionError::UnknownKey { key, context: clause.to_debugtext() },
            );
        },
        Some(item) => item.duplicate(),
    };
    proof {
        vocab::lemma_find_key_found(cat.entries_view(), key@);
    }
    let splittable_compound_info = gloss.to_splittable_compound_info();
    let head = DecompositionItem { key, voc, splittable_compound_info };
    match resolve_clause_exec(cat, clause, i + 1) {
        Err(e) => Err(e),
        Ok(mut rest) => {
            let ghost rest_view = clause_items_view(rest@);
            let ghost head_view = head@;
            rest.insert(0, head);
            proof {
                assert(clause_items_view(rest@) =~= seq![head_view] + rest_view);
            }
            Ok(rest)
        },
    }
}

/// Resolves the clauses of a decomposition from index `i` on.
fn resolve_clauses_exec(cat: &Catalog, clauses: &Vec<phrase::SentenceGloss>, i: usize) -> (r:
    Result<Vec<Vec<DecompositionItem>>, DecompositionError>)
    requires
        i <= clauses@.len(),
    ensures
        ({
            let cs = clauses@.map_values(|g: phrase::SentenceGloss| g@);
            let spec_r = resolve_clauses(cat.entries_view(), cs.skip(i as int));
            match r {
                Ok(v) => spec_r == Ok::<Seq<Seq<DecompItemV>>, DecompErrV>(decomp_view(v@)),
                Err(e) => spec_r == Err::<Seq<Seq<DecompItemV>>, DecompErrV>(
                    decomposition_error_view(e),
                ),
            }
        }),
    decreases clauses@.len() - i,
{
    let ghost cs = clauses@.map_values(|g: phrase::SentenceGloss| g@).skip(i as int);
    if i == clauses.len() {
        let v: Vec<Vec<DecompositionItem>> = Vec::new();
        assert(decomp_view(v@) =~= Seq::<Seq<DecompItemV>>::empty());
        return Ok(v);
    }
    proof {
        assert(cs[0] == clauses@[i as int]@);
        assert(cs.drop_first() =~= clauses@.map_values(|g: phrase::SentenceGloss| g@).skip(i + 1));
        assert(clauses@[i as int]@.skip(0) =~= clauses@[i as int]@);
    }
    let clause = match resolve_clause_exec(cat, &clauses[i], 0) {
        Err(e) => {
            return Err(e);
        },
        Ok(c) => c,
    };
    match resolve_clauses_exec(cat, clauses, i + 1) {
        Err(e) => Err(e),
        Ok(mut rest) => {
            let ghost rest_view = decomp_view(rest@);
            let ghost clause_view = clause_items_view(clause@);
            rest.insert(0, clause);
            proof {
                assert(decomp_view(rest@) =~= seq![clause_view] + rest_view);
            }
            Ok(rest)
        },
    }
}

/// Checks one record's decomposition against its transcription and resolves
/// every gloss token in the dictionary: the reconstruction must equal the
/// transcription with sentence punctuation removed (reported with both texts
/// when it does not), and every token's canonical key must be a dictionary
/// key (the first missing key is reported with its clause).
pub fn verify_decomposed(vocab: &Catalog, row: &phrase::Item) -> (r: Result<
    Vec<Vec<DecompositionItem>>,
    DecompositionError,
>)
    ensures
        ({
            let spec_r = decomposition_spec(vocab.entries_view(), row@);
            match r {
                Ok(v) => spec_r == Ok::<Seq<Seq<DecompItemV>>, DecompErrV>(decomp_view(v@)),
                Err(e) => spec_r == Err::<Seq<Seq<DecompItemV>>, DecompErrV>(
                    decomposition_error_view(e),
                ),
            }
        }),
{
    let ghost cs = row@.decomposed;
    if row.decomposed.len() == 0 {
        let v: Vec<Vec<DecompositionItem>> = Vec::new();
        assert(decomp_view(v@) =~= Seq::<Seq<DecompItemV>>::empty());
        return Ok(v);
    }
    // reconstruct the expected transcription from the gloss tokens
    let mut rejoined: Vec<char> = Vec::new();
    let mut i: usize = 0;
    proof {
        assert(cs.skip(0) =~= cs);
        assert(rejoined@ + clauses_plaintext(cs) =~= clauses_plaintext(cs));
    }
    while i < row.decomposed.len()
        invariant
            i <= row.decomposed@.len(),
            cs == row@.decomposed,
            cs.len() == row.decomposed@.len(),
            clauses_plaintext(cs) == rejoined@ + clauses_plaintext(cs.skip(i as int)),
        decreases row.decomposed@.len() - i,
    {
        let ghost suf = cs.skip(i as int);
        let ghost prev = rejoined@;
        proof {
            assert(suf[0] == cs[i as int]);
            assert(cs[i as int] == row.decomposed@[i as int]@);
            assert(suf.drop_first() =~= cs.skip(i + 1));
        }
        let piece = row.decomposed[i].to_plaintext();
        let piece_chars = text::chars_vec(piece.as_str());
        text::append_chars(&mut rejoined, &piece_chars);
        i = i + 1;
        proof {
            assert(prev + (phrase::gloss_plaintext_spec(suf[0]) + clauses_plaintext(
                cs.skip(i as int),
            )) =~= rejoined@ + clauses_plaintext(cs.skip(i as int)));
        }
    }
    proof {
        assert(clauses_plaintext(cs.skip(i as int)) =~= Seq::<char>::empty());
        assert(rejoined@ + Seq::<char>::empty() =~= rejoined@);
    }
    let hanzi = text::chars_vec(row.pekzep_hanzi.as_str());
    let expectation = text::remove_matching(&hanzi, CharClass::SentencePunct);
    if !text::chars_eq(&rejoined, &expectation) {
        return Err(
            DecompositionError::Mismatch {
                expectation: text::chars_to_string(&expectation),
                rejoined: text::chars_to_string(&rejoined),
            },
        );
    }
    proof {
        assert(cs.skip(0) =~= cs);
    }
    resolve_clauses_exec(vocab, &row.decomposed, 0)
}

} // verus!

verus! {

// ------------------------------------------------------------------
// Whole-catalog vocabulary checking, accumulating every failure
// ------------------------------------------------------------------

/// The vocabulary alignment failures over the whole catalog, each with the
/// key of its entry.
pub open spec fn vocab_errors_fold(
    entries: Seq<(KeyV, vocab::ItemV)>,
    chars: Seq<(char, PekZepSyllable)>,
    contr: Seq<(Seq<char>, PekZepSyllable)>,
    acc: Seq<(KeyV, VocabAlignErrV)>,
) -> Seq<(KeyV, VocabAlignErrV)>
    decreases entries.len(),
{
    if entries.len() == 0 {
        acc
    } else {
        match vocab_item_align(entries[0].1, chars, contr) {
            Ok(()) => vocab_errors_fold(entries.drop_first(), chars, contr, acc),
            Err(e) => vocab_errors_fold(
                entries.drop_first(),
                chars,
                contr,
                acc.push((entries[0].0, e)),
            ),
        }
    }
}

pub open spec fn vocab_error_list_view(v: Seq<(InternalKey, VocabAlignError)>) -> Seq<(
    KeyV,
    VocabAlignErrV,
)> {
    v.map_values(|e: (InternalKey, VocabAlignError)| (e.0@, vocab_align_error_view(e.1)))
}

/// Checks the pronunciation of every dictionary entry against the glyph and
/// contraction tables, and gathers every failing entry rather than stopping
/// at the first.
pub fn check_vocab_pronunciation(
    catalog: &Catalog,
    chars: &CharSoundTable,
    contractions: &SoundTable,
) -> (r: Result<(), Vec<(InternalKey, VocabAlignError)>>)
    ensures
        ({
            let errs = vocab_errors_fold(
                catalog.entries_view(),
                char_tab_view(chars@),
                contr_tab_view(contractions@),
                Seq::empty(),
            );
            match r {
                Ok(()) => errs.len() == 0,
                Err(es) => errs.len() > 0 && vocab_error_list_view(es@) == errs,
            }
        }),
{
    let ghost ev = catalog.entries_view();
    let ghost cv = char_tab_view(chars@);
    let ghost xv = contr_tab_view(contractions@);
    let mut errs: Vec<(InternalKey, VocabAlignError)> = Vec::new();
    let mut i: usize = 0;
    proof {
        assert(ev.skip(0) =~= ev);
        assert(vocab_error_list_view(errs@) =~= Seq::<(KeyV, VocabAlignErrV)>::empty());
    }
    while i < catalog.entries.len()
        invariant
            i <= catalog.entries@.len(),
            ev == catalog.entries_view(),
            ev.len() == catalog.entries@.len(),
            cv == char_tab_view(chars@),
            xv == contr_tab_view(contractions@),
            vocab_errors_fold(ev, cv, xv, Seq::empty()) == vocab_errors_fold(
                ev.skip(i as int),
                cv,
                xv,
                vocab_error_list_view(errs@),
            ),
        decreases catalog.entries@.len() - i,
    {
        let ghost suf = ev.skip(i as int);
        proof {
            assert(suf[0] == ev[i as int]);
            assert(ev[i as int] == (catalog.entries@[i as int].0@, catalog.entries@[i as int].1@));
            assert(suf.drop_first() =~= ev.skip(i + 1));
        }
        match align_vocab_item(&catalog.entries[i].1, chars, contractions) {
            Ok(()) => {},
            Err(e) => {
                let ghost prev = vocab_error_list_view(errs@);
                let ghost entry_err = vocab_align_error_view(e);
                let key = catalog.entries[i].0.duplicate();
                errs.push((key, e));
                proof {
                    assert(vocab_error_list_view(errs@) =~= prev.push((ev[i as int].0, entry_err)));
                }
            },
        }
        i = i + 1;
    }
    proof {
        assert(ev.skip(i as int).len() == 0);
    }
    if errs.len() == 0 {
        proof {
            assert(vocab_error_list_view(errs@).len() == 0);
        }
        Ok(())
    } else {
        proof {
            assert(vocab_error_list_view(errs@).len() > 0);
        }
        Err(errs)
    }
}

} // verus!

verus! {

// ------------------------------------------------------------------
// The first-use-ordered vocabulary map, backed by linked_hash_map
// ------------------------------------------------------------------

#[verifier::external_type_specification]
#[verifier::external_body]
#[verifier::reject_recursive_types(K)]
#[verifier::reject_recursive_types(V)]
#[verifier::reject_recursive_types(S)]
pub struct ExLinkedHashMap<K, V, S>(linked_hash_map::LinkedHashMap<K, V, S>);

/// What the used-vocabulary map holds: its key-entry pairs in iteration
/// order, oldest first.
pub uninterp spec fn vocab_map_entries(
    m: linked_hash_map::LinkedHashMap<InternalKey, vocab::Item>,
) -> Seq<(KeyV, vocab::ItemV)>;

/// Relies on `linked_hash_map::LinkedHashMap::new`: creates an empty map.
#[verifier::external_body]
pub(crate) fn vocab_map_new() -> (m: linked_hash_map::LinkedHashMap<InternalKey, vocab::Item>)
    ensures
        vocab_map_entries(m) == Seq::<(KeyV, vocab::ItemV)>::empty(),
{
    linked_hash_map::LinkedHashMap::new()
}

/// Relies on `linked_hash_map::LinkedHashMap::contains_key`, which decides key
/// equality by the derived `Eq` of `InternalKey`, equality of the two fields.
#[verifier::external_body]
pub(crate) fn vocab_map_contains(
    m: &linked_hash_map::LinkedHashMap<InternalKey, vocab::Item>,
    k: &InternalKey,
) -> (r: bool)
    ensures
        r == (vocab::find_key(vocab_map_entries(*m), k@) >= 0),
{
    m.contains_key(k)
}

/// Relies on `linked_hash_map::LinkedHashMap::insert`: a new key is appended
/// at the back of the iteration order; an existing key has its value replaced
/// and the old value returned, and the entry moves to the back.
#[verifier::external_body]
pub(crate) fn vocab_map_insert(
    m: &mut linked_hash_map::LinkedHashMap<InternalKey, vocab::Item>,
    k: InternalKey,
    v: vocab::Item,
) -> (r: Option<vocab::Item>)
    ensures
        ({
            let old_es = vocab_map_entries(*old(m));
            let es = vocab_map_entries(*final (m));
            let i = vocab::find_key(old_es, k@);
            if i >= 0 {
                es == old_es.remove(i).push((k@, v@)) && (r matches Some(w) && w@ == old_es[i].1)
            } else {
                es == old_es.push((k@, v@)) && r is None
            }
        }),
{
    m.insert(k, v)
}

/// Relies on `linked_hash_map::LinkedHashMap::iter`: yields the entries in
/// insertion order, oldest first.
#[verifier::external_body]
pub(crate) fn vocab_map_entries_vec(
    m: &linked_hash_map::LinkedHashMap<InternalKey, vocab::Item>,
) -> (r: Vec<(InternalKey, vocab::Item)>)
    ensures
        r@.map_values(|e: (InternalKey, vocab::Item)| (e.0@, e.1@)) == vocab_map_entries(*m),
{
    m.iter().map(|(k, v)| (k.clone(), v.clone())).collect()
}

} // verus!

verus! {

// ------------------------------------------------------------------
// Usage accounting over the resolved decompositions
// ------------------------------------------------------------------

/// The resolved items of one record, clause by clause, flattened.
pub open spec fn flatten_clauses(cs: Seq<Seq<DecompItemV>>) -> Seq<DecompItemV>
    decreases cs.len(),
{
    if cs.len() == 0 {
        Seq::empty()
    } else {
        cs[0] + flatten_clauses(cs.drop_first())
    }
}

/// Every resolved item of the whole corpus, in reading order; rows whose
/// decomposition does not resolve contribute nothing.
pub open spec fn corpus_items(
    entries: Seq<(KeyV, vocab::ItemV)>,
    rows: Seq<(Seq<ExtSyllable>, phrase::ItemV)>,
) -> Seq<DecompItemV>
    decreases rows.len(),
{
    if rows.len() == 0 {
        Seq::empty()
    } else {
        match decomposition_spec(entries, rows[0].1) {
            Err(_) => corpus_items(entries, rows.drop_first()),
            Ok(cs) => flatten_clauses(cs) + corpus_items(entries, rows.drop_first()),
        }
    }
}

/// The used-vocabulary catalog in first-use order: each item adds its key and
/// entry the first time the key appears.
pub open spec fn used_fold(
    items: Seq<DecompItemV>,
    acc: Seq<(KeyV, vocab::ItemV)>,
) -> Seq<(KeyV, vocab::ItemV)>
    decreases items.len(),
{
    if items.len() == 0 {
        acc
    } else {
        let k = items[0].key;
        if vocab::find_key(acc, k) >= 0 {
            used_fold(items.drop_first(), acc)
        } else {
            used_fold(items.drop_first(), acc.push((k, items[0].voc)))
        }
    }
}

/// The index of the first counter keyed by `k`, or `-1`.
pub open spec fn find_kcount(acc: Seq<(KeyV, int)>, k: KeyV) -> int
    decreases acc.len(),
{
    if acc.len() == 0 {
        -1
    } else if acc[0].0 == k {
        0
    } else {
        let r = find_kcount(acc.drop_first(), k);
        if r < 0 {
            -1
        } else {
            r + 1
        }
    }
}

pub proof fn lemma_find_kcount_at(acc: Seq<(KeyV, int)>, k: KeyV, m: int)
    requires
        0 <= m < acc.len(),
        acc[m].0 == k,
        forall|j: int| 0 <= j < m ==> acc[j].0 != k,
    ensures
        find_kcount(acc, k) == m,
    decreases m,
{
    if m > 0 {
        lemma_find_kcount_at(acc.drop_first(), k, m - 1);
    }
}

pub proof fn lemma_find_kcount_none(acc: Seq<(KeyV, int)>, k: KeyV)
    requires
        forall|j: int| 0 <= j < acc.len() ==> acc[j].0 != k,
    ensures
        find_kcount(acc, k) == -1,
    decreases acc.len(),
{
    if acc.len() > 0 {
        lemma_find_kcount_none(acc.drop_first(), k);
    }
}

/// The per-key usage counters: each item increments its key's counter,
/// creating it at one on first use.
pub open spec fn count_fold(items: Seq<DecompItemV>, acc: Seq<(KeyV, int)>) -> Seq<(KeyV, int)>
    decreases items.len(),
{
    if items.len() == 0 {
        acc
    } else {
        let k = items[0].key;
        let i = find_kcount(acc, k);
        let acc1 = if i >= 0 {
            acc.update(i, (k, acc[i].1 + 1))
        } else {
            acc.push((k, 1))
        };
        count_fold(items.drop_first(), acc1)
    }
}

/// The sum of all counters.
pub open spec fn sum_counts(acc: Seq<(KeyV, int)>) -> int
    decreases acc.len(),
{
    if acc.len() == 0 {
        0
    } else {
        sum_counts(acc.drop_last()) + acc.last().1
    }
}

proof fn lemma_sum_counts_update(acc: Seq<(KeyV, int)>, i: int, k: KeyV, n: int)
    requires
        0 <= i < acc.len(),
    ensures
        sum_counts(acc.update(i, (k, n))) == sum_counts(acc) - acc[i].1 + n,
    decreases acc.len(),
{
    let upd = acc.update(i, (k, n));
    if i == acc.len() - 1 {
        assert(upd.drop_last() =~= acc.drop_last());
    } else {
        assert(upd.drop_last() =~= acc.drop_last().update(i, (k, n)));
        lemma_sum_counts_update(acc.drop_last(), i, k, n);
    }
}

proof fn lemma_sum_counts_push(acc: Seq<(KeyV, int)>, e: (KeyV, int))
    ensures
        sum_counts(acc.push(e)) == sum_counts(acc) + e.1,
{
    assert(acc.push(e).drop_last() =~= acc);
}

/// A well-formed pairing of the used catalog and the usage counters: same
/// keys in the same order, unique, every counter at least one.
pub open spec fn usage_wf(u: Seq<(KeyV, vocab::ItemV)>, c: Seq<(KeyV, int)>) -> bool {
    &&& u.len() == c.len()
    &&& forall|i: int| 0 <= i < c.len() ==> (#[trigger] u[i]).0 == (#[trigger] c[i]).0
    &&& forall|i: int, j: int| 0 <= i < j < c.len() ==> (#[trigger] c[i]).0 != (#[trigger] c[j]).0
    &&& forall|i: int| 0 <= i < c.len() ==> (#[trigger] c[i]).1 >= 1
}

proof fn lemma_find_same(u: Seq<(KeyV, vocab::ItemV)>, c: Seq<(KeyV, int)>, k: KeyV)
    requires
        u.len() == c.len(),
        forall|i: int| 0 <= i < c.len() ==> (#[trigger] u[i]).0 == (#[trigger] c[i]).0,
    ensures
        vocab::find_key(u, k) == find_kcount(c, k),
    decreases u.len(),
{
    if u.len() > 0 {
        assert(u[0].0 == c[0].0);
        assert forall|i: int| 0 <= i < c.drop_first().len() implies (#[trigger] u.drop_first()[i]).0
            == (#[trigger] c.drop_first()[i]).0 by {
            assert(u.drop_first()[i] == u[i + 1] && c.drop_first()[i] == c[i + 1]);
        }
        lemma_find_same(u.drop_first(), c.drop_first(), k);
    }
}

/// The two usage folds walk in step: they keep the same keys in the same
/// order, the counters stay positive, and the counter sum grows by exactly
/// one per item.
pub proof fn lemma_usage_fold(
    items: Seq<DecompItemV>,
    acc_u: Seq<(KeyV, vocab::ItemV)>,
    acc_c: Seq<(KeyV, int)>,
)
    requires
        usage_wf(acc_u, acc_c),
    ensures
        usage_wf(used_fold(items, acc_u), count_fold(items, acc_c)),
        sum_counts(count_fold(items, acc_c)) == sum_counts(acc_c) + items.len(),
    decreases items.len(),
{
    if items.len() > 0 {
        let k = items[0].key;
        lemma_find_same(acc_u, acc_c, k);
        let i = find_kcount(acc_c, k);
        if i >= 0 {
            lemma_find_kcount_found(acc_c, k);
            let acc_c1 = acc_c.update(i, (k, acc_c[i].1 + 1));
            lemma_sum_counts_update(acc_c, i, k, acc_c[i].1 + 1);
            assert(acc_c[i].0 == k);
            assert forall|j: int| 0 <= j < acc_c1.len() implies (#[trigger] acc_c1[j]).0
                == acc_c[j].0 && acc_c1[j].1 >= 1 by {
                if j != i {
                    assert(acc_c1[j] == acc_c[j]);
                }
            }
            assert(usage_wf(acc_u, acc_c1));
            lemma_usage_fold(items.drop_first(), acc_u, acc_c1);
        } else {
            lemma_find_kcount_none_from(acc_c, k);
            let acc_u1 = acc_u.push((k, items[0].voc));
            let acc_c1 = acc_c.push((k, 1));
            lemma_sum_counts_push(acc_c, (k, 1));
            assert forall|a: int, b: int|
                0 <= a < b < acc_c1.len() implies (#[trigger] acc_c1[a]).0 != (
            #[trigger] acc_c1[b]).0 by {
                if b < acc_c.len() {
                    assert(acc_c1[a] == acc_c[a] && acc_c1[b] == acc_c[b]);
                } else {
                    assert(acc_c1[a] == acc_c[a]);
                }
            }
            assert(usage_wf(acc_u1, acc_c1));
            lemma_usage_fold(items.drop_first(), acc_u1, acc_c1);
        }
    }
}

pub proof fn lemma_find_kcount_found(acc: Seq<(KeyV, int)>, k: KeyV)
    ensures
        find_kcount(acc, k) >= 0 ==> find_kcount(acc, k) < acc.len() && acc[find_kcount(acc, k)].0
            == k,
    decreases acc.len(),
{
    if acc.len() > 0 && acc[0].0 != k {
        lemma_find_kcount_found(acc.drop_first(), k);
    }
}

proof fn lemma_find_kcount_none_from(acc: Seq<(KeyV, int)>, k: KeyV)
    requires
        find_kcount(acc, k) < 0,
    ensures
        forall|j: int| 0 <= j < acc.len() ==> (#[trigger] acc[j]).0 != k,
    decreases acc.len(),
{
    if acc.len() > 0 && acc[0].0 != k {
        lemma_find_kcount_none_from(acc.drop_first(), k);
        assert forall|j: int| 0 <= j < acc.len() implies (#[trigger] acc[j]).0 != k by {
            if j > 0 {
                assert(acc.drop_first()[j - 1].0 != k);
            }
        }
    }
}

/// Usage accounting law: over any stream of resolved items, the sum of the
/// per-key usage counters equals the number of items, and the used catalog in
/// first-use order holds exactly the distinct keys with a positive counter,
/// one entry each.
pub proof fn lemma_usage_accounting(items: Seq<DecompItemV>)
    ensures
        sum_counts(count_fold(items, Seq::empty())) == items.len(),
        used_fold(items, Seq::empty()).len() == count_fold(items, Seq::empty()).len(),
        usage_wf(used_fold(items, Seq::empty()), count_fold(items, Seq::empty())),
{
    lemma_usage_fold(items, Seq::empty(), Seq::empty());
}

} // verus!

verus! {

// ------------------------------------------------------------------
// The DataBundle aggregate
// ------------------------------------------------------------------

/// One fully resolved corpus row: its syllable sequence, its per-clause
/// resolved decomposition, and the record itself.
#[derive(Debug)]
pub struct Rows3Item {
    pub syllables: Vec<ExtSyllable>,
    pub decomposition: Vec<Vec<DecompositionItem>>,
    pub row: phrase::Item,
}

/// The view of a resolved corpus row.
pub struct Rows3V {
    pub syllables: Seq<ExtSyllable>,
    pub decomposition: Seq<Seq<DecompItemV>>,
    pub row: phrase::ItemV,
}

impl View for Rows3Item {
    type V = Rows3V;

    open spec fn view(&self) -> Rows3V {
        Rows3V {
            syllables: self.syllables@,
            decomposition: decomp_view(self.decomposition@),
            row: self.row@,
        }
    }
}

/// The decomposition failures over the whole corpus, each with the index of
/// its row.
pub open spec fn decomp_errors_fold(
    entries: Seq<(KeyV, vocab::ItemV)>,
    rows: Seq<(Seq<ExtSyllable>, phrase::ItemV)>,
    at: int,
    acc: Seq<(int, DecompErrV)>,
) -> Seq<(int, DecompErrV)>
    decreases rows.len(),
{
    if rows.len() == 0 {
        acc
    } else {
        match decomposition_spec(entries, rows[0].1) {
            Ok(_) => decomp_errors_fold(entries, rows.drop_first(), at + 1, acc),
            Err(e) => decomp_errors_fold(entries, rows.drop_first(), at + 1, acc.push((at, e))),
        }
    }
}

pub open spec fn decomp_error_list_view(v: Seq<(usize, DecompositionError)>) -> Seq<(
    int,
    DecompErrV,
)> {
    v.map_values(|e: (usize, DecompositionError)| (e.0 as int, decomposition_error_view(e.1)))
}

/// The ways the bundle construction can fail, in stage order; each stage
/// gathers all its failures before stopping the run.
#[derive(Debug)]
pub enum BundleError {
    /// Sentences whose transcription does not align with their syllables.
    SentenceAlignment(Vec<(usize, SentenceAlignError)>),
    /// Dictionary entries whose romanization does not align with their
    /// transcription.
    VocabAlignment(Vec<(InternalKey, VocabAlignError)>),
    /// Records whose decomposition does not reconstruct or resolve.
    Decomposition(Vec<(usize, DecompositionError)>),
    /// A transcription the glyph counter cannot walk.
    CharCount(CharCountError),
}

pub open spec fn kcount_view(v: Seq<(InternalKey, usize)>) -> Seq<(KeyV, int)> {
    v.map_values(|e: (InternalKey, usize)| (e.0@, e.1 as int))
}

/// The terminal aggregate: the resolved rows, the used vocabulary in
/// first-use order, the per-key usage counters, and the per-glyph counters.
pub struct DataBundle {
    pub rows3: Vec<Rows3Item>,
    pub vocab_ordered: linked_hash_map::LinkedHashMap<InternalKey, vocab::Item>,
    pub vocab_count: Vec<(InternalKey, usize)>,
    pub char_count: Vec<(Linzklar, usize)>,
}

/// What a successfully built bundle holds, given the two tables, the corpus
/// rows and the dictionary.
pub open spec fn bundle_ok(
    b: DataBundle,
    cv: Seq<(char, PekZepSyllable)>,
    xv: Seq<(Seq<char>, PekZepSyllable)>,
    rv: Seq<(Seq<ExtSyllable>, phrase::ItemV)>,
    ev: Seq<(KeyV, vocab::ItemV)>,
) -> bool {
    &&& b.rows3@.len() == rv.len()
    &&& forall|i: int|
        0 <= i < rv.len() ==> (#[trigger] b.rows3@[i])@.syllables == rv[i].0 && b.rows3@[i]@.row
            == rv[i].1 && decomposition_spec(ev, rv[i].1) == Ok::<Seq<Seq<DecompItemV>>, DecompErrV>(
            b.rows3@[i]@.decomposition,
        )
    &&& vocab_map_entries(b.vocab_ordered) == used_fold(corpus_items(ev, rv), Seq::empty())
    &&& kcount_view(b.vocab_count@) == count_fold(corpus_items(ev, rv), Seq::empty())
    &&& corpus_glyphs(rv) matches Ok(g) && counts_ok(count_tab_view(b.char_count@), g)
}

/// What `DataBundle::new` returns: the stages run in order — sentence
/// alignment, vocabulary alignment, decomposition resolution, glyph counting
/// — and the first stage with failures reports all of them.
pub open spec fn bundle_new_post(
    cv: Seq<(char, PekZepSyllable)>,
    xv: Seq<(Seq<char>, PekZepSyllable)>,
    rv: Seq<(Seq<ExtSyllable>, phrase::ItemV)>,
    ev: Seq<(KeyV, vocab::ItemV)>,
    r: Result<DataBundle, BundleError>,
) -> bool {
    let s_errs = sentence_errors_fold(rv, 0, cv, xv, Seq::empty());
    let v_errs = vocab_errors_fold(ev, cv, xv, Seq::empty());
    let d_errs = decomp_errors_fold(ev, rv, 0, Seq::empty());
    match r {
        Err(BundleError::SentenceAlignment(es)) => s_errs.len() > 0 && sentence_error_list_view(
            es@,
        ) == s_errs,
        Err(BundleError::VocabAlignment(es)) => s_errs.len() == 0 && v_errs.len() > 0
            && vocab_error_list_view(es@) == v_errs,
        Err(BundleError::Decomposition(es)) => s_errs.len() == 0 && v_errs.len() == 0
            && d_errs.len() > 0 && decomp_error_list_view(es@) == d_errs,
        Err(BundleError::CharCount(e)) => s_errs.len() == 0 && v_errs.len() == 0 && d_errs.len()
            == 0 && corpus_glyphs(rv) == Err::<Seq<char>, CharCountError>(e),
        Ok(b) => s_errs.len() == 0 && v_errs.len() == 0 && d_errs.len() == 0 && bundle_ok(
            b,
            cv,
            xv,
            rv,
            ev,
        ),
    }
}

impl DecompositionItem {
    /// An item carrying the same values.
    pub fn duplicate(&self) -> (r: DecompositionItem)
        ensures
            r@ == self@,
    {
        DecompositionItem {
            key: self.key.duplicate(),
            voc: self.voc.duplicate(),
            splittable_compound_info: self.splittable_compound_info,
        }
    }
}

/// Adds one resolved item to the usage counters.
fn bump_key_count(
    counts: &mut Vec<(InternalKey, usize)>,
    item: &DecompositionItem,
    seen: Ghost<Seq<DecompItemV>>,
)
    requires
        kcount_view(old(counts)@) == count_fold(seen@, Seq::empty()),
        seen@.len() < usize::MAX,
    ensures
        kcount_view(final (counts)@) == count_fold(seen@.push(item@), Seq::empty()),
{
    let ghost cview = kcount_view(counts@);
    let ghost k = item.key@;
    proof {
        lemma_usage_fold(seen@, Seq::empty(), Seq::empty());
        lemma_count_fold_push_step(seen@, item@);
    }
    let mut p: usize = 0;
    let mut found: bool = false;
    while p < counts.len() && !found
        invariant
            p <= counts@.len(),
            k == item.key@,
            cview == kcount_view(counts@),
            cview.len() == counts@.len(),
            forall|q: int| 0 <= q < p ==> (#[trigger] cview[q]).0 != k,
            found ==> p < counts@.len() && cview[p as int].0 == k,
        decreases counts@.len() - p, (if found { 0int } else { 1int }),
    {
        assert(cview[p as int] == (counts@[p as int].0@, counts@[p as int].1 as int));
        if vocab::key_eq(&counts[p].0, &item.key) {
            proof {
                assert(cview[p as int].0 == k);
            }
            found = true;
        } else {
            proof {
                assert(cview[p as int].0 != k);
            }
            p = p + 1;
        }
    }
    let ghost old_counts = counts@;
    if found {
        proof {
            lemma_find_kcount_at(cview, k, p as int);
            assert(cview[p as int] == (counts@[p as int].0@, counts@[p as int].1 as int));
            // the counter stays below the number of items seen
            lemma_sum_counts_at_most(cview, p as int);
            assert(counts@[p as int].1 < usize::MAX);
        }
        let key = counts[p].0.duplicate();
        let cnt = counts[p].1;
        counts.set(p, (key, cnt + 1));
        proof {
            assert(kcount_view(counts@) =~= cview.update(p as int, (k, cview[p as int].1 + 1)));
        }
    } else {
        proof {
            lemma_find_kcount_none(cview, k);
        }
        counts.push((item.key.duplicate(), 1));
        proof {
            assert(kcount_view(counts@) =~= cview.push((k, 1int)));
        }
    }
}

/// Appending one item to the stream applies one counting step to the fold.
proof fn lemma_count_fold_push_step(items: Seq<DecompItemV>, x: DecompItemV)
    ensures
        ({
            let c = count_fold(items, Seq::empty());
            let i = find_kcount(c, x.key);
            count_fold(items.push(x), Seq::empty()) == (if i >= 0 {
                c.update(i, (x.key, c[i].1 + 1))
            } else {
                c.push((x.key, 1int))
            })
        }),
{
    lemma_count_fold_push(items, Seq::empty(), x);
}

proof fn lemma_count_fold_push(items: Seq<DecompItemV>, acc: Seq<(KeyV, int)>, x: DecompItemV)
    ensures
        ({
            let c = count_fold(items, acc);
            let i = find_kcount(c, x.key);
            count_fold(items.push(x), acc) == (if i >= 0 {
                c.update(i, (x.key, c[i].1 + 1))
            } else {
                c.push((x.key, 1int))
            })
        }),
    decreases items.len(),
{
    if items.len() == 0 {
        let i0 = find_kcount(acc, x.key);
        let acc1 = if i0 >= 0 {
            acc.update(i0, (x.key, acc[i0].1 + 1))
        } else {
            acc.push((x.key, 1int))
        };
        assert(items.push(x)[0] == x);
        assert(items.push(x).drop_first() =~= Seq::<DecompItemV>::empty());
        assert(count_fold(items.push(x), acc) == count_fold(Seq::<DecompItemV>::empty(), acc1));
        assert(count_fold(Seq::<DecompItemV>::empty(), acc1) == acc1);
        assert(count_fold(items, acc) == acc);
    } else {
        assert(items.push(x)[0] == items[0]);
        assert(items.push(x).drop_first() =~= items.drop_first().push(x));
        let k0 = items[0].key;
        let i0 = find_kcount(acc, k0);
        let acc1 = if i0 >= 0 {
            acc.update(i0, (k0, acc[i0].1 + 1))
        } else {
            acc.push((k0, 1int))
        };
        lemma_count_fold_push(items.drop_first(), acc1, x);
    }
}

/// Appending one item to the stream applies one first-use step to the fold.
proof fn lemma_used_fold_push(
    items: Seq<DecompItemV>,
    acc: Seq<(KeyV, vocab::ItemV)>,
    x: DecompItemV,
)
    ensures
        ({
            let u = used_fold(items, acc);
            used_fold(items.push(x), acc) == (if vocab::find_key(u, x.key) >= 0 {
                u
            } else {
                u.push((x.key, x.voc))
            })
        }),
    decreases items.len(),
{
    if items.len() == 0 {
        let acc1 = if vocab::find_key(acc, x.key) >= 0 {
            acc
        } else {
            acc.push((x.key, x.voc))
        };
        assert(items.push(x)[0] == x);
        assert(items.push(x).drop_first() =~= Seq::<DecompItemV>::empty());
        assert(used_fold(items.push(x), acc) == used_fold(Seq::<DecompItemV>::empty(), acc1));
        assert(used_fold(Seq::<DecompItemV>::empty(), acc1) == acc1);
        assert(used_fold(items, acc) == acc);
    } else {
        assert(items.push(x)[0] == items[0]);
        assert(items.push(x).drop_first() =~= items.drop_first().push(x));
        let k0 = items[0].key;
        if vocab::find_key(acc, k0) >= 0 {
            lemma_used_fold_push(items.drop_first(), acc, x);
        } else {
            lemma_used_fold_push(items.drop_first(), acc.push((k0, items[0].voc)), x);
        }
    }
}

/// Every counter is at most the sum of all counters.
proof fn lemma_sum_counts_at_most(acc: Seq<(KeyV, int)>, i: int)
    requires
        0 <= i < acc.len(),
        forall|j: int| 0 <= j < acc.len() ==> (#[trigger] acc[j]).1 >= 1,
    ensures
        acc[i].1 <= sum_counts(acc),
    decreases acc.len(),
{
    if i == acc.len() - 1 {
        lemma_sum_counts_nonneg(acc.drop_last());
    } else {
        assert forall|j: int| 0 <= j < acc.drop_last().len() implies (#[trigger] acc.drop_last()[j]).1
            >= 1 by {
            assert(acc.drop_last()[j] == acc[j]);
        }
        lemma_sum_counts_at_most(acc.drop_last(), i);
    }
}

proof fn lemma_sum_counts_nonneg(acc: Seq<(KeyV, int)>)
    requires
        forall|j: int| 0 <= j < acc.len() ==> (#[trigger] acc[j]).1 >= 1,
    ensures
        sum_counts(acc) >= 0,
    decreases acc.len(),
{
    if acc.len() > 0 {
        assert forall|j: int| 0 <= j < acc.drop_last().len() implies (#[trigger] acc.drop_last()[j]).1
            >= 1 by {
            assert(acc.drop_last()[j] == acc[j]);
        }
        lemma_sum_counts_nonneg(acc.drop_last());
    }
}

} // verus!

verus! {

/// Flattens a resolved decomposition into its items, in reading order.
fn flatten_decomposition(d: &Vec<Vec<DecompositionItem>>) -> (r: Vec<DecompositionItem>)
    ensures
        clause_items_view(r@) == flatten_clauses(decomp_view(d@)),
{
    let ghost cs = decomp_view(d@);
    let mut out: Vec<DecompositionItem> = Vec::new();
    let mut ci: usize = 0;
    proof {
        assert(cs.skip(0) =~= cs);
        assert(clause_items_view(out@) + flatten_clauses(cs) =~= flatten_clauses(cs));
    }
    while ci < d.len()
        invariant
            ci <= d@.len(),
            cs == decomp_view(d@),
            cs.len() == d@.len(),
            flatten_clauses(cs) == clause_items_view(out@) + flatten_clauses(cs.skip(ci as int)),
        decreases d@.len() - ci,
    {
        let ghost suf = cs.skip(ci as int);
        proof {
            assert(suf[0] == cs[ci as int]);
            assert(cs[ci as int] == clause_items_view(d@[ci as int]@));
            assert(suf.drop_first() =~= cs.skip(ci + 1));
        }
        let clause = &d[ci];
        let mut ii: usize = 0;
        while ii < clause.len()
            invariant
                ii <= clause@.len(),
                cs == decomp_view(d@),
                cs.len() == d@.len(),
                ci < d@.len(),
                clause == &d@[ci as int],
                flatten_clauses(cs) == clause_items_view(out@) + clause_items_view(
                    clause@.skip(ii as int),
                ) + flatten_clauses(cs.skip(ci + 1)),
            decreases clause@.len() - ii,
        {
            let ghost prev = clause_items_view(out@);
            let ghost isuf = clause_items_view(clause@.skip(ii as int));
            proof {
                assert(isuf[0] == clause@[ii as int]@);
                assert(clause_items_view(clause@.skip(ii + 1)) =~= isuf.drop_first());
            }
            out.push(clause[ii].duplicate());
            ii = ii + 1;
            proof {
                assert(clause_items_view(out@) =~= prev.push(clause@[ii - 1]@));
                assert((prev.push(clause@[ii - 1]@)) + clause_items_view(
                    clause@.skip(ii as int),
                ) =~= prev + isuf);
            }
        }
        ci = ci + 1;
        proof {
            assert(clause_items_view(clause@.skip(clause@.len() as int)) =~= Seq::<
                DecompItemV,
            >::empty());
            assert(clause_items_view(out@) + Seq::<DecompItemV>::empty() =~= clause_items_view(
                out@,
            ));
        }
    }
    proof {
        assert(flatten_clauses(cs.skip(ci as int)) =~= Seq::<DecompItemV>::empty());
        assert(clause_items_view(out@) + Seq::<DecompItemV>::empty() =~= clause_items_view(out@));
    }
    out
}

impl DataBundle {
    /// Builds the bundle from the four loaded tables: aligns every sentence,
    /// aligns every dictionary entry, checks and resolves every decomposition,
    /// and counts key and glyph usage. Each checking stage gathers all its
    /// failures and the first failing stage stops the construction.
    pub fn new(
        char_pronunciation: CharSoundTable,
        contraction_pronunciation: SoundTable,
        spoonfed_rows: Vec<(Vec<ExtSyllable>, phrase::Item)>,
        vocab: Catalog,
    ) -> (r: Result<DataBundle, BundleError>)
        ensures
            bundle_new_post(
                char_tab_view(char_pronunciation@),
                contr_tab_view(contraction_pronunciation@),
                phrase::pairs_view(spoonfed_rows@),
                vocab.entries_view(),
                r,
            ),
    {
        let ghost cv = char_tab_view(char_pronunciation@);
        let ghost xv = contr_tab_view(contraction_pronunciation@);
        let ghost rv = phrase::pairs_view(spoonfed_rows@);
        let ghost ev = vocab.entries_view();
        match check_sentence_pronunciation(
            &spoonfed_rows,
            &char_pronunciation,
            &contraction_pronunciation,
        ) {
            Err(es) => {
                return Err(BundleError::SentenceAlignment(es));
            },
            Ok(()) => {},
        }
        match check_vocab_pronunciation(&vocab, &char_pronunciation, &contraction_pronunciation) {
            Err(es) => {
                return Err(BundleError::VocabAlignment(es));
            },
            Ok(()) => {},
        }
        let counted = char_count(&spoonfed_rows);
        // resolve every decomposition, keeping every failure
        let mut remaining = spoonfed_rows;
        let mut rows3: Vec<Rows3Item> = Vec::new();
        let mut derrs: Vec<(usize, DecompositionError)> = Vec::new();
        let mut i: usize = 0;
        proof {
            assert(rv.skip(0) =~= rv);
            assert(decomp_error_list_view(derrs@) =~= Seq::<(int, DecompErrV)>::empty());
        }
        proof {
            assert(rv.len() == remaining.len());
        }
        while remaining.len() > 0
            invariant
                i + remaining@.len() == rv.len(),
                rv.len() <= usize::MAX,
                ev == vocab.entries_view(),
                phrase::pairs_view(remaining@) == rv.skip(i as int),
                decomp_errors_fold(ev, rv, 0, Seq::empty()) == decomp_errors_fold(
                    ev,
                    rv.skip(i as int),
                    i as int,
                    decomp_error_list_view(derrs@),
                ),
                derrs@.len() == 0 ==> rows3@.len() == i && forall|j: int|
                    0 <= j < i ==> (#[trigger] rows3@[j])@.syllables == rv[j].0 && rows3@[j]@.row
                        == rv[j].1 && decomposition_spec(ev, rv[j].1) == Ok::<
                        Seq<Seq<DecompItemV>>,
                        DecompErrV,
                    >(rows3@[j]@.decomposition),
            decreases remaining@.len(),
        {
            let ghost suf = rv.skip(i as int);
            proof {
                assert(suf[0] == phrase::pairs_view(remaining@)[0]);
                assert(phrase::pairs_view(remaining@)[0] == (remaining@[0].0@, remaining@[0].1@));
                assert(suf.drop_first() =~= rv.skip(i + 1));
            }
            let pair = remaining.remove(0);
            proof {
                assert(phrase::pairs_view(remaining@) =~= rv.skip(i + 1));
            }
            match verify_decomposed(&vocab, &pair.1) {
                Err(e) => {
                    let ghost prev = decomp_error_list_view(derrs@);
                    let ghost everr = decomposition_error_view(e);
                    derrs.push((i, e));
                    proof {
                        assert(decomp_error_list_view(derrs@) =~= prev.push((i as int, everr)));
                    }
                },
                Ok(decomposition) => {
                    let entry = Rows3Item { syllables: pair.0, decomposition, row: pair.1 };
                    rows3.push(entry);
                },
            }
            i = i + 1;
        }
        proof {
            assert(rv.skip(i as int).len() == 0);
        }
        if derrs.len() > 0 {
            proof {
                assert(decomp_error_list_view(derrs@).len() > 0);
            }
            return Err(BundleError::Decomposition(derrs));
        }
        proof {
            assert(decomp_error_list_view(derrs@).len() == 0);
        }
        let char_count_tab = match counted {
            Err(e) => {
                return Err(BundleError::CharCount(e));
            },
            Ok(t) => t,
        };
        // flatten every resolved item, in reading order
        let mut items: Vec<DecompositionItem> = Vec::new();
        let mut j: usize = 0;
        proof {
            assert(rv.skip(0) =~= rv);
            assert(clause_items_view(items@) + corpus_items(ev, rv) =~= corpus_items(ev, rv));
        }
        while j < rows3.len()
            invariant
                j <= rows3@.len(),
                rows3@.len() == rv.len(),
                ev == vocab.entries_view(),
                forall|q: int|
                    0 <= q < rv.len() ==> (#[trigger] rows3@[q])@.syllables == rv[q].0
                        && rows3@[q]@.row == rv[q].1 && decomposition_spec(ev, rv[q].1) == Ok::<
                        Seq<Seq<DecompItemV>>,
                        DecompErrV,
                    >(rows3@[q]@.decomposition),
                corpus_items(ev, rv) == clause_items_view(items@) + corpus_items(
                    ev,
                    rv.skip(j as int),
                ),
            decreases rows3@.len() - j,
        {
            let ghost suf = rv.skip(j as int);
            proof {
                assert(suf[0] == rv[j as int]);
                assert(suf.drop_first() =~= rv.skip(j + 1));
            }
            let ghost prev = clause_items_view(items@);
            let row_items = flatten_decomposition(&rows3[j].decomposition);
            let mut k: usize = 0;
            while k < row_items.len()
                invariant
                    k <= row_items@.len(),
                    clause_items_view(items@) == prev + clause_items_view(row_items@.take(k as int)),
                decreases row_items@.len() - k,
            {
                let ghost before = clause_items_view(items@);
                items.push(row_items[k].duplicate());
                k = k + 1;
                proof {
                    assert(clause_items_view(items@) =~= before.push(row_items@[k - 1]@));
                    assert(clause_items_view(row_items@.take(k as int)) =~= clause_items_view(
                        row_items@.take(k - 1),
                    ).push(row_items@[k - 1]@));
                    assert(prev + clause_items_view(row_items@.take(k - 1)).push(
                        row_items@[k - 1]@,
                    ) =~= (prev + clause_items_view(row_items@.take(k - 1))).push(
                        row_items@[k - 1]@,
                    ));
                }
            }
            j = j + 1;
            proof {
                assert(row_items@.take(row_items@.len() as int) =~= row_items@);
                assert(prev + clause_items_view(row_items@) =~= prev + flatten_clauses(
                    rows3@[j - 1]@.decomposition,
                ));
                assert(prev + flatten_clauses(rows3@[j - 1]@.decomposition) + corpus_items(
                    ev,
                    rv.skip(j as int),
                ) =~= clause_items_view(items@) + corpus_items(ev, rv.skip(j as int)));
            }
        }
        proof {
            assert(corpus_items(ev, rv.skip(j as int)) =~= Seq::<DecompItemV>::empty());
            assert(clause_items_view(items@) + Seq::<DecompItemV>::empty() =~= clause_items_view(
                items@,
            ));
        }
        // first-use catalog and usage counters
        let mut ordered = vocab_map_new();
        let mut counts: Vec<(InternalKey, usize)> = Vec::new();
        let mut n: usize = 0;
        proof {
            assert(clause_items_view(items@.take(0)) =~= Seq::<DecompItemV>::empty());
            assert(kcount_view(counts@) =~= Seq::<(KeyV, int)>::empty());
        }
        while n < items.len()
            invariant
                n <= items@.len(),
                vocab_map_entries(ordered) == used_fold(
                    clause_items_view(items@.take(n as int)),
                    Seq::empty(),
                ),
                kcount_view(counts@) == count_fold(
                    clause_items_view(items@.take(n as int)),
                    Seq::empty(),
                ),
            decreases items@.len() - n,
        {
            let ghost seen = clause_items_view(items@.take(n as int));
            let it = &items[n];
            proof {
                assert(clause_items_view(items@.take(n + 1)) =~= seen.push(items@[n as int]@));
                lemma_used_fold_push(seen, Seq::empty(), items@[n as int]@);
            }
            if !vocab_map_contains(&ordered, &it.key) {
                vocab_map_insert(&mut ordered, it.key.duplicate(), it.voc.duplicate());
            }
            assert(n < items.len());
            bump_key_count(&mut counts, it, Ghost(seen));
            n = n + 1;
        }
        proof {
            assert(items@.take(items@.len() as int) =~= items@);
        }
        Ok(
            DataBundle {
                rows3,
                vocab_ordered: ordered,
                vocab_count: counts,
                char_count: char_count_tab,
            },
        )
    }
}

} // verus!

verus! {

/// Usage accounting law, stated of a built bundle: the sum of its per-key
/// usage counters equals the total number of resolved gloss tokens across all
/// decompositions, and the used catalog holds exactly the distinct keys with
/// a positive counter, in first-use order.
pub proof fn lemma_bundle_usage_accounting(
    b: DataBundle,
    cv: Seq<(char, PekZepSyllable)>,
    xv: Seq<(Seq<char>, PekZepSyllable)>,
    rv: Seq<(Seq<ExtSyllable>, phrase::ItemV)>,
    ev: Seq<(KeyV, vocab::ItemV)>,
)
    requires
        bundle_ok(b, cv, xv, rv, ev),
    ensures
        sum_counts(kcount_view(b.vocab_count@)) == corpus_items(ev, rv).len(),
        vocab_map_entries(b.vocab_ordered).len() == b.vocab_count@.len(),
        usage_wf(vocab_map_entries(b.vocab_ordered), kcount_view(b.vocab_count@)),
{
    lemma_usage_accounting(corpus_items(ev, rv));
}

// ------------------------------------------------------------------
// Style warnings: advisory only, never blocking
// ------------------------------------------------------------------

/// The variant-table pairs whose non-recommended glyph occurs in the text.
pub open spec fn nonrecommended_spec(
    s: Seq<char>,
    variants: Seq<(Linzklar, Linzklar)>,
) -> Seq<(Linzklar, Linzklar)>
    decreases variants.len(),
{
    if variants.len() == 0 {
        Seq::empty()
    } else if text::seq_contains_char(s, variants[0].0@) {
        seq![variants[0]] + nonrecommended_spec(s, variants.drop_first())
    } else {
        nonrecommended_spec(s, variants.drop_first())
    }
}

/// Which substitution-table rows the text offends: each returned pair names a
/// non-recommended glyph occurring in the text and its recommended variant.
pub fn check_nonrecommended_character(s: &str, variants: &NonRecommendedCharTable) -> (r: Vec<
    (Linzklar, Linzklar),
>)
    ensures
        r@ == nonrecommended_spec(s@, variants@),
{
    let t = text::chars_vec(s);
    proof {
        assert(variants@.skip(0) =~= variants@);
    }
    check_nonrecommended_from(&t, variants, 0)
}

fn check_nonrecommended_from(
    t: &Vec<char>,
    variants: &NonRecommendedCharTable,
    i: usize,
) -> (r: Vec<(Linzklar, Linzklar)>)
    requires
        i <= variants@.len(),
    ensures
        r@ == nonrecommended_spec(t@, variants@.skip(i as int)),
    decreases variants@.len() - i,
{
    let ghost suf = variants@.skip(i as int);
    if i == variants.len() {
        let r: Vec<(Linzklar, Linzklar)> = Vec::new();
        return r;
    }
    proof {
        assert(suf[0] == variants@[i as int]);
        assert(suf.drop_first() =~= variants@.skip(i + 1));
    }
    let hit = text::contains_char(t, variants[i].0.as_char());
    let mut rest = check_nonrecommended_from(t, variants, i + 1);
    if hit {
        let ghost rest_view = rest@;
        rest.insert(0, (variants[i].0, variants[i].1));
        proof {
            assert(rest@ =~= seq![variants@[i as int]] + rest_view);
        }
    }
    rest
}

/// Whether the transcription speaks of jumping or dancing while the English
/// translation does not.
pub open spec fn kan1_warning_spec(hanzi: Seq<char>, english: Seq<char>) -> bool {
    text::seq_contains_char(hanzi, '躍') && !text::seq_contains_pat(english, "jump"@)
        && !text::seq_contains_pat(english, "dance"@)
}

/// Warns when `躍` occurs without `jump` or `dance` in the translation.
pub fn check_kan1(pekzep_hanzi: &str, english: &str) -> (r: bool)
    ensures
        r == kan1_warning_spec(pekzep_hanzi@, english@),
{
    let h = text::chars_vec(pekzep_hanzi);
    let e = text::chars_vec(english);
    let jump = text::chars_vec("jump");
    let dance = text::chars_vec("dance");
    proof {
        reveal_strlit("jump");
        reveal_strlit("dance");
    }
    text::contains_char(&h, '躍') && !text::contains_pat(&e, &jump) && !text::contains_pat(
        &e,
        &dance,
    )
}

/// Whether the transcription speaks of a wall while the translation does not.
pub open spec fn co1_warning_spec(hanzi: Seq<char>, english: Seq<char>) -> bool {
    text::seq_contains_char(hanzi, '壁') && !text::seq_contains_pat(english, "wall"@)
}

/// Warns when `壁` occurs without `wall` in the translation.
pub fn check_co1(pekzep_hanzi: &str, english: &str) -> (r: bool)
    ensures
        r == co1_warning_spec(pekzep_hanzi@, english@),
{
    let h = text::chars_vec(pekzep_hanzi);
    let e = text::chars_vec(english);
    let wall = text::chars_vec("wall");
    proof {
        reveal_strlit("wall");
    }
    text::contains_char(&h, '壁') && !text::contains_pat(&e, &wall)
}

/// Whether punctuation follows `之` somewhere in the text.
pub open spec fn punct_after_zhi_spec(s: Seq<char>) -> bool {
    ||| text::seq_contains_pat(s, seq!['之', '。'])
    ||| text::seq_contains_pat(s, seq!['之', '！'])
    ||| text::seq_contains_pat(s, seq!['之', '？'])
    ||| text::seq_contains_pat(s, seq!['之', '」'])
}

/// Whether some `噫` is followed by anything other than `)。！？」`, the end
/// of the text included not.
pub open spec fn bare_yi_spec(s: Seq<char>) -> bool {
    exists|i: int|
        0 <= i < s.len() - 1 && #[trigger] s[i] == '噫' && s[i + 1] != ')' && s[i + 1] != '。' && s[i
            + 1] != '！' && s[i + 1] != '？' && s[i + 1] != '」'
}

/// Warns about suspicious punctuation around `之` and `噫`: the first result
/// asks for punctuation after `之` to be reconsidered, the second for a bare
/// `噫` to be reconsidered.
pub fn check_a(s: &str) -> (r: (bool, bool))
    ensures
        r.0 == punct_after_zhi_spec(s@),
        r.1 == bare_yi_spec(s@),
{
    let t = text::chars_vec(s);
    let mut zhi_warn = false;
    let pats: [char; 4] = ['。', '！', '？', '」'];
    let mut pi: usize = 0;
    while pi < 4
        invariant
            pi <= 4,
            t@ == s@,
            pats@ =~= seq!['。', '！', '？', '」'],
            zhi_warn == (exists|q: int|
                0 <= q < pi && text::seq_contains_pat(t@, seq!['之', #[trigger] pats@[q]])),
        decreases 4 - pi,
    {
        let mut pat: Vec<char> = Vec::new();
        pat.push('之');
        pat.push(pats[pi]);
        assert(pat@ =~= seq!['之', pats@[pi as int]]);
        if text::contains_pat(&t, &pat) {
            zhi_warn = true;
            proof {
                assert(text::seq_contains_pat(t@, seq!['之', pats@[pi as int]]));
            }
        }
        pi = pi + 1;
        proof {
            if zhi_warn {
            } else {
                assert forall|q: int| 0 <= q < pi implies !text::seq_contains_pat(
                    t@,
                    seq!['之', #[trigger] pats@[q]],
                ) by {}
            }
        }
    }
    proof {
        assert(pats@[0] == '。' && pats@[1] == '！' && pats@[2] == '？' && pats@[3] == '」');
        if zhi_warn {
            let q = choose|q: int|
                0 <= q < 4 && text::seq_contains_pat(t@, seq!['之', #[trigger] pats@[q]]);
            assert(punct_after_zhi_spec(s@));
        }
        if punct_after_zhi_spec(s@) {
            if text::seq_contains_pat(s@, seq!['之', '。']) {
                assert(text::seq_contains_pat(t@, seq!['之', #[trigger] pats@[0]]));
            } else if text::seq_contains_pat(s@, seq!['之', '！']) {
                assert(text::seq_contains_pat(t@, seq!['之', #[trigger] pats@[1]]));
            } else if text::seq_contains_pat(s@, seq!['之', '？']) {
                assert(text::seq_contains_pat(t@, seq!['之', #[trigger] pats@[2]]));
            } else {
                assert(text::seq_contains_pat(t@, seq!['之', #[trigger] pats@[3]]));
            }
        }
    }
    let mut yi_warn = false;
    let mut i: usize = 0;
    let n = t.len();
    if n > 0 {
        while i < n - 1
            invariant
                n == t@.len(),
                n >= 1,
                i <= t@.len(),
                t@ == s@,
                yi_warn == (exists|q: int|
                    0 <= q < i && #[trigger] t@[q] == '噫' && q + 1 < t@.len() && t@[q + 1] != ')'
                        && t@[q + 1] != '。' && t@[q + 1] != '！' && t@[q + 1] != '？' && t@[q + 1]
                        != '」'),
            decreases t@.len() - i,
        {
            assert(i + 1 < t.len());
            let c = t[i];
            let d = t[i + 1];
            if c == '噫' && d != ')' && d != '。' && d != '！' && d != '？' && d != '」' {
                yi_warn = true;
            }
            i = i + 1;
        }
    }
    proof {
        if yi_warn {
            assert(bare_yi_spec(s@));
        }
        if bare_yi_spec(s@) {
            let q = choose|q: int|
                0 <= q < s@.len() - 1 && #[trigger] s@[q] == '噫' && s@[q + 1] != ')' && s@[q + 1]
                    != '。' && s@[q + 1] != '！' && s@[q + 1] != '？' && s@[q + 1] != '」';
            assert(q < i);
        }
    }
    (zhi_warn, yi_warn)
}

/// Whether a space stands before a period or a comma.
pub open spec fn space_before_punct_spec(s: Seq<char>) -> bool {
    text::seq_contains_pat(s, seq![' ', '.']) || text::seq_contains_pat(s, seq![' ', ','])
}

/// Warns about a space before a period or a comma.
pub fn check_space_before_punctuation(s: &str) -> (r: bool)
    ensures
        r == space_before_punct_spec(s@),
{
    let t = text::chars_vec(s);
    let mut dot: Vec<char> = Vec::new();
    dot.push(' ');
    dot.push('.');
    let mut comma: Vec<char> = Vec::new();
    comma.push(' ');
    comma.push(',');
    proof {
        assert(dot@ =~= seq![' ', '.']);
        assert(comma@ =~= seq![' ', ',']);
    }
    text::contains_pat(&t, &dot) || text::contains_pat(&t, &comma)
}

// ------------------------------------------------------------------
// The unused-entry report
// ------------------------------------------------------------------

/// The dictionary keys that no decomposition ever used, in file order.
pub open spec fn unused_keys_spec(
    entries: Seq<(KeyV, vocab::ItemV)>,
    used: Seq<(KeyV, vocab::ItemV)>,
) -> Seq<KeyV>
    decreases entries.len(),
{
    if entries.len() == 0 {
        Seq::empty()
    } else if vocab::find_key(used, entries[0].0) < 0 {
        seq![entries[0].0] + unused_keys_spec(entries.drop_first(), used)
    } else {
        unused_keys_spec(entries.drop_first(), used)
    }
}

/// Reports every dictionary key the corpus never uses; advisory only.
pub fn unused_vocab_keys(catalog: &Catalog, bundle: &DataBundle) -> (r: Vec<InternalKey>)
    ensures
        r@.map_values(|k: InternalKey| k@) == unused_keys_spec(
            catalog.entries_view(),
            vocab_map_entries(bundle.vocab_ordered),
        ),
{
    proof {
        assert(catalog.entries_view().skip(0) =~= catalog.entries_view());
    }
    unused_keys_from(catalog, bundle, 0)
}

fn unused_keys_from(catalog: &Catalog, bundle: &DataBundle, i: usize) -> (r: Vec<InternalKey>)
    requires
        i <= catalog.entries@.len(),
    ensures
        r@.map_values(|k: InternalKey| k@) == unused_keys_spec(
            catalog.entries_view().skip(i as int),
            vocab_map_entries(bundle.vocab_ordered),
        ),
    decreases catalog.entries@.len() - i,
{
    let ghost suf = catalog.entries_view().skip(i as int);
    if i == catalog.entries.len() {
        let r: Vec<InternalKey> = Vec::new();
        assert(r@.map_values(|k: InternalKey| k@) =~= Seq::<KeyV>::empty());
        return r;
    }
    proof {
        assert(suf[0] == catalog.entries_view()[i as int]);
        assert(catalog.entries_view()[i as int] == (
            catalog.entries@[i as int].0@,
            catalog.entries@[i as int].1@,
        ));
        assert(suf.drop_first() =~= catalog.entries_view().skip(i + 1));
    }
    let absent = !vocab_map_contains(&bundle.vocab_ordered, &catalog.entries[i].0);
    let mut rest = unused_keys_from(catalog, bundle, i + 1);
    if absent {
        let ghost rest_view = rest@.map_values(|k: InternalKey| k@);
        rest.insert(0, catalog.entries[i].0.duplicate());
        proof {
            assert(rest@.map_values(|k: InternalKey| k@) =~= seq![suf[0].0] + rest_view);
        }
    }
    rest
}

/// The used vocabulary as a list of pairs, in first-use order.
pub fn used_vocab_entries(bundle: &DataBundle) -> (r: Vec<(InternalKey, vocab::Item)>)
    ensures
        r@.map_values(|e: (InternalKey, vocab::Item)| (e.0@, e.1@)) == vocab_map_entries(
            bundle.vocab_ordered,
        ),
{
    vocab_map_entries_vec(&bundle.vocab_ordered)
}

} // verus!

verus! {

/// Decomposition idempotence law: a record with a nonempty decomposition that
/// the resolver accepts reconstructs, character for character, its
/// transcription with the sentence punctuation removed.
pub proof fn lemma_decomposition_idempotence(
    entries: Seq<(KeyV, vocab::ItemV)>,
    item: phrase::ItemV,
)
    requires
        item.decomposed.len() > 0,
        decomposition_spec(entries, item) is Ok,
    ensures
        clauses_plaintext(item.decomposed) == strip_sentence_punct(item.pekzep_hanzi),
{
}

/// Resolution completeness law: a clause the resolver accepts has every
/// token's canonical key in the dictionary, and a clause it rejects is
/// rejected with an unknown-key error naming a key that is not there.
pub proof fn lemma_resolution_completeness(
    entries: Seq<(KeyV, vocab::ItemV)>,
    toks: Seq<KeyV>,
    context: Seq<char>,
)
    ensures
        resolve_clause(entries, toks, context) is Ok ==> forall|i: int|
            0 <= i < toks.len() ==> vocab::find_key(entries, canonical_key(#[trigger] toks[i]))
                >= 0,
        resolve_clause(entries, toks, context) matches Err(e) ==> e matches DecompErrV::UnknownKey {
            key,
            context: ctx,
        } && vocab::find_key(entries, key) < 0 && ctx == context,
    decreases toks.len(),
{
    if toks.len() > 0 {
        lemma_resolution_completeness(entries, toks.drop_first(), context);
        if resolve_clause(entries, toks, context) is Ok {
            assert forall|i: int|
                0 <= i < toks.len() implies vocab::find_key(
                entries,
                canonical_key(#[trigger] toks[i]),
            ) >= 0 by {
                if i > 0 {
                    assert(toks.drop_first()[i - 1] == toks[i]);
                }
            }
        }
    }
}

} // verus!
