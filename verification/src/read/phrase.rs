//! The phrase corpus: each row holds one sentence in its parallel encodings
//! (English, romanization, transcription, Chinese, Japanese), its gloss
//! decomposition, and bookkeeping about recordings.

use crate::read::vocab::{split_spec, InternalKeyGloss, KeyError, KeyV};
use crate::rerrliratixka::{latin_chars, parse_spec, PekZepSyllable};
use crate::text::{self, CharClass};
use vstd::prelude::*;
use vstd::string::StringExecFns;

verus! {

/// One alignment slot of a sentence: a syllable, or the non-syllabic `xizi`
/// token, which occupies a slot of its own.
#[derive(Debug, Clone, Eq, PartialEq, Hash, Copy, Structural)]
pub enum ExtSyllable {
    Syllable(PekZepSyllable),
    Xizi,
}

/// The romanized spelling of an alignment slot.
pub open spec fn ext_latin_chars(s: ExtSyllable) -> Seq<char> {
    match s {
        ExtSyllable::Syllable(syl) => latin_chars(syl),
        ExtSyllable::Xizi => seq!['x', 'i', 'z', 'i'],
    }
}

impl ExtSyllable {
    /// The romanized spelling of the slot.
    pub fn to_latin(&self) -> (r: String)
        ensures
            r@ == ext_latin_chars(*self),
    {
        match self {
            ExtSyllable::Syllable(syl) => syl.to_latin(),
            ExtSyllable::Xizi => {
                proof {
                    reveal_strlit("xizi");
                    assert("xizi"@ =~= seq!['x', 'i', 'z', 'i']);
                }
                let mut r = String::new();
                r.append("xizi");
                r
            },
        }
    }
}

/// The underscore-joined romanization of a whole syllable sequence, used as a
/// file-name stem.
pub open spec fn syllables_underscore_spec(sylls: Seq<ExtSyllable>) -> Seq<char> {
    text::join_with(sylls.map_values(|s: ExtSyllable| ext_latin_chars(s)), seq!['_'])
}

/// Joins the romanized spellings of the slots with underscores.
pub fn syllables_to_str_underscore(syllables: &[ExtSyllable]) -> (r: String)
    ensures
        r@ == syllables_underscore_spec(syllables@),
{
    let mut parts: Vec<Vec<char>> = Vec::new();
    let mut i: usize = 0;
    while i < syllables.len()
        invariant
            i <= syllables@.len(),
            parts.deep_view() == syllables@.take(i as int).map_values(
                |s: ExtSyllable| ext_latin_chars(s),
            ),
        decreases syllables@.len() - i,
    {
        let ghost prev = parts.deep_view();
        let ghost old_parts = parts;
        let s = syllables[i].to_latin();
        let piece = text::chars_vec(s.as_str());
        parts.push(piece);
        i = i + 1;
        proof {
            text::lemma_deep_view_push(old_parts, parts, piece);
            assert(piece.deep_view() =~= ext_latin_chars(syllables@[i - 1]));
            assert(prev.push(ext_latin_chars(syllables@[i - 1])) =~= syllables@.take(
                i as int,
            ).map_values(|s: ExtSyllable| ext_latin_chars(s)));
        }
    }
    let mut sep: Vec<char> = Vec::new();
    sep.push('_');
    proof {
        assert(sep@ =~= seq!['_']);
        assert(syllables@.take(syllables@.len() as int) =~= syllables@);
    }
    let joined = text::join_chars(&parts, &sep);
    text::chars_to_string(&joined)
}

// ------------------------------------------------------------------
// Encoding romanized text into syllable sequences
// ------------------------------------------------------------------

/// What one romanized token stands for: a syllable, the `xizi` slot, or
/// nothing recognizable.
pub open spec fn token_syllable(tok: Seq<char>) -> Option<ExtSyllable> {
    match parse_spec(tok) {
        Some(s) => Some(ExtSyllable::Syllable(s)),
        None => if tok == seq!['x', 'i', 'z', 'i'] {
            Some(ExtSyllable::Xizi)
        } else {
            None
        },
    }
}

/// The fold that encodes split tokens: empty tokens vanish, recognized tokens
/// append their slot, unrecognized tokens are gathered as errors.
pub open spec fn encode_fold(
    toks: Seq<Seq<char>>,
    acc: Seq<ExtSyllable>,
    errs: Seq<Seq<char>>,
) -> (Seq<ExtSyllable>, Seq<Seq<char>>)
    decreases toks.len(),
{
    if toks.len() == 0 {
        (acc, errs)
    } else if toks[0].len() == 0 {
        encode_fold(toks.drop_first(), acc, errs)
    } else {
        match token_syllable(toks[0]) {
            Some(s) => encode_fold(toks.drop_first(), acc.push(s), errs),
            None => encode_fold(toks.drop_first(), acc, errs.push(toks[0])),
        }
    }
}

/// What encoding a romanized text yields: the text splits at whitespace and
/// ASCII punctuation, and every nonempty token must be a syllable or `xizi`.
pub open spec fn encode_spec(s: Seq<char>) -> (Seq<ExtSyllable>, Seq<Seq<char>>) {
    encode_fold(text::split_cls(s, CharClass::SpaceOrPunct), Seq::empty(), Seq::empty())
}

/// Encodes a romanized text into its syllable sequence; all unrecognizable
/// tokens are gathered and returned together.
pub fn encode_to_pekzep_syllables(i: &str) -> (r: Result<Vec<ExtSyllable>, Vec<String>>)
    ensures
        ({
            let (sylls, errs) = encode_spec(i@);
            match r {
                Ok(v) => errs.len() == 0 && v@ == sylls,
                Err(e) => errs.len() > 0 && e.deep_view() == errs,
            }
        }),
{
    let t = text::chars_vec(i);
    let toks = text::split_chars(&t, CharClass::SpaceOrPunct);
    let ghost all = toks.deep_view();
    let mut acc: Vec<ExtSyllable> = Vec::new();
    let mut errs: Vec<String> = Vec::new();
    let mut k: usize = 0;
    proof {
        assert(all.skip(0) =~= all);
        assert(acc@ =~= Seq::<ExtSyllable>::empty());
        assert(errs.deep_view() =~= Seq::<Seq<char>>::empty());
    }
    let mut xizi: Vec<char> = Vec::new();
    xizi.push('x');
    xizi.push('i');
    xizi.push('z');
    xizi.push('i');
    proof {
        assert(xizi@ =~= seq!['x', 'i', 'z', 'i']);
    }
    while k < toks.len()
        invariant
            k <= toks@.len(),
            all == toks.deep_view(),
            all.len() == toks@.len(),
            xizi@ == seq!['x', 'i', 'z', 'i'],
            encode_fold(all, Seq::empty(), Seq::empty()) == encode_fold(
                all.skip(k as int),
                acc@,
                errs.deep_view(),
            ),
        decreases toks@.len() - k,
    {
        let ghost suf = all.skip(k as int);
        proof {
            assert(suf[0] == all[k as int]);
            assert(all[k as int] == toks@[k as int].deep_view());
            assert(toks@[k as int].deep_view() == toks@[k as int]@);
            assert(suf.drop_first() =~= all.skip(k + 1));
        }
        let tok = &toks[k];
        if tok.len() > 0 {
            match PekZepSyllable::parse_chars(tok) {
                Some(s) => {
                    acc.push(ExtSyllable::Syllable(s));
                },
                None => {
                    if text::chars_eq(tok, &xizi) {
                        acc.push(ExtSyllable::Xizi);
                    } else {
                        let ghost prev = errs.deep_view();
                        let ghost old_errs = errs;
                        let bad = text::chars_to_string(tok);
                        errs.push(bad);
                        proof {
                            text::lemma_deep_view_push(old_errs, errs, bad);
                        }
                    }
                },
            }
        }
        k = k + 1;
    }
    proof {
        assert(all.skip(k as int).len() == 0);
    }
    if errs.len() == 0 {
        proof {
            assert(errs.deep_view().len() == 0);
        }
        Ok(acc)
    } else {
        proof {
            assert(errs.deep_view().len() > 0);
        }
        Err(errs)
    }
}

// ------------------------------------------------------------------
// Sentence glosses
// ------------------------------------------------------------------

/// The gloss decomposition of one clause: an ordered sequence of gloss-form
/// identities.
#[derive(Debug, Clone)]
pub struct SentenceGloss(pub Vec<InternalKeyGloss>);

impl View for SentenceGloss {
    type V = Seq<KeyV>;

    open spec fn view(&self) -> Seq<KeyV> {
        self.0@.map_values(|k: InternalKeyGloss| k@)
    }
}

/// The transcription text a clause gloss reconstructs: the concatenation of
/// its tokens' contributions.
pub open spec fn gloss_plaintext_spec(toks: Seq<KeyV>) -> Seq<char>
    decreases toks.len(),
{
    if toks.len() == 0 {
        Seq::empty()
    } else {
        crate::read::vocab::plaintext_spec(toks[0].full()) + gloss_plaintext_spec(toks.drop_first())
    }
}

/// The debug rendering of a clause gloss: the tokens' surface forms joined
/// with periods.
pub open spec fn gloss_debugtext_spec(toks: Seq<KeyV>) -> Seq<char> {
    text::join_with(toks.map_values(|k: KeyV| k.full()), seq!['.'])
}

impl SentenceGloss {
    /// The transcription text this clause reconstructs.
    pub fn to_plaintext(&self) -> (r: String)
        ensures
            r@ == gloss_plaintext_spec(self@),
    {
        let mut out: Vec<char> = Vec::new();
        let mut i: usize = 0;
        proof {
            assert(self@.skip(0) =~= self@);
            assert(out@ + gloss_plaintext_spec(self@) =~= gloss_plaintext_spec(self@));
        }
        while i < self.0.len()
            invariant
                i <= self.0@.len(),
                self@.len() == self.0@.len(),
                gloss_plaintext_spec(self@) == out@ + gloss_plaintext_spec(self@.skip(i as int)),
            decreases self.0@.len() - i,
        {
            let ghost suf = self@.skip(i as int);
            let ghost prev = out@;
            proof {
                assert(suf[0] == self@[i as int]);
                assert(self@[i as int] == self.0@[i as int]@);
                assert(suf.drop_first() =~= self@.skip(i + 1));
            }
            let piece = self.0[i].to_plaintext();
            let piece_chars = text::chars_vec(piece.as_str());
            text::append_chars(&mut out, &piece_chars);
            i = i + 1;
            proof {
                assert(prev + (crate::read::vocab::plaintext_spec(suf[0].full())
                    + gloss_plaintext_spec(self@.skip(i as int))) =~= out@ + gloss_plaintext_spec(
                    self@.skip(i as int),
                ));
            }
        }
        proof {
            assert(gloss_plaintext_spec(self@.skip(i as int)) =~= Seq::<char>::empty());
            assert(out@ + Seq::<char>::empty() =~= out@);
        }
        text::chars_to_string(&out)
    }

    /// The clause gloss in its raw form, tokens joined with periods.
    pub fn to_debugtext(&self) -> (r: String)
        ensures
            r@ == gloss_debugtext_spec(self@),
    {
        let mut parts: Vec<Vec<char>> = Vec::new();
        let mut i: usize = 0;
        while i < self.0.len()
            invariant
                i <= self.0@.len(),
                self@.len() == self.0@.len(),
                parts.deep_view() == self@.take(i as int).map_values(|k: KeyV| k.full()),
            decreases self.0@.len() - i,
        {
            proof {
                assert(self@[i as int] == self.0@[i as int]@);
            }
            let ghost prev = parts.deep_view();
            let ghost old_parts = parts;
            let piece = self.0[i].full_chars();
            parts.push(piece);
            i = i + 1;
            proof {
                text::lemma_deep_view_push(old_parts, parts, piece);
                assert(piece.deep_view() =~= self@[i - 1].full());
                assert(prev.push(self@[i - 1].full()) =~= self@.take(i as int).map_values(
                    |k: KeyV| k.full(),
                ));
            }
        }
        let mut sep: Vec<char> = Vec::new();
        sep.push('.');
        proof {
            assert(sep@ =~= seq!['.']);
            assert(self@.take(self@.len() as int) =~= self@);
        }
        let joined = text::join_chars(&parts, &sep);
        text::chars_to_string(&joined)
    }
}

} // verus!

verus! {

// ------------------------------------------------------------------
// Rows and sentence records
// ------------------------------------------------------------------

/// Which kinds of recording files a sentence row declares.
#[derive(Debug, Clone, Copy, PartialEq, Eq, Hash, Structural)]
pub enum FilePathType {
    Wav,
    Oga,
}

/// Who recorded a sentence.
#[derive(Debug, Clone, PartialEq, Eq, Hash)]
pub enum Author {
    JektoVatimeliju,
    FaliraLyjotafis,
    Other(String),
}

/// The view of an author.
pub enum AuthorV {
    JektoVatimeliju,
    FaliraLyjotafis,
    Other(Seq<char>),
}

impl View for Author {
    type V = AuthorV;

    open spec fn view(&self) -> AuthorV {
        match self {
            Author::JektoVatimeliju => AuthorV::JektoVatimeliju,
            Author::FaliraLyjotafis => AuthorV::FaliraLyjotafis,
            Author::Other(s) => AuthorV::Other(s@),
        }
    }
}

/// The display name of an author.
pub open spec fn author_name_chars(a: AuthorV) -> Seq<char> {
    match a {
        AuthorV::JektoVatimeliju => "jekto.vatimeliju"@,
        AuthorV::FaliraLyjotafis => "falira.lyjotafis"@,
        AuthorV::Other(s) => s,
    }
}

impl Author {
    /// The display name of the author.
    pub fn name(&self) -> (r: String)
        ensures
            r@ == author_name_chars(self@),
    {
        match self {
            Author::JektoVatimeliju => String::from_str("jekto.vatimeliju"),
            Author::FaliraLyjotafis => String::from_str("falira.lyjotafis"),
            Author::Other(s) => s.clone(),
        }
    }
}

/// One raw row of the phrase file.
#[derive(Debug, Clone)]
pub struct Record {
    pub english: String,
    pub pekzep_latin: String,
    pub pekzep_hanzi: String,
    pub chinese_pinyin: String,
    pub chinese_hanzi: String,
    pub decomposed: String,
    pub filetype: String,
    pub recording_author: String,
    pub requires_substitution: String,
    pub japanese: String,
}

/// The view of one raw row.
pub struct RecordV {
    pub english: Seq<char>,
    pub pekzep_latin: Seq<char>,
    pub pekzep_hanzi: Seq<char>,
    pub chinese_pinyin: Seq<char>,
    pub chinese_hanzi: Seq<char>,
    pub decomposed: Seq<char>,
    pub filetype: Seq<char>,
    pub recording_author: Seq<char>,
    pub requires_substitution: Seq<char>,
    pub japanese: Seq<char>,
}

impl View for Record {
    type V = RecordV;

    open spec fn view(&self) -> RecordV {
        RecordV {
            english: self.english@,
            pekzep_latin: self.pekzep_latin@,
            pekzep_hanzi: self.pekzep_hanzi@,
            chinese_pinyin: self.chinese_pinyin@,
            chinese_hanzi: self.chinese_hanzi@,
            decomposed: self.decomposed@,
            filetype: self.filetype@,
            recording_author: self.recording_author@,
            requires_substitution: self.requires_substitution@,
            japanese: self.japanese@,
        }
    }
}

/// One parsed sentence record.
#[derive(Debug, Clone)]
pub struct Item {
    pub english: String,
    pub pekzep_latin: String,
    pub pekzep_hanzi: String,
    pub chinese_pinyin: String,
    pub chinese_hanzi: String,
    pub decomposed: Vec<SentenceGloss>,
    pub filetype: Vec<FilePathType>,
    pub recording_author: Option<Author>,
    pub japanese: String,
}

/// The view of one parsed sentence record.
pub struct ItemV {
    pub english: Seq<char>,
    pub pekzep_latin: Seq<char>,
    pub pekzep_hanzi: Seq<char>,
    pub chinese_pinyin: Seq<char>,
    pub chinese_hanzi: Seq<char>,
    pub decomposed: Seq<Seq<KeyV>>,
    pub filetype: Seq<FilePathType>,
    pub recording_author: Option<AuthorV>,
    pub japanese: Seq<char>,
}

impl View for Item {
    type V = ItemV;

    open spec fn view(&self) -> ItemV {
        ItemV {
            english: self.english@,
            pekzep_latin: self.pekzep_latin@,
            pekzep_hanzi: self.pekzep_hanzi@,
            chinese_pinyin: self.chinese_pinyin@,
            chinese_hanzi: self.chinese_hanzi@,
            decomposed: self.decomposed@.map_values(|g: SentenceGloss| g@),
            filetype: self.filetype@,
            recording_author: match self.recording_author {
                None => None,
                Some(a) => Some(a@),
            },
            japanese: self.japanese@,
        }
    }
}

// ------------------------------------------------------------------
// Row-level parsing, at the specification level
// ------------------------------------------------------------------

/// The ways one row can be rejected.
#[derive(Debug, Clone, PartialEq)]
pub enum RecordError {
    /// A gloss token the key codec rejects.
    Gloss { token: String, err: KeyError },
    /// An unknown file-type word.
    BadFileType(String),
    /// The romanization tokens that are neither syllables nor `xizi`.
    Syllables(Vec<String>),
}

/// The view of a row rejection.
pub enum RecordErrV {
    Gloss { token: Seq<char>, err: KeyError },
    BadFileType(Seq<char>),
    Syllables(Seq<Seq<char>>),
}

pub open spec fn record_error_view(e: RecordError) -> RecordErrV {
    match e {
        RecordError::Gloss { token, err } => RecordErrV::Gloss { token: token@, err },
        RecordError::BadFileType(s) => RecordErrV::BadFileType(s@),
        RecordError::Syllables(v) => RecordErrV::Syllables(v.deep_view()),
    }
}

/// What one clause of the decomposition field is: every period-separated
/// token must pass the key codec.
pub open spec fn clause_fold(toks: Seq<Seq<char>>) -> Result<Seq<KeyV>, (Seq<char>, KeyError)>
    decreases toks.len(),
{
    if toks.len() == 0 {
        Ok(Seq::empty())
    } else {
        match split_spec(toks[0]) {
            Err(e) => Err((toks[0], e)),
            Ok(k) => match clause_fold(toks.drop_first()) {
                Err(e) => Err(e),
                Ok(rest) => Ok(seq![k] + rest),
            },
        }
    }
}

pub open spec fn clauses_fold(cs: Seq<Seq<char>>) -> Result<Seq<Seq<KeyV>>, (Seq<char>, KeyError)>
    decreases cs.len(),
{
    if cs.len() == 0 {
        Ok(Seq::empty())
    } else {
        match clause_fold(text::split_cls(cs[0], CharClass::Exact('.'))) {
            Err(e) => Err(e),
            Ok(clause) => match clauses_fold(cs.drop_first()) {
                Err(e) => Err(e),
                Ok(rest) => Ok(seq![clause] + rest),
            },
        }
    }
}

/// What the decomposition field holds: clauses separated by `..`, tokens
/// separated by `.`; an empty field holds no clause at all.
pub open spec fn decomposed_spec(d: Seq<char>) -> Result<Seq<Seq<KeyV>>, (Seq<char>, KeyError)> {
    if d.len() == 0 {
        Ok(Seq::empty())
    } else {
        clauses_fold(text::split_pat(d, seq!['.', '.']))
    }
}

/// What the file-type field holds: a comma-separated set of `wav` and `oga`
/// words, whitespace-trimmed, duplicates kept once; an empty field holds none.
pub open spec fn filetype_fold(toks: Seq<Seq<char>>, acc: Seq<FilePathType>) -> Result<
    Seq<FilePathType>,
    Seq<char>,
>
    decreases toks.len(),
{
    if toks.len() == 0 {
        Ok(acc)
    } else {
        let t = text::trim_spec(toks[0]);
        if t == "wav"@ {
            filetype_fold(
                toks.drop_first(),
                if acc.contains(FilePathType::Wav) {
                    acc
                } else {
                    acc.push(FilePathType::Wav)
                },
            )
        } else if t == "oga"@ {
            filetype_fold(
                toks.drop_first(),
                if acc.contains(FilePathType::Oga) {
                    acc
                } else {
                    acc.push(FilePathType::Oga)
                },
            )
        } else {
            Err(toks[0])
        }
    }
}

pub open spec fn filetype_spec(f: Seq<char>) -> Result<Seq<FilePathType>, Seq<char>> {
    if f.len() == 0 {
        Ok(Seq::empty())
    } else {
        filetype_fold(text::split_cls(f, CharClass::Exact(',')), Seq::empty())
    }
}

/// Who the recording-author field names: the two known authors by their exact
/// names, an empty field nobody, anything else a named other.
pub open spec fn author_spec(s: Seq<char>) -> Option<AuthorV> {
    if s == "jekto.vatimeliju"@ {
        Some(AuthorV::JektoVatimeliju)
    } else if s == "falira.lyjotafis"@ {
        Some(AuthorV::FaliraLyjotafis)
    } else if s.len() == 0 {
        None
    } else {
        Some(AuthorV::Other(s))
    }
}

/// What parsing one row yields: the decomposition field is checked first,
/// then the file-type field.
pub open spec fn row_item_spec(r: RecordV) -> Result<ItemV, RecordErrV> {
    match decomposed_spec(r.decomposed) {
        Err((token, err)) => Err(RecordErrV::Gloss { token, err }),
        Ok(decomposed) => match filetype_spec(r.filetype) {
            Err(t) => Err(RecordErrV::BadFileType(t)),
            Ok(filetype) => Ok(
                ItemV {
                    english: r.english,
                    pekzep_latin: r.pekzep_latin,
                    pekzep_hanzi: r.pekzep_hanzi,
                    chinese_pinyin: r.chinese_pinyin,
                    chinese_hanzi: r.chinese_hanzi,
                    decomposed,
                    filetype,
                    recording_author: author_spec(r.recording_author),
                    japanese: r.japanese,
                },
            ),
        },
    }
}

// ------------------------------------------------------------------
// The corpus fold
// ------------------------------------------------------------------

/// Whether a syllable sequence already keys a kept row.
pub open spec fn has_sylls(acc: Seq<(Seq<ExtSyllable>, ItemV)>, s: Seq<ExtSyllable>) -> bool {
    exists|j: int| 0 <= j < acc.len() && acc[j].0 == s
}

/// The fold that builds the corpus: each row is parsed; rows whose
/// transcription carries `@` (not yet reviewed) and rows with an empty
/// syllable sequence are dropped; a row whose syllable sequence repeats an
/// earlier one is recorded as a duplicate and dropped; every other row is
/// kept, in order, keyed by its syllable sequence.
pub open spec fn corpus_fold(
    rows: Seq<RecordV>,
    at: int,
    acc: Seq<(Seq<ExtSyllable>, ItemV)>,
    dups: Seq<Seq<ExtSyllable>>,
) -> Result<(Seq<(Seq<ExtSyllable>, ItemV)>, Seq<Seq<ExtSyllable>>), (int, RecordErrV)>
    decreases rows.len(),
{
    if rows.len() == 0 {
        Ok((acc, dups))
    } else {
        let r = rows[0];
        match row_item_spec(r) {
            Err(e) => Err((at, e)),
            Ok(item) => {
                if text::seq_contains_char(r.pekzep_hanzi, '@') {
                    corpus_fold(rows.drop_first(), at + 1, acc, dups)
                } else {
                    let (sylls, errs) = encode_spec(r.pekzep_latin);
                    if errs.len() > 0 {
                        Err((at, RecordErrV::Syllables(errs)))
                    } else if sylls.len() == 0 {
                        corpus_fold(rows.drop_first(), at + 1, acc, dups)
                    } else if has_sylls(acc, sylls) {
                        corpus_fold(rows.drop_first(), at + 1, acc, dups.push(sylls))
                    } else {
                        corpus_fold(rows.drop_first(), at + 1, acc.push((sylls, item)), dups)
                    }
                }
            },
        }
    }
}

/// The ways the phrase file can be rejected.
#[derive(Debug, Clone, PartialEq)]
pub enum PhraseError {
    /// A row that does not parse; parsing stops at the first.
    Record { index: usize, err: RecordError },
    /// Syllable sequences that keyed more than one row, in row order.
    Duplicates(Vec<Vec<ExtSyllable>>),
}

pub open spec fn phrase_rows_view(rows: Seq<Record>) -> Seq<RecordV> {
    rows.map_values(|r: Record| r@)
}

pub open spec fn pairs_view(v: Seq<(Vec<ExtSyllable>, Item)>) -> Seq<(Seq<ExtSyllable>, ItemV)> {
    v.map_values(|e: (Vec<ExtSyllable>, Item)| (e.0@, e.1@))
}

/// What the parsed corpus is.
pub open spec fn phrase_parse_post(
    rows: Seq<RecordV>,
    r: Result<Vec<(Vec<ExtSyllable>, Item)>, PhraseError>,
) -> bool {
    match corpus_fold(rows, 0, Seq::empty(), Seq::empty()) {
        Err((at, ev)) => r matches Err(PhraseError::Record { index, err }) && index == at
            && record_error_view(err) == ev,
        Ok((entries, dups)) => {
            if dups.len() == 0 {
                r matches Ok(v) && pairs_view(v@) == entries
            } else {
                r matches Err(PhraseError::Duplicates(d)) && d@.map_values(
                    |s: Vec<ExtSyllable>| s@,
                ) == dups
            }
        },
    }
}

} // verus!

verus! {

/// Parses the period-separated tokens of one clause, from index `i` on.
fn parse_clause_tokens(toks: &Vec<Vec<char>>, i: usize) -> (r: Result<
    Vec<InternalKeyGloss>,
    (String, KeyError),
>)
    requires
        i <= toks@.len(),
    ensures
        match r {
            Ok(v) => clause_fold(toks.deep_view().skip(i as int)) == Ok::<
                Seq<KeyV>,
                (Seq<char>, KeyError),
            >(v@.map_values(|k: InternalKeyGloss| k@)),
            Err(e) => clause_fold(toks.deep_view().skip(i as int)) == Err::<
                Seq<KeyV>,
                (Seq<char>, KeyError),
            >((e.0@, e.1)),
        },
    decreases toks@.len() - i,
{
    let ghost tv = toks.deep_view().skip(i as int);
    if i == toks.len() {
        let v: Vec<InternalKeyGloss> = Vec::new();
        assert(v@.map_values(|k: InternalKeyGloss| k@) =~= Seq::<KeyV>::empty());
        return Ok(v);
    }
    proof {
        assert(tv[0] == toks@[i as int]@);
        assert(tv.drop_first() =~= toks.deep_view().skip(i + 1));
    }
    let tok_str = text::chars_to_string(&toks[i]);
    let key = match InternalKeyGloss::new(tok_str.as_str()) {
        Err(e) => {
            return Err((tok_str, e));
        },
        Ok(k) => k,
    };
    match parse_clause_tokens(toks, i + 1) {
        Err(e) => Err(e),
        Ok(mut rest) => {
            let ghost rest_view = rest@.map_values(|k: InternalKeyGloss| k@);
            rest.insert(0, key);
            proof {
                assert(rest@.map_values(|k: InternalKeyGloss| k@) =~= seq![key@] + rest_view);
            }
            Ok(rest)
        },
    }
}

/// Parses the `..`-separated clauses, from index `i` on.
fn parse_clauses(cs: &Vec<Vec<char>>, i: usize) -> (r: Result<
    Vec<SentenceGloss>,
    (String, KeyError),
>)
    requires
        i <= cs@.len(),
    ensures
        match r {
            Ok(v) => clauses_fold(cs.deep_view().skip(i as int)) == Ok::<
                Seq<Seq<KeyV>>,
                (Seq<char>, KeyError),
            >(v@.map_values(|g: SentenceGloss| g@)),
            Err(e) => clauses_fold(cs.deep_view().skip(i as int)) == Err::<
                Seq<Seq<KeyV>>,
                (Seq<char>, KeyError),
            >((e.0@, e.1)),
        },
    decreases cs@.len() - i,
{
    let ghost cv = cs.deep_view().skip(i as int);
    if i == cs.len() {
        let v: Vec<SentenceGloss> = Vec::new();
        assert(v@.map_values(|g: SentenceGloss| g@) =~= Seq::<Seq<KeyV>>::empty());
        return Ok(v);
    }
    proof {
        assert(cv[0] == cs@[i as int]@);
        assert(cv.drop_first() =~= cs.deep_view().skip(i + 1));
    }
    let toks = text::split_chars(&cs[i], CharClass::Exact('.'));
    let clause = match parse_clause_tokens(&toks, 0) {
        Err(e) => {
            proof {
                assert(toks.deep_view().skip(0) =~= toks.deep_view());
            }
            return Err(e);
        },
        Ok(v) => {
            proof {
                assert(toks.deep_view().skip(0) =~= toks.deep_view());
            }
            SentenceGloss(v)
        },
    };
    match parse_clauses(cs, i + 1) {
        Err(e) => Err(e),
        Ok(mut rest) => {
            let ghost rest_view = rest@.map_values(|g: SentenceGloss| g@);
            let ghost clause_view = clause@;
            rest.insert(0, clause);
            proof {
                assert(rest@.map_values(|g: SentenceGloss| g@) =~= seq![clause_view] + rest_view);
            }
            Ok(rest)
        },
    }
}

/// Parses the decomposition field of one row.
fn parse_decomposed_field(d: &str) -> (r: Result<Vec<SentenceGloss>, (String, KeyError)>)
    ensures
        match r {
            Ok(v) => decomposed_spec(d@) == Ok::<Seq<Seq<KeyV>>, (Seq<char>, KeyError)>(
                v@.map_values(|g: SentenceGloss| g@),
            ),
            Err(e) => decomposed_spec(d@) == Err::<Seq<Seq<KeyV>>, (Seq<char>, KeyError)>(
                (e.0@, e.1),
            ),
        },
{
    let t = text::chars_vec(d);
    if t.len() == 0 {
        let v: Vec<SentenceGloss> = Vec::new();
        assert(v@.map_values(|g: SentenceGloss| g@) =~= Seq::<Seq<KeyV>>::empty());
        return Ok(v);
    }
    let mut pat: Vec<char> = Vec::new();
    pat.push('.');
    pat.push('.');
    proof {
        assert(pat@ =~= seq!['.', '.']);
    }
    let clauses = text::split_at_pat(&t, &pat);
    proof {
        assert(clauses.deep_view().skip(0) =~= clauses.deep_view());
    }
    parse_clauses(&clauses, 0)
}

/// Decides whether a file-type list already holds the given kind.
fn filetype_contains(v: &Vec<FilePathType>, x: FilePathType) -> (r: bool)
    ensures
        r == v@.contains(x),
{
    let mut i: usize = 0;
    while i < v.len()
        invariant
            i <= v@.len(),
            forall|j: int| 0 <= j < i ==> v@[j] != x,
        decreases v@.len() - i,
    {
        if v[i] == x {
            return true;
        }
        i = i + 1;
    }
    false
}

/// Parses the file-type field of one row.
fn parse_filetype_field(f: &str) -> (r: Result<Vec<FilePathType>, String>)
    ensures
        match r {
            Ok(v) => filetype_spec(f@) == Ok::<Seq<FilePathType>, Seq<char>>(v@),
            Err(e) => filetype_spec(f@) == Err::<Seq<FilePathType>, Seq<char>>(e@),
        },
{
    let t = text::chars_vec(f);
    if t.len() == 0 {
        let v: Vec<FilePathType> = Vec::new();
        return Ok(v);
    }
    let toks = text::split_chars(&t, CharClass::Exact(','));
    let ghost all = toks.deep_view();
    let wav = text::chars_vec("wav");
    let oga = text::chars_vec("oga");
    let mut acc: Vec<FilePathType> = Vec::new();
    let mut i: usize = 0;
    proof {
        assert(all.skip(0) =~= all);
        assert(acc@ =~= Seq::<FilePathType>::empty());
    }
    while i < toks.len()
        invariant
            i <= toks@.len(),
            all == toks.deep_view(),
            all.len() == toks@.len(),
            wav@ == "wav"@,
            oga@ == "oga"@,
            f@.len() > 0,
            all == text::split_cls(f@, CharClass::Exact(',')),
            filetype_fold(all, Seq::empty()) == filetype_fold(all.skip(i as int), acc@),
        decreases toks@.len() - i,
    {
        let ghost suf = all.skip(i as int);
        proof {
            assert(suf[0] == toks@[i as int]@);
            assert(suf.drop_first() =~= all.skip(i + 1));
        }
        let trimmed = text::trim(&toks[i]);
        if text::chars_eq(&trimmed, &wav) {
            if !filetype_contains(&acc, FilePathType::Wav) {
                acc.push(FilePathType::Wav);
            }
        } else if text::chars_eq(&trimmed, &oga) {
            if !filetype_contains(&acc, FilePathType::Oga) {
                acc.push(FilePathType::Oga);
            }
        } else {
            proof {
                assert(filetype_spec(f@) == filetype_fold(all, Seq::empty()));
            }
            return Err(text::chars_to_string(&toks[i]));
        }
        i = i + 1;
    }
    proof {
        assert(all.skip(i as int).len() == 0);
    }
    Ok(acc)
}

/// Parses the recording-author field of one row.
fn parse_author_field(s: &str) -> (r: Option<Author>)
    ensures
        match r {
            Some(a) => author_spec(s@) == Some(a@),
            None => author_spec(s@) is None,
        },
{
    let t = text::chars_vec(s);
    let jekto = text::chars_vec("jekto.vatimeliju");
    let falira = text::chars_vec("falira.lyjotafis");
    if text::chars_eq(&t, &jekto) {
        Some(Author::JektoVatimeliju)
    } else if text::chars_eq(&t, &falira) {
        Some(Author::FaliraLyjotafis)
    } else if t.len() == 0 {
        None
    } else {
        Some(Author::Other(String::from_str(s)))
    }
}

/// Decides whether two syllable sequences are equal.
pub fn sylls_eq(a: &Vec<ExtSyllable>, b: &Vec<ExtSyllable>) -> (r: bool)
    ensures
        r == (a@ == b@),
{
    if a.len() != b.len() {
        assert(a@ != b@);
        return false;
    }
    let mut i: usize = 0;
    while i < a.len()
        invariant
            i <= a@.len(),
            a@.len() == b@.len(),
            forall|j: int| 0 <= j < i ==> a@[j] == b@[j],
        decreases a@.len() - i,
    {
        if a[i] != b[i] {
            return false;
        }
        i = i + 1;
    }
    assert(a@ =~= b@);
    true
}

/// Decides whether a syllable sequence already keys a kept row.
fn rows_contain_sylls(acc: &Vec<(Vec<ExtSyllable>, Item)>, s: &Vec<ExtSyllable>) -> (r: bool)
    ensures
        r == has_sylls(pairs_view(acc@), s@),
{
    let ghost av = pairs_view(acc@);
    let mut i: usize = 0;
    while i < acc.len()
        invariant
            i <= acc@.len(),
            av == pairs_view(acc@),
            av.len() == acc@.len(),
            forall|j: int| 0 <= j < i ==> av[j].0 != s@,
        decreases acc@.len() - i,
    {
        assert(av[i as int].0 == acc@[i as int].0@);
        if sylls_eq(&acc[i].0, s) {
            return true;
        }
        i = i + 1;
    }
    false
}

/// Builds the corpus from the rows of the phrase file: parses every row,
/// derives its syllable-sequence key, drops unreviewed rows and rows without
/// syllables, and rejects the file when any syllable sequence keys two rows.
/// All duplicate sequences are gathered and reported together; a row that does
/// not parse is reported at once, with its index.
pub fn parse(rows: &Vec<Record>) -> (r: Result<Vec<(Vec<ExtSyllable>, Item)>, PhraseError>)
    ensures
        phrase_parse_post(phrase_rows_view(rows@), r),
{
    let ghost rv = phrase_rows_view(rows@);
    let mut acc: Vec<(Vec<ExtSyllable>, Item)> = Vec::new();
    let mut dups: Vec<Vec<ExtSyllable>> = Vec::new();
    let mut i: usize = 0;
    proof {
        assert(rv.skip(0) =~= rv);
        assert(pairs_view(acc@) =~= Seq::<(Seq<ExtSyllable>, ItemV)>::empty());
        assert(dups@.map_values(|s: Vec<ExtSyllable>| s@) =~= Seq::<Seq<ExtSyllable>>::empty());
    }
    while i < rows.len()
        invariant
            i <= rows@.len(),
            rv == phrase_rows_view(rows@),
            rv.len() == rows@.len(),
            corpus_fold(rv, 0, Seq::empty(), Seq::empty()) == corpus_fold(
                rv.skip(i as int),
                i as int,
                pairs_view(acc@),
                dups@.map_values(|s: Vec<ExtSyllable>| s@),
            ),
        decreases rows@.len() - i,
    {
        let ghost pre_acc = pairs_view(acc@);
        let ghost pre_dups = dups@.map_values(|s: Vec<ExtSyllable>| s@);
        let ghost suf = rv.skip(i as int);
        proof {
            assert(suf[0] == rv[i as int]);
            assert(rv[i as int] == rows@[i as int]@);
            assert(suf.drop_first() =~= rv.skip(i + 1));
        }
        let row = &rows[i];
        let decomposed = match parse_decomposed_field(row.decomposed.as_str()) {
            Err((token, err)) => {
                return Err(PhraseError::Record { index: i, err: RecordError::Gloss { token, err } });
            },
            Ok(d) => d,
        };
        let filetype = match parse_filetype_field(row.filetype.as_str()) {
            Err(t) => {
                return Err(PhraseError::Record { index: i, err: RecordError::BadFileType(t) });
            },
            Ok(f) => f,
        };
        let recording_author = parse_author_field(row.recording_author.as_str());
        let item = Item {
            english: row.english.clone(),
            pekzep_latin: row.pekzep_latin.clone(),
            pekzep_hanzi: row.pekzep_hanzi.clone(),
            chinese_pinyin: row.chinese_pinyin.clone(),
            chinese_hanzi: row.chinese_hanzi.clone(),
            decomposed,
            filetype,
            recording_author,
            japanese: row.japanese.clone(),
        };
        proof {
            assert(row_item_spec(rv[i as int]) == Ok::<ItemV, RecordErrV>(item@));
        }
        let hanzi_chars = text::chars_vec(row.pekzep_hanzi.as_str());
        if text::contains_char(&hanzi_chars, '@') {
            i = i + 1;
            continue;
        }
        let sylls = match encode_to_pekzep_syllables(row.pekzep_latin.as_str()) {
            Err(errs) => {
                return Err(
                    PhraseError::Record { index: i, err: RecordError::Syllables(errs) },
                );
            },
            Ok(s) => s,
        };
        if sylls.len() == 0 {
            i = i + 1;
            continue;
        }
        if rows_contain_sylls(&acc, &sylls) {
            let ghost sylls_view = sylls@;
            dups.push(sylls);
            proof {
                assert(dups@.map_values(|s: Vec<ExtSyllable>| s@) =~= pre_dups.push(sylls_view));
            }
        } else {
            let ghost old_acc = acc@;
            let ghost sylls_view = sylls@;
            let ghost item_view = item@;
            acc.push((sylls, item));
            proof {
                assert(pairs_view(acc@) =~= pre_acc.push((sylls_view, item_view)));
            }
        }
        i = i + 1;
    }
    proof {
        assert(rv.skip(i as int).len() == 0);
    }
    if dups.len() == 0 {
        proof {
            assert(dups@.map_values(|s: Vec<ExtSyllable>| s@).len() == 0);
        }
        Ok(acc)
    } else {
        proof {
            assert(dups@.map_values(|s: Vec<ExtSyllable>| s@).len() > 0);
        }
        Err(PhraseError::Duplicates(dups))
    }
}

} // verus!
