//! The vocabulary table and the key codec: normalized identities made of a
//! "main" part and a disambiguating "postfix", in two surface forms (the gloss
//! form with `#`/`!` compound markers, and the canonical form with a ` // `
//! separator), and the dictionary entries keyed by them.

use crate::text::{self, CharClass};
use vstd::prelude::*;

verus! {

/// Which half of a splittable compound a gloss token denotes.
#[derive(Debug, Copy, Clone, PartialEq, Eq, Hash, Structural)]
pub enum SplittableCompoundInfo {
    /// The former half, written with `#` as in `享#銭`.
    FormerHalfHash,
    /// The latter half, written with `!` as in `享!銭`.
    LatterHalfExclamation,
}

/// The ways a key string can be rejected.
#[derive(Debug, Copy, Clone, PartialEq, Eq, Hash, Structural)]
pub enum KeyError {
    /// An empty string cannot be a key.
    EmptyInput,
    /// The key begins with a character that is neither printable ASCII, `∅`,
    /// `«`, nor a CJK ideograph.
    BadLeadingChar(char),
}

/// The view of a normalized identity: the main part and the postfix.
pub struct KeyV {
    pub main: Seq<char>,
    pub postfix: Seq<char>,
}

impl KeyV {
    /// The whole surface form.
    pub open spec fn full(self) -> Seq<char> {
        self.main + self.postfix
    }
}

/// How a raw key string splits into main and postfix: a string led by
/// printable ASCII splits at the first `:`, which stays on the postfix; a
/// string led by `∅`, `«` or a CJK ideograph gives its trailing ASCII
/// alphanumeric run to the postfix; anything else is rejected.
pub open spec fn split_spec(s: Seq<char>) -> Result<KeyV, KeyError> {
    if s.len() == 0 {
        Err(KeyError::EmptyInput)
    } else if text::is_ascii_printable_char(s[0]) {
        let i = text::first_index_of(s, ':');
        if i < 0 {
            Ok(KeyV { main: s, postfix: Seq::empty() })
        } else {
            Ok(KeyV { main: s.take(i), postfix: seq![':'] + s.skip(i + 1) })
        }
    } else if text::is_cjk_char(s[0]) || s[0] == '∅' || s[0] == '«' {
        let t = text::trailing_run_len(s, CharClass::AsciiAlnum);
        Ok(KeyV { main: s.take(s.len() - t), postfix: s.skip(s.len() - t) })
    } else {
        Err(KeyError::BadLeadingChar(s[0]))
    }
}

/// Splits a raw key string into its main part and its postfix.
pub fn split_into_main_and_postfix(input: &str) -> (r: Result<(String, String), KeyError>)
    ensures
        match r {
            Ok(p) => split_spec(input@) == Ok::<KeyV, KeyError>(
                KeyV { main: p.0@, postfix: p.1@ },
            ),
            Err(e) => split_spec(input@) == Err::<KeyV, KeyError>(e),
        },
{
    let t = text::chars_vec(input);
    if t.len() == 0 {
        return Err(KeyError::EmptyInput);
    }
    let c0 = t[0];
    if text::is_ascii_printable(c0) {
        match text::find_char_from(&t, 0, ':') {
            None => {
                proof {
                    assert(t@.skip(0) =~= t@);
                }
                let main = text::chars_to_string(&t);
                let empty_vec: Vec<char> = Vec::new();
                let postfix = text::chars_to_string(&empty_vec);
                assert(split_spec(input@)->Ok_0.main =~= input@);
                assert(split_spec(input@)->Ok_0.postfix =~= postfix@);
                Ok((main, postfix))
            },
            Some(i) => {
                proof {
                    assert(t@.skip(0) =~= t@);
                }
                let main_chars = text::copy_range(&t, 0, i);
                let mut postfix_chars: Vec<char> = Vec::new();
                postfix_chars.push(':');
                let rest = text::copy_range(&t, i + 1, t.len());
                text::append_chars(&mut postfix_chars, &rest);
                proof {
                    assert(main_chars@ =~= input@.take(text::first_index_of(input@, ':')));
                    assert(postfix_chars@ =~= seq![':'] + input@.skip(
                        text::first_index_of(input@, ':') + 1,
                    ));
                }
                Ok((text::chars_to_string(&main_chars), text::chars_to_string(&postfix_chars)))
            },
        }
    } else if text::is_cjk(c0) || c0 == '∅' || c0 == '«' {
        proof {
            text::lemma_trailing_run_len_bounds(t@, CharClass::AsciiAlnum);
        }
        let run = text::trailing_run(&t, CharClass::AsciiAlnum);
        let main_chars = text::copy_range(&t, 0, t.len() - run);
        let postfix_chars = text::copy_range(&t, t.len() - run, t.len());
        proof {
            assert(main_chars@ =~= input@.take(
                input@.len() - text::trailing_run_len(input@, CharClass::AsciiAlnum),
            ));
            assert(postfix_chars@ =~= input@.skip(
                input@.len() - text::trailing_run_len(input@, CharClass::AsciiAlnum),
            ));
        }
        Ok((text::chars_to_string(&main_chars), text::chars_to_string(&postfix_chars)))
    } else {
        Err(KeyError::BadLeadingChar(c0))
    }
}

/// A normalized identity in gloss form: `享#銭` and `享!銭` mark the two
/// halves of a splittable compound.
#[derive(Clone, Debug, Hash, PartialEq, Eq, PartialOrd, Ord)]
pub struct InternalKeyGloss {
    pub main: String,
    pub postfix: String,
}

impl View for InternalKeyGloss {
    type V = KeyV;

    open spec fn view(&self) -> KeyV {
        KeyV { main: self.main@, postfix: self.postfix@ }
    }
}

/// A normalized identity in canonical form: a splittable compound is written
/// with an internal ` // ` separator, as in `享 // 銭`.
#[derive(Clone, Debug, Hash, PartialEq, Eq, PartialOrd, Ord)]
pub struct InternalKey {
    pub main: String,
    pub postfix: String,
}

impl View for InternalKey {
    type V = KeyV;

    open spec fn view(&self) -> KeyV {
        KeyV { main: self.main@, postfix: self.postfix@ }
    }
}

/// The canonical main part of a gloss main part: both compound markers are
/// replaced by the ` // ` separator.
pub open spec fn canonical_main_spec(m: Seq<char>) -> Seq<char> {
    text::replace_pat(
        text::replace_pat(m, seq!['!'], seq![' ', '/', '/', ' ']),
        seq!['#'],
        seq![' ', '/', '/', ' '],
    )
}

/// Which compound half a gloss form names, judged from its surface form.
pub open spec fn splittable_spec(k: KeyV) -> Option<SplittableCompoundInfo> {
    if text::seq_contains_char(k.full(), '!') {
        Some(SplittableCompoundInfo::LatterHalfExclamation)
    } else if text::seq_contains_char(k.full(), '#') {
        Some(SplittableCompoundInfo::FormerHalfHash)
    } else {
        None
    }
}

/// The contribution of one gloss token to the reconstructed transcription:
/// an elided token vanishes, a former compound half keeps what precedes `#`,
/// a latter half keeps what follows `!`, and otherwise the trailing ASCII
/// digits (after a leading ASCII character) or the trailing ASCII
/// alphanumerics (after any other leading character) are dropped.
pub open spec fn plaintext_spec(t: Seq<char>) -> Seq<char> {
    if t.len() == 0 {
        t
    } else if t[0] == '∅' {
        Seq::empty()
    } else if text::seq_contains_char(t, '#') {
        t.take(text::first_index_of(t, '#'))
    } else if text::seq_contains_char(t, '!') {
        t.skip(text::first_index_of(t, '!') + 1)
    } else if t[0] as u32 <= 0x7F {
        t.take(t.len() - text::trailing_run_len(t, CharClass::AsciiDigit))
    } else {
        t.take(t.len() - text::trailing_run_len(t, CharClass::AsciiAlnum))
    }
}

impl InternalKeyGloss {
    /// Splits the input and stores it as the main part and the postfix. The
    /// input must begin with printable ASCII, `∅`, `«`, or a CJK ideograph.
    pub fn new(input: &str) -> (r: Result<Self, KeyError>)
        ensures
            match r {
                Ok(k) => split_spec(input@) == Ok::<KeyV, KeyError>(k@),
                Err(e) => split_spec(input@) == Err::<KeyV, KeyError>(e),
            },
    {
        match split_into_main_and_postfix(input) {
            Ok((main, postfix)) => Ok(InternalKeyGloss { main, postfix }),
            Err(e) => Err(e),
        }
    }

    /// The whole surface form as characters.
    pub fn full_chars(&self) -> (r: Vec<char>)
        ensures
            r@ == self@.full(),
    {
        let mut out = text::chars_vec(self.main.as_str());
        let post = text::chars_vec(self.postfix.as_str());
        text::append_chars(&mut out, &post);
        out
    }

    /// The whole surface form.
    pub fn full_form(&self) -> (r: String)
        ensures
            r@ == self@.full(),
    {
        let v = self.full_chars();
        text::chars_to_string(&v)
    }

    /// The canonical-form identity of this gloss form: compound markers are
    /// replaced by the ` // ` separator, the postfix is kept.
    pub fn to_internal_key(&self) -> (r: InternalKey)
        ensures
            r@.main == canonical_main_spec(self@.main),
            r@.postfix == self@.postfix,
    {
        let m = text::chars_vec(self.main.as_str());
        let mut bang: Vec<char> = Vec::new();
        bang.push('!');
        let mut hash: Vec<char> = Vec::new();
        hash.push('#');
        let mut slashes: Vec<char> = Vec::new();
        slashes.push(' ');
        slashes.push('/');
        slashes.push('/');
        slashes.push(' ');
        proof {
            assert(bang@ =~= seq!['!']);
            assert(hash@ =~= seq!['#']);
            assert(slashes@ =~= seq![' ', '/', '/', ' ']);
        }
        let step1 = text::replace_all(&m, &bang, &slashes);
        let step2 = text::replace_all(&step1, &hash, &slashes);
        InternalKey { main: text::chars_to_string(&step2), postfix: self.postfix.clone() }
    }

    /// Which compound half this gloss form denotes, if any.
    pub fn to_splittable_compound_info(&self) -> (r: Option<SplittableCompoundInfo>)
        ensures
            r == splittable_spec(self@),
    {
        let full = self.full_chars();
        if text::contains_char(&full, '!') {
            Some(SplittableCompoundInfo::LatterHalfExclamation)
        } else if text::contains_char(&full, '#') {
            Some(SplittableCompoundInfo::FormerHalfHash)
        } else {
            None
        }
    }

    /// The contribution of this gloss token to the reconstructed
    /// transcription.
    pub fn to_plaintext(&self) -> (r: String)
        ensures
            r@ == plaintext_spec(self@.full()),
    {
        let full = self.full_chars();
        if full.len() == 0 {
            return text::chars_to_string(&full);
        }
        if full[0] == '∅' {
            let empty_vec: Vec<char> = Vec::new();
            return text::chars_to_string(&empty_vec);
        }
        match text::find_char_from(&full, 0, '#') {
            Some(i) => {
                proof {
                    assert(full@.skip(0) =~= full@);
                    text::lemma_first_index_of_found(full@, '#');
                }
                let kept = text::copy_range(&full, 0, i);
                assert(kept@ =~= self@.full().take(text::first_index_of(self@.full(), '#')));
                return text::chars_to_string(&kept);
            },
            None => {
                proof {
                    assert(full@.skip(0) =~= full@);
                    text::lemma_first_index_of_found(full@, '#');
                }
            },
        }
        match text::find_char_from(&full, 0, '!') {
            Some(i) => {
                proof {
                    assert(full@.skip(0) =~= full@);
                    text::lemma_first_index_of_found(full@, '!');
                }
                let kept = text::copy_range(&full, i + 1, full.len());
                assert(kept@ =~= self@.full().skip(text::first_index_of(self@.full(), '!') + 1));
                return text::chars_to_string(&kept);
            },
            None => {
                proof {
                    assert(full@.skip(0) =~= full@);
                    text::lemma_first_index_of_found(full@, '!');
                }
            },
        }
        let cls = if (full[0] as u32) <= 0x7F {
            CharClass::AsciiDigit
        } else {
            CharClass::AsciiAlnum
        };
        proof {
            text::lemma_trailing_run_len_bounds(full@, cls);
        }
        let run = text::trailing_run(&full, cls);
        let kept = text::copy_range(&full, 0, full.len() - run);
        assert(kept@ =~= self@.full().take(
            self@.full().len() - text::trailing_run_len(self@.full(), cls),
        ));
        text::chars_to_string(&kept)
    }
}

/// What a canonical key looks like as a path-safe string: the ` // `
/// separator becomes `_slashslash_` and a colon becomes `_colon_`.
pub open spec fn path_safe_spec(k: KeyV) -> Seq<char> {
    text::replace_pat(
        text::replace_pat(
            k.full(),
            seq![' ', '/', '/', ' '],
            seq!['_', 's', 'l', 'a', 's', 'h', 's', 'l', 'a', 's', 'h', '_'],
        ),
        seq![':'],
        seq!['_', 'c', 'o', 'l', 'o', 'n', '_'],
    )
}

impl InternalKey {
    /// Splits the input and stores it as the main part and the postfix.
    pub fn new(input: &str) -> (r: Result<Self, KeyError>)
        ensures
            match r {
                Ok(k) => split_spec(input@) == Ok::<KeyV, KeyError>(k@),
                Err(e) => split_spec(input@) == Err::<KeyV, KeyError>(e),
            },
    {
        match split_into_main_and_postfix(input) {
            Ok((main, postfix)) => Ok(InternalKey { main, postfix }),
            Err(e) => Err(e),
        }
    }

    /// The whole surface form as characters.
    pub fn full_chars(&self) -> (r: Vec<char>)
        ensures
            r@ == self@.full(),
    {
        let mut out = text::chars_vec(self.main.as_str());
        let post = text::chars_vec(self.postfix.as_str());
        text::append_chars(&mut out, &post);
        out
    }

    /// The whole surface form.
    pub fn full_form(&self) -> (r: String)
        ensures
            r@ == self@.full(),
    {
        let v = self.full_chars();
        text::chars_to_string(&v)
    }

    /// An equal key.
    pub fn duplicate(&self) -> (r: InternalKey)
        ensures
            r == *self,
    {
        InternalKey { main: self.main.clone(), postfix: self.postfix.clone() }
    }

    /// `享 // 銭` becomes `享_slashslash_銭`.
    pub fn to_path_safe_string(&self) -> (r: String)
        ensures
            r@ == path_safe_spec(self@),
    {
        let full = self.full_chars();
        let mut sep: Vec<char> = Vec::new();
        sep.push(' ');
        sep.push('/');
        sep.push('/');
        sep.push(' ');
        let mut slashslash: Vec<char> = Vec::new();
        slashslash.push('_');
        slashslash.push('s');
        slashslash.push('l');
        slashslash.push('a');
        slashslash.push('s');
        slashslash.push('h');
        slashslash.push('s');
        slashslash.push('l');
        slashslash.push('a');
        slashslash.push('s');
        slashslash.push('h');
        slashslash.push('_');
        let mut colon: Vec<char> = Vec::new();
        colon.push(':');
        let mut colon_word: Vec<char> = Vec::new();
        colon_word.push('_');
        colon_word.push('c');
        colon_word.push('o');
        colon_word.push('l');
        colon_word.push('o');
        colon_word.push('n');
        colon_word.push('_');
        proof {
            assert(sep@ =~= seq![' ', '/', '/', ' ']);
            assert(slashslash@ =~= seq!['_', 's', 'l', 'a', 's', 'h', 's', 'l', 'a', 's', 'h', '_']);
            assert(colon@ =~= seq![':']);
            assert(colon_word@ =~= seq!['_', 'c', 'o', 'l', 'o', 'n', '_']);
        }
        let step1 = text::replace_all(&full, &sep, &slashslash);
        let step2 = text::replace_all(&step1, &colon, &colon_word);
        text::chars_to_string(&step2)
    }
}

} // verus!

verus! {

// ------------------------------------------------------------------
// Dictionary entries
// ------------------------------------------------------------------

/// One dictionary entry.
#[derive(Debug, Clone)]
pub struct Item {
    pub pekzep_latin: String,
    pub pekzep_hanzi: String,
    pub parts_of_speech: String,
    pub parts_of_speech_supplement: String,
    pub english_gloss: String,
}

/// The view of a dictionary entry, as plain character sequences.
pub struct ItemV {
    pub pekzep_latin: Seq<char>,
    pub pekzep_hanzi: Seq<char>,
    pub parts_of_speech: Seq<char>,
    pub parts_of_speech_supplement: Seq<char>,
    pub english_gloss: Seq<char>,
}

impl View for Item {
    type V = ItemV;

    open spec fn view(&self) -> ItemV {
        ItemV {
            pekzep_latin: self.pekzep_latin@,
            pekzep_hanzi: self.pekzep_hanzi@,
            parts_of_speech: self.parts_of_speech@,
            parts_of_speech_supplement: self.parts_of_speech_supplement@,
            english_gloss: self.english_gloss@,
        }
    }
}

impl Item {
    /// An equal entry.
    pub fn duplicate(&self) -> (r: Item)
        ensures
            r == *self,
    {
        Item {
            pekzep_latin: self.pekzep_latin.clone(),
            pekzep_hanzi: self.pekzep_hanzi.clone(),
            parts_of_speech: self.parts_of_speech.clone(),
            parts_of_speech_supplement: self.parts_of_speech_supplement.clone(),
            english_gloss: self.english_gloss.clone(),
        }
    }
}

/// Decides whether two canonical keys carry the same characters.
pub fn key_eq(a: &InternalKey, b: &InternalKey) -> (r: bool)
    ensures
        r == (a@ == b@),
{
    let r = a.main == b.main && a.postfix == b.postfix;
    proof {
        if a@.main == b@.main && a@.postfix == b@.postfix {
            assert(a@ == b@);
        }
    }
    r
}

// ------------------------------------------------------------------
// The catalog: dictionary entries in file order, with unique keys
// ------------------------------------------------------------------

/// The dictionary: entries keyed by canonical identity, kept in file order.
#[derive(Debug)]
pub struct Catalog {
    pub entries: Vec<(InternalKey, Item)>,
}

/// The index of the first entry with the given key, or `-1`.
pub open spec fn find_key(entries: Seq<(KeyV, ItemV)>, k: KeyV) -> int
    decreases entries.len(),
{
    if entries.len() == 0 {
        -1
    } else if entries[0].0 == k {
        0
    } else {
        let r = find_key(entries.drop_first(), k);
        if r < 0 {
            -1
        } else {
            r + 1
        }
    }
}

pub proof fn lemma_find_key_at(entries: Seq<(KeyV, ItemV)>, k: KeyV, m: int)
    requires
        0 <= m < entries.len(),
        entries[m].0 == k,
        forall|j: int| 0 <= j < m ==> entries[j].0 != k,
    ensures
        find_key(entries, k) == m,
    decreases m,
{
    if m > 0 {
        lemma_find_key_at(entries.drop_first(), k, m - 1);
    }
}

pub proof fn lemma_find_key_none(entries: Seq<(KeyV, ItemV)>, k: KeyV)
    requires
        forall|j: int| 0 <= j < entries.len() ==> entries[j].0 != k,
    ensures
        find_key(entries, k) == -1,
    decreases entries.len(),
{
    if entries.len() > 0 {
        lemma_find_key_none(entries.drop_first(), k);
    }
}

pub proof fn lemma_find_key_found(entries: Seq<(KeyV, ItemV)>, k: KeyV)
    ensures
        find_key(entries, k) >= 0 ==> find_key(entries, k) < entries.len() && entries[find_key(
            entries,
            k,
        )].0 == k,
        find_key(entries, k) < 0 ==> forall|j: int| 0 <= j < entries.len() ==> entries[j].0 != k,
    decreases entries.len(),
{
    if entries.len() > 0 && entries[0].0 != k {
        lemma_find_key_found(entries.drop_first(), k);
        if find_key(entries, k) < 0 {
            assert forall|j: int| 0 <= j < entries.len() implies entries[j].0 != k by {
                if j > 0 {
                    assert(entries.drop_first()[j - 1].0 != k);
                }
            }
        }
    }
}

impl Catalog {
    /// The entries with both components taken to their views.
    pub open spec fn entries_view(&self) -> Seq<(KeyV, ItemV)> {
        self.entries@.map_values(|e: (InternalKey, Item)| (e.0@, e.1@))
    }

    /// Whether some entry carries the given key.
    pub open spec fn contains_spec(&self, k: KeyV) -> bool {
        find_key(self.entries_view(), k) >= 0
    }

    /// Finds the first entry with the given key.
    pub fn position_of(&self, k: &InternalKey) -> (r: Option<usize>)
        ensures
            match r {
                Some(i) => i < self.entries@.len() && find_key(self.entries_view(), k@) == i,
                None => find_key(self.entries_view(), k@) == -1,
            },
    {
        let ghost ev = self.entries_view();
        let mut i: usize = 0;
        while i < self.entries.len()
            invariant
                i <= self.entries@.len(),
                ev == self.entries_view(),
                ev.len() == self.entries@.len(),
                forall|j: int| 0 <= j < i ==> ev[j].0 != k@,
            decreases self.entries@.len() - i,
        {
            assert(ev[i as int] == (self.entries@[i as int].0@, self.entries@[i as int].1@));
            if key_eq(&self.entries[i].0, k) {
                proof {
                    lemma_find_key_at(ev, k@, i as int);
                }
                return Some(i);
            }
            i = i + 1;
        }
        proof {
            lemma_find_key_none(ev, k@);
        }
        None
    }

    /// Returns the entry stored under the given key, if any.
    pub fn get(&self, k: &InternalKey) -> (r: Option<&Item>)
        ensures
            match r {
                Some(item) => find_key(self.entries_view(), k@) >= 0 && item@ == self.entries_view()[find_key(
                    self.entries_view(),
                    k@,
                )].1,
                None => find_key(self.entries_view(), k@) == -1,
            },
    {
        match self.position_of(k) {
            Some(i) => Some(&self.entries[i].1),
            None => None,
        }
    }

    /// How many entries the catalog holds.
    pub fn len(&self) -> (r: usize)
        ensures
            r == self.entries@.len(),
    {
        self.entries.len()
    }
}

// ------------------------------------------------------------------
// Parsing the vocabulary file
// ------------------------------------------------------------------

/// One row of the vocabulary file.
#[derive(Debug, Clone)]
pub struct Record {
    pub key: String,
    pub pekzep_latin: String,
    pub pekzep_hanzi: String,
    pub parts_of_speech: String,
    pub parts_of_speech_supplement: String,
    pub english_gloss: String,
}

/// The view of one vocabulary row.
pub struct RecordV {
    pub key: Seq<char>,
    pub pekzep_latin: Seq<char>,
    pub pekzep_hanzi: Seq<char>,
    pub parts_of_speech: Seq<char>,
    pub parts_of_speech_supplement: Seq<char>,
    pub english_gloss: Seq<char>,
}

impl View for Record {
    type V = RecordV;

    open spec fn view(&self) -> RecordV {
        RecordV {
            key: self.key@,
            pekzep_latin: self.pekzep_latin@,
            pekzep_hanzi: self.pekzep_hanzi@,
            parts_of_speech: self.parts_of_speech@,
            parts_of_speech_supplement: self.parts_of_speech_supplement@,
            english_gloss: self.english_gloss@,
        }
    }
}

pub open spec fn record_item_view(r: RecordV) -> ItemV {
    ItemV {
        pekzep_latin: r.pekzep_latin,
        pekzep_hanzi: r.pekzep_hanzi,
        parts_of_speech: r.parts_of_speech,
        parts_of_speech_supplement: r.parts_of_speech_supplement,
        english_gloss: r.english_gloss,
    }
}

/// The ways the vocabulary file can be rejected.
#[derive(Debug, Clone, PartialEq)]
pub enum VocabError {
    /// A key column that the key codec rejects; parsing stops at the first.
    BadKey { input: String, err: KeyError },
    /// Keys that appeared on more than one row, in row order.
    DuplicateKeys(Vec<InternalKey>),
}

/// The view of a vocabulary-file rejection.
pub enum VocabErrorV {
    BadKey { input: Seq<char>, err: KeyError },
    DuplicateKeys(Seq<KeyV>),
}

pub open spec fn vocab_error_view(e: VocabError) -> VocabErrorV {
    match e {
        VocabError::BadKey { input, err } => VocabErrorV::BadKey { input: input@, err },
        VocabError::DuplicateKeys(ks) => VocabErrorV::DuplicateKeys(
            ks@.map_values(|k: InternalKey| k@),
        ),
    }
}

/// Inserting into the catalog: an existing key keeps its position and has its
/// entry replaced, a new key is appended.
pub open spec fn upsert(entries: Seq<(KeyV, ItemV)>, k: KeyV, v: ItemV) -> Seq<(KeyV, ItemV)> {
    let i = find_key(entries, k);
    if i >= 0 {
        entries.update(i, (k, v))
    } else {
        entries.push((k, v))
    }
}

/// The fold that builds the catalog: rows with an empty key are skipped, a key
/// the codec rejects stops the fold, and a repeated key replaces the stored
/// entry while being recorded as a duplicate.
pub open spec fn catalog_fold(
    rows: Seq<RecordV>,
    acc: Seq<(KeyV, ItemV)>,
    dups: Seq<KeyV>,
) -> Result<(Seq<(KeyV, ItemV)>, Seq<KeyV>), (Seq<char>, KeyError)>
    decreases rows.len(),
{
    if rows.len() == 0 {
        Ok((acc, dups))
    } else {
        let r = rows[0];
        if r.key.len() == 0 {
            catalog_fold(rows.drop_first(), acc, dups)
        } else {
            match split_spec(r.key) {
                Err(e) => Err((r.key, e)),
                Ok(kv) => {
                    let item = record_item_view(r);
                    let new_dups = if find_key(acc, kv) >= 0 {
                        dups.push(kv)
                    } else {
                        dups
                    };
                    catalog_fold(rows.drop_first(), upsert(acc, kv, item), new_dups)
                },
            }
        }
    }
}

pub open spec fn vocab_rows_view(rows: Seq<Record>) -> Seq<RecordV> {
    rows.map_values(|r: Record| r@)
}

/// What the parsed vocabulary is: the folded catalog when no key is rejected
/// and no key repeats.
pub open spec fn vocab_parse_post(
    rows: Seq<RecordV>,
    r: Result<Catalog, VocabError>,
) -> bool {
    match catalog_fold(rows, Seq::empty(), Seq::empty()) {
        Err((input, err)) => r matches Err(e) && vocab_error_view(e) matches VocabErrorV::BadKey {
            input: i2,
            err: e2,
        } && i2 == input && e2 == err,
        Ok((entries, dups)) => {
            if dups.len() == 0 {
                r matches Ok(cat) && cat.entries_view() == entries
            } else {
                r matches Err(e) && vocab_error_view(e) matches VocabErrorV::DuplicateKeys(ds)
                    && ds == dups
            }
        },
    }
}

/// Builds the dictionary from the rows of the vocabulary file. Rows with an
/// empty key column are skipped; every other key must pass the key codec, and
/// no two rows may share a key. All duplicate keys are gathered and reported
/// together; a rejected key is reported at once.
pub fn parse(rows: &Vec<Record>) -> (r: Result<Catalog, VocabError>)
    ensures
        vocab_parse_post(vocab_rows_view(rows@), r),
{
    let ghost rv = vocab_rows_view(rows@);
    let mut cat = Catalog { entries: Vec::new() };
    let mut dups: Vec<InternalKey> = Vec::new();
    let mut i: usize = 0;
    proof {
        assert(rv.skip(0) =~= rv);
        assert(cat.entries_view() =~= Seq::<(KeyV, ItemV)>::empty());
        assert(dups@.map_values(|k: InternalKey| k@) =~= Seq::<KeyV>::empty());
    }
    while i < rows.len()
        invariant
            i <= rows@.len(),
            rv == vocab_rows_view(rows@),
            rv.len() == rows@.len(),
            catalog_fold(rv, Seq::empty(), Seq::empty()) == catalog_fold(
                rv.skip(i as int),
                cat.entries_view(),
                dups@.map_values(|k: InternalKey| k@),
            ),
        decreases rows@.len() - i,
    {
        let ghost pre_entries = cat.entries_view();
        let ghost pre_dups = dups@.map_values(|k: InternalKey| k@);
        let ghost suf = rv.skip(i as int);
        proof {
            assert(suf[0] == rv[i as int]);
            assert(rv[i as int] == rows@[i as int]@);
            assert(suf.drop_first() =~= rv.skip(i + 1));
        }
        let row = &rows[i];
        if row.key.as_str().unicode_len() == 0 {
            i = i + 1;
            continue;
        }
        let key = match InternalKey::new(row.key.as_str()) {
            Err(e) => {
                return Err(VocabError::BadKey { input: row.key.clone(), err: e });
            },
            Ok(k) => k,
        };
        let item = Item {
            pekzep_latin: row.pekzep_latin.clone(),
            pekzep_hanzi: row.pekzep_hanzi.clone(),
            parts_of_speech: row.parts_of_speech.clone(),
            parts_of_speech_supplement: row.parts_of_speech_supplement.clone(),
            english_gloss: row.english_gloss.clone(),
        };
        assert(item@ == record_item_view(rv[i as int]));
        match cat.position_of(&key) {
            Some(p) => {
                dups.push(key.duplicate());
                cat.entries.set(p, (key, item));
                proof {
                    assert(cat.entries_view() =~= upsert(pre_entries, key@, item@));
                    assert(dups@.map_values(|k: InternalKey| k@) =~= pre_dups.push(key@));
                }
            },
            None => {
                cat.entries.push((key, item));
                proof {
                    assert(cat.entries_view() =~= upsert(pre_entries, key@, item@));
                }
            },
        }
        i = i + 1;
    }
    proof {
        assert(rv.skip(i as int).len() == 0);
    }
    if dups.len() == 0 {
        proof {
            assert(dups@.map_values(|k: InternalKey| k@).len() == 0);
        }
        Ok(cat)
    } else {
        proof {
            assert(dups@.map_values(|k: InternalKey| k@).len() > 0);
        }
        Err(VocabError::DuplicateKeys(dups))
    }
}

} // verus!

use vstd::string::StringExecFns;

verus! {

/// The tab-separated rendering of an entry: the fields joined by tabs, with a
/// highlighted span holding the image markup of the transcription.
pub open spec fn tab_separated_spec(item: ItemV, img: Seq<char>) -> Seq<char> {
    item.pekzep_latin + seq!['\t'] + item.pekzep_hanzi + seq!['\t']
        + "<span style=\"filter:brightness(65%) contrast(500%);\">"@ + img + "</span>"@
        + seq!['\t'] + item.parts_of_speech + seq!['\t'] + item.parts_of_speech_supplement
        + seq!['\t'] + item.english_gloss
}

impl Item {
    /// Renders the entry tab-separated, the transcription turned into image
    /// markup by the caller's strategy `f`.
    pub fn to_tab_separated_with_custom_linzifier<F: FnOnce(&str) -> String>(&self, f: F) -> (r:
        String)
        requires
            forall|s: &str| s@ == self.pekzep_hanzi@ ==> call_requires(f, (s,)),
        ensures
            exists|s: &str, img: String|
                s@ == self.pekzep_hanzi@ && #[trigger] call_ensures(f, (s,), img) && r@
                    == tab_separated_spec(self@, img@),
    {
        let img = f(self.pekzep_hanzi.as_str());
        let mut r = String::new();
        r.append(self.pekzep_latin.as_str());
        r.append("\t");
        r.append(self.pekzep_hanzi.as_str());
        r.append("\t");
        r.append("<span style=\"filter:brightness(65%) contrast(500%);\">");
        r.append(img.as_str());
        r.append("</span>");
        r.append("\t");
        r.append(self.parts_of_speech.as_str());
        r.append("\t");
        r.append(self.parts_of_speech_supplement.as_str());
        r.append("\t");
        r.append(self.english_gloss.as_str());
        proof {
            reveal_strlit("\t");
            assert("\t"@ =~= seq!['\t']);
            assert(r@ =~= tab_separated_spec(self@, img@));
        }
        r
    }
}

} // verus!
