//! The glyph-pronunciation table: each row pairs a single transcription glyph
//! with a romanized syllable, optionally naming the recommended variant that
//! should replace the glyph.

use crate::rerrliratixka::{parse_spec, PekZepSyllable};
use crate::text;
use vstd::prelude::*;

verus! {

/// One transcription glyph: a character from the two CJK ideograph blocks.
#[derive(Clone, Copy, Hash, PartialEq, Eq, Structural, Debug, PartialOrd, Ord)]
pub struct Linzklar(pub char);

impl View for Linzklar {
    type V = char;

    open spec fn view(&self) -> char {
        self.0
    }
}

/// The ways a string can fail to be made of transcription glyphs.
#[derive(Clone, Copy, Hash, PartialEq, Eq, Structural, Debug)]
pub enum LinzklarError {
    /// The character lies outside the two CJK ideograph blocks.
    NotAnIdeograph(char),
    /// An empty string where a single glyph was expected.
    EmptyInput,
    /// More than one character where a single glyph was expected.
    MoreThanOneChar,
}

impl Linzklar {
    /// Accepts exactly the characters of the two CJK ideograph blocks.
    pub fn from_char(c: char) -> (r: Result<Self, LinzklarError>)
        ensures
            text::is_cjk_char(c) ==> r == Ok::<Self, LinzklarError>(Linzklar(c)),
            !text::is_cjk_char(c) ==> r == Err::<Self, LinzklarError>(LinzklarError::NotAnIdeograph(c)),
    {
        if text::is_cjk(c) {
            Ok(Linzklar(c))
        } else {
            Err(LinzklarError::NotAnIdeograph(c))
        }
    }

    /// What parsing a whole string as one glyph yields.
    pub open spec fn from_str_spec(s: Seq<char>) -> Result<Self, LinzklarError> {
        if s.len() == 0 {
            Err(LinzklarError::EmptyInput)
        } else if s.len() > 1 {
            Err(LinzklarError::MoreThanOneChar)
        } else if text::is_cjk_char(s[0]) {
            Ok(Linzklar(s[0]))
        } else {
            Err(LinzklarError::NotAnIdeograph(s[0]))
        }
    }

    /// Accepts exactly the one-character strings whose character is a glyph.
    pub fn from_str(a: &str) -> (r: Result<Self, LinzklarError>)
        ensures
            r == Self::from_str_spec(a@),
    {
        let t = text::chars_vec(a);
        if t.len() == 0 {
            Err(LinzklarError::EmptyInput)
        } else if t.len() > 1 {
            Err(LinzklarError::MoreThanOneChar)
        } else {
            Linzklar::from_char(t[0])
        }
    }

    /// The underlying character.
    pub fn as_char(&self) -> (r: char)
        ensures
            r == self@,
    {
        self.0
    }

    /// Whether a character may stand for a glyph at all.
    pub fn is_suitable_charcode_for_linzklar(c: char) -> (r: bool)
        ensures
            r == text::is_cjk_char(c),
    {
        text::is_cjk(c)
    }
}

/// A run of transcription glyphs.
#[derive(Clone, Hash, PartialEq, Eq, Debug)]
pub struct LinzklarString(pub Vec<Linzklar>);

impl View for LinzklarString {
    type V = Seq<char>;

    open spec fn view(&self) -> Seq<char> {
        Seq::new(self.0@.len(), |i: int| self.0@[i]@)
    }
}

impl LinzklarString {
    /// What parsing a string as a glyph run yields: the run itself when every
    /// character is a glyph, otherwise the error of the first offender.
    pub open spec fn new_spec(s: Seq<char>) -> Result<Seq<char>, LinzklarError> {
        let bad = text::leading_run_len(s, text::CharClass::Cjk);
        if bad == s.len() {
            Ok(s)
        } else {
            Err(LinzklarError::NotAnIdeograph(s[bad]))
        }
    }

    /// Accepts exactly the strings made of transcription glyphs.
    pub fn new(a: &str) -> (r: Result<Self, LinzklarError>)
        ensures
            match r {
                Ok(l) => Self::new_spec(a@) == Ok::<Seq<char>, LinzklarError>(l@) && l@ == a@,
                Err(e) => Self::new_spec(a@) == Err::<Seq<char>, LinzklarError>(e),
            },
    {
        let t = text::chars_vec(a);
        let mut out: Vec<Linzklar> = Vec::new();
        let mut i: usize = 0;
        while i < t.len()
            invariant
                i <= t@.len(),
                t@ == a@,
                out@.len() == i,
                forall|k: int| 0 <= k < i ==> text::is_cjk_char(t@[k]) && out@[k]@ == t@[k],
            decreases t@.len() - i,
        {
            match Linzklar::from_char(t[i]) {
                Ok(l) => {
                    out.push(l);
                },
                Err(e) => {
                    proof {
                        text::lemma_leading_run_at(a@, text::CharClass::Cjk, i as int);
                    }
                    return Err(e);
                },
            }
            i = i + 1;
        }
        proof {
            text::lemma_leading_run_at(a@, text::CharClass::Cjk, a@.len() as int);
        }
        let r = LinzklarString(out);
        assert(r@ =~= a@);
        Ok(r)
    }

    /// The run as a plain string.
    pub fn as_string(&self) -> (r: String)
        ensures
            r@ == self@,
    {
        let mut out: Vec<char> = Vec::new();
        let mut i: usize = 0;
        while i < self.0.len()
            invariant
                i <= self.0@.len(),
                out@.len() == i,
                forall|k: int| 0 <= k < i ==> out@[k] == self.0@[k]@,
            decreases self.0@.len() - i,
        {
            out.push(self.0[i].as_char());
            i = i + 1;
        }
        let s = text::chars_to_string(&out);
        assert(s@ =~= self@);
        s
    }
}

// ------------------------------------------------------------------
// The table itself
// ------------------------------------------------------------------

/// A lookup table from a glyph to a syllable it may be read as. One glyph may
/// carry several readings, so this is a list of pairs, in file order.
pub type CharSoundTable = Vec<(Linzklar, PekZepSyllable)>;

/// A substitution table from a non-recommended glyph to its recommended
/// variant, in file order.
pub type NonRecommendedCharTable = Vec<(Linzklar, Linzklar)>;

/// One row of the glyph-pronunciation file.
#[derive(Debug, Clone)]
pub struct Record {
    pub character: String,
    pub sound: String,
    pub variant_of: String,
}

/// The view of one row, as plain character sequences.
pub struct RecordV {
    pub character: Seq<char>,
    pub sound: Seq<char>,
    pub variant_of: Seq<char>,
}

impl View for Record {
    type V = RecordV;

    open spec fn view(&self) -> RecordV {
        RecordV { character: self.character@, sound: self.sound@, variant_of: self.variant_of@ }
    }
}

/// The ways a glyph-pronunciation row can be rejected.
#[derive(Clone, Debug, PartialEq, Eq)]
pub enum CharTableError {
    /// The sound column does not parse as a syllable.
    InvalidSound(String),
    /// The character or variant column is not a single glyph.
    BadGlyph(LinzklarError),
}

pub open spec fn char_table_error_view(e: CharTableError) -> Result<Seq<char>, LinzklarError> {
    match e {
        CharTableError::InvalidSound(s) => Ok(s@),
        CharTableError::BadGlyph(l) => Err(l),
    }
}

/// What converting one row into a table entry yields.
pub open spec fn convert_spec(r: RecordV) -> Result<(char, PekZepSyllable), Result<
    Seq<char>,
    LinzklarError,
>> {
    match parse_spec(r.sound) {
        None => Err(Ok(r.sound)),
        Some(syl) => match Linzklar::from_str_spec(r.character) {
            Err(e) => Err(Err(e)),
            Ok(l) => Ok((l@, syl)),
        },
    }
}

/// What the sound table built from the rows is: the first rejected row wins.
pub open spec fn sound_table_spec(rows: Seq<RecordV>) -> Result<Seq<(char, PekZepSyllable)>, Result<
    Seq<char>,
    LinzklarError,
>>
    decreases rows.len(),
{
    if rows.len() == 0 {
        Ok(Seq::empty())
    } else {
        match convert_spec(rows[0]) {
            Err(e) => Err(e),
            Ok(entry) => match sound_table_spec(rows.drop_first()) {
                Err(e) => Err(e),
                Ok(rest) => Ok(seq![entry] + rest),
            },
        }
    }
}

/// What the variant table built from the rows is: rows with an empty
/// `variant_of` column contribute nothing.
pub open spec fn variant_table_spec(rows: Seq<RecordV>) -> Result<Seq<(char, char)>, Result<
    Seq<char>,
    LinzklarError,
>>
    decreases rows.len(),
{
    if rows.len() == 0 {
        Ok(Seq::empty())
    } else {
        let r = rows[0];
        if r.variant_of.len() == 0 {
            variant_table_spec(rows.drop_first())
        } else {
            match Linzklar::from_str_spec(r.character) {
                Err(e) => Err(Err(e)),
                Ok(l) => match Linzklar::from_str_spec(r.variant_of) {
                    Err(e) => Err(Err(e)),
                    Ok(v) => match variant_table_spec(rows.drop_first()) {
                        Err(e) => Err(e),
                        Ok(rest) => Ok(seq![(l@, v@)] + rest),
                    },
                },
            }
        }
    }
}

pub open spec fn sound_table_view(t: Seq<(Linzklar, PekZepSyllable)>) -> Seq<(
    char,
    PekZepSyllable,
)> {
    t.map_values(|e: (Linzklar, PekZepSyllable)| (e.0@, e.1))
}

pub open spec fn variant_table_view(t: Seq<(Linzklar, Linzklar)>) -> Seq<(char, char)> {
    t.map_values(|e: (Linzklar, Linzklar)| (e.0@, e.1@))
}

} // verus!

verus! {

pub open spec fn rows_view(rows: Seq<Record>) -> Seq<RecordV> {
    rows.map_values(|r: Record| r@)
}

/// Builds the sound table from the rows at and after `i`.
fn sound_rows_from(rows: &Vec<Record>, i: usize) -> (r: Result<CharSoundTable, CharTableError>)
    requires
        i <= rows@.len(),
    ensures
        match r {
            Ok(a) => sound_table_spec(rows_view(rows@).skip(i as int)) == Ok::<
                Seq<(char, PekZepSyllable)>,
                Result<Seq<char>, LinzklarError>,
            >(sound_table_view(a@)),
            Err(e) => sound_table_spec(rows_view(rows@).skip(i as int)) == Err::<
                Seq<(char, PekZepSyllable)>,
                Result<Seq<char>, LinzklarError>,
            >(char_table_error_view(e)),
        },
    decreases rows@.len() - i,
{
    let ghost rv = rows_view(rows@).skip(i as int);
    if i == rows.len() {
        let a: CharSoundTable = Vec::new();
        assert(sound_table_view(a@) =~= Seq::<(char, PekZepSyllable)>::empty());
        return Ok(a);
    }
    assert(rv[0] == rows@[i as int]@);
    let row = &rows[i];
    let syl = match PekZepSyllable::parse(row.sound.as_str()) {
        None => {
            return Err(CharTableError::InvalidSound(row.sound.clone()));
        },
        Some(s) => s,
    };
    let l = match Linzklar::from_str(row.character.as_str()) {
        Err(e) => {
            return Err(CharTableError::BadGlyph(e));
        },
        Ok(l) => l,
    };
    proof {
        assert(rv.drop_first() =~= rows_view(rows@).skip(i + 1));
    }
    match sound_rows_from(rows, i + 1) {
        Err(e) => Err(e),
        Ok(mut rest) => {
            let ghost rest_view = sound_table_view(rest@);
            rest.insert(0, (l, syl));
            proof {
                assert(sound_table_view(rest@) =~= seq![(l@, syl)] + rest_view);
            }
            Ok(rest)
        },
    }
}

/// Builds the variant-substitution table from the rows at and after `i`.
fn variant_rows_from(rows: &Vec<Record>, i: usize) -> (r: Result<
    NonRecommendedCharTable,
    CharTableError,
>)
    requires
        i <= rows@.len(),
    ensures
        match r {
            Ok(b) => variant_table_spec(rows_view(rows@).skip(i as int)) == Ok::<
                Seq<(char, char)>,
                Result<Seq<char>, LinzklarError>,
            >(variant_table_view(b@)),
            Err(e) => variant_table_spec(rows_view(rows@).skip(i as int)) == Err::<
                Seq<(char, char)>,
                Result<Seq<char>, LinzklarError>,
            >(char_table_error_view(e)),
        },
    decreases rows@.len() - i,
{
    let ghost rv = rows_view(rows@).skip(i as int);
    if i == rows.len() {
        let b: NonRecommendedCharTable = Vec::new();
        assert(variant_table_view(b@) =~= Seq::<(char, char)>::empty());
        return Ok(b);
    }
    assert(rv[0] == rows@[i as int]@);
    let row = &rows[i];
    proof {
        assert(rv.drop_first() =~= rows_view(rows@).skip(i + 1));
    }
    if row.variant_of.as_str().unicode_len() == 0 {
        return variant_rows_from(rows, i + 1);
    }
    let l = match Linzklar::from_str(row.character.as_str()) {
        Err(e) => {
            return Err(CharTableError::BadGlyph(e));
        },
        Ok(l) => l,
    };
    let v = match Linzklar::from_str(row.variant_of.as_str()) {
        Err(e) => {
            return Err(CharTableError::BadGlyph(e));
        },
        Ok(v) => v,
    };
    match variant_rows_from(rows, i + 1) {
        Err(e) => Err(e),
        Ok(mut rest) => {
            let ghost rest_view = variant_table_view(rest@);
            rest.insert(0, (l, v));
            proof {
                assert(variant_table_view(rest@) =~= seq![(l@, v@)] + rest_view);
            }
            Ok(rest)
        },
    }
}

/// Builds the glyph-pronunciation table and the variant-substitution table
/// from the rows of the source file. The sound column of every row must parse
/// as a syllable and the glyph columns must hold single transcription glyphs;
/// the first offending row is reported, sound-table errors first.
pub fn parse(rows: &Vec<Record>) -> (r: Result<
    (CharSoundTable, NonRecommendedCharTable),
    CharTableError,
>)
    ensures
        ({
            let rv = rows_view(rows@);
            match r {
                Ok(t) => sound_table_spec(rv) == Ok::<
                    Seq<(char, PekZepSyllable)>,
                    Result<Seq<char>, LinzklarError>,
                >(sound_table_view(t.0@)) && variant_table_spec(rv) == Ok::<
                    Seq<(char, char)>,
                    Result<Seq<char>, LinzklarError>,
                >(variant_table_view(t.1@)),
                Err(e) => sound_table_spec(rv) == Err::<
                    Seq<(char, PekZepSyllable)>,
                    Result<Seq<char>, LinzklarError>,
                >(char_table_error_view(e)) || (sound_table_spec(rv) is Ok && variant_table_spec(rv)
                    == Err::<Seq<(char, char)>, Result<Seq<char>, LinzklarError>>(
                    char_table_error_view(e),
                )),
            }
        }),
{
    proof {
        assert(rows_view(rows@).skip(0) =~= rows_view(rows@));
    }
    let sounds = match sound_rows_from(rows, 0) {
        Ok(a) => a,
        Err(e) => {
            return Err(e);
        },
    };
    let variants = match variant_rows_from(rows, 0) {
        Ok(b) => b,
        Err(e) => {
            return Err(e);
        },
    };
    Ok((sounds, variants))
}

} // verus!
