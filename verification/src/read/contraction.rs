//! The contraction table: each row pairs a multi-glyph run with the single
//! contracted syllable that the run is read as.

use crate::read::char_pronunciation::{LinzklarError, LinzklarString};
use crate::rerrliratixka::{parse_spec, PekZepSyllable};
use crate::text;
use vstd::prelude::*;

verus! {

/// A lookup table from a run of glyphs to its contracted syllable.
pub type SoundTable = Vec<(LinzklarString, PekZepSyllable)>;

/// One row of the contraction file.
#[derive(Debug, Clone)]
pub struct Record {
    pub characters: String,
    pub sound: String,
}

/// The view of one row, as plain character sequences.
pub struct RecordV {
    pub characters: Seq<char>,
    pub sound: Seq<char>,
}

impl View for Record {
    type V = RecordV;

    open spec fn view(&self) -> RecordV {
        RecordV { characters: self.characters@, sound: self.sound@ }
    }
}

/// The ways a contraction row can be rejected.
#[derive(Clone, Debug, PartialEq, Eq)]
pub enum ContractionError {
    /// The sound column does not parse as a syllable.
    InvalidSound(String),
    /// The characters column is not a run of transcription glyphs.
    BadGlyph(LinzklarError),
}

pub open spec fn contraction_error_view(e: ContractionError) -> Result<Seq<char>, LinzklarError> {
    match e {
        ContractionError::InvalidSound(s) => Ok(s@),
        ContractionError::BadGlyph(l) => Err(l),
    }
}

/// What converting one row into a table entry yields.
pub open spec fn convert_spec(r: RecordV) -> Result<(Seq<char>, PekZepSyllable), Result<
    Seq<char>,
    LinzklarError,
>> {
    match parse_spec(r.sound) {
        None => Err(Ok(r.sound)),
        Some(syl) => match LinzklarString::new_spec(r.characters) {
            Err(e) => Err(Err(e)),
            Ok(run) => Ok((run, syl)),
        },
    }
}

/// What the contraction table built from the rows is: the first rejected row
/// wins.
pub open spec fn contraction_table_spec(rows: Seq<RecordV>) -> Result<
    Seq<(Seq<char>, PekZepSyllable)>,
    Result<Seq<char>, LinzklarError>,
>
    decreases rows.len(),
{
    if rows.len() == 0 {
        Ok(Seq::empty())
    } else {
        match convert_spec(rows[0]) {
            Err(e) => Err(e),
            Ok(entry) => match contraction_table_spec(rows.drop_first()) {
                Err(e) => Err(e),
                Ok(rest) => Ok(seq![entry] + rest),
            },
        }
    }
}

pub open spec fn contraction_table_view(t: Seq<(LinzklarString, PekZepSyllable)>) -> Seq<(
    Seq<char>,
    PekZepSyllable,
)> {
    t.map_values(|e: (LinzklarString, PekZepSyllable)| (e.0@, e.1))
}

pub open spec fn rows_view(rows: Seq<Record>) -> Seq<RecordV> {
    rows.map_values(|r: Record| r@)
}

/// Builds the contraction table from the rows at and after `i`.
fn contraction_rows_from(rows: &Vec<Record>, i: usize) -> (r: Result<SoundTable, ContractionError>)
    requires
        i <= rows@.len(),
    ensures
        match r {
            Ok(a) => contraction_table_spec(rows_view(rows@).skip(i as int)) == Ok::<
                Seq<(Seq<char>, PekZepSyllable)>,
                Result<Seq<char>, LinzklarError>,
            >(contraction_table_view(a@)),
            Err(e) => contraction_table_spec(rows_view(rows@).skip(i as int)) == Err::<
                Seq<(Seq<char>, PekZepSyllable)>,
                Result<Seq<char>, LinzklarError>,
            >(contraction_error_view(e)),
        },
    decreases rows@.len() - i,
{
    let ghost rv = rows_view(rows@).skip(i as int);
    if i == rows.len() {
        let a: SoundTable = Vec::new();
        assert(contraction_table_view(a@) =~= Seq::<(Seq<char>, PekZepSyllable)>::empty());
        return Ok(a);
    }
    assert(rv[0] == rows@[i as int]@);
    let row = &rows[i];
    let syl = match PekZepSyllable::parse(row.sound.as_str()) {
        None => {
            return Err(ContractionError::InvalidSound(row.sound.clone()));
        },
        Some(s) => s,
    };
    let run = match LinzklarString::new(row.characters.as_str()) {
        Err(e) => {
            return Err(ContractionError::BadGlyph(e));
        },
        Ok(l) => l,
    };
    proof {
        assert(rv.drop_first() =~= rows_view(rows@).skip(i + 1));
    }
    match contraction_rows_from(rows, i + 1) {
        Err(e) => Err(e),
        Ok(mut rest) => {
            let ghost rest_view = contraction_table_view(rest@);
            let ghost run_view = run@;
            rest.insert(0, (run, syl));
            proof {
                assert(contraction_table_view(rest@) =~= seq![(run_view, syl)] + rest_view);
            }
            Ok(rest)
        },
    }
}

/// Builds the contraction table from the rows of the source file. The sound
/// column of every row must parse as a syllable and the characters column must
/// be a run of transcription glyphs; the first offending row is reported.
pub fn parse(rows: &Vec<Record>) -> (r: Result<SoundTable, ContractionError>)
    ensures
        match r {
            Ok(a) => contraction_table_spec(rows_view(rows@)) == Ok::<
                Seq<(Seq<char>, PekZepSyllable)>,
                Result<Seq<char>, LinzklarError>,
            >(contraction_table_view(a@)),
            Err(e) => contraction_table_spec(rows_view(rows@)) == Err::<
                Seq<(Seq<char>, PekZepSyllable)>,
                Result<Seq<char>, LinzklarError>,
            >(contraction_error_view(e)),
        },
{
    proof {
        assert(rows_view(rows@).skip(0) =~= rows_view(rows@));
    }
    contraction_rows_from(rows, 0)
}

} // verus!
