//! A verified corpus checker for Spoonfed Pekzep: it cross-checks the three
//! parallel encodings of each corpus sentence (romanization, logographic
//! transcription, gloss decomposition), resolves every gloss token against the
//! vocabulary, and aggregates usage statistics.

use vstd::prelude::*;

/// Character and string helpers shared by the whole crate.
pub mod text;

/// The syllable codec for the Pekzep romanization.
pub mod rerrliratixka;

/// Parsing of the four tabular source files into the crate's data model.
pub mod read;

/// The consistency checks and the aggregate they produce.
pub mod verify;

/// Pure text normalizations for re-emitting the corpus.
pub mod normalizer;

/// Recursive rendering of dismantling trees into nested markup frames.
pub mod recurse;

verus! {

/// Splits the string at the first occurrence of `//`.
pub fn split_at_slashslash(in_string: &str) -> (r: (String, String))
    requires
        text::seq_contains_pat(in_string@, seq!['/', '/']),
    ensures
        ({
            let i = text::first_pat_index(in_string@, seq!['/', '/']);
            r.0@ == in_string@.take(i) && r.1@ == in_string@.skip(i + 2)
        }),
{
    let t = text::chars_vec(in_string);
    let mut pat: Vec<char> = Vec::new();
    pat.push('/');
    pat.push('/');
    assert(pat@ =~= seq!['/', '/']);
    let j = match text::find_pat_from(&t, 0, &pat) {
        Some(j) => j,
        None => {
            proof {
                assert(t@.skip(0) =~= t@);
                text::lemma_first_pat_index_found(t@, pat@);
                let i = choose|i: int|
                    0 <= i && i + pat@.len() <= t@.len() && #[trigger] t@.subrange(i, i + pat@.len())
                        == pat@;
                assert(t@.skip(i).take(pat@.len() as int) =~= t@.subrange(i, i + pat@.len()));
                assert(false);
            }
            0
        },
    };
    assert(t@.skip(0) =~= t@);
    assert(j + 2 <= t.len());
    let first = text::copy_range(&t, 0, j);
    let second = text::copy_range(&t, j + 2, t.len());
    proof {
        assert(first@ =~= t@.take(j as int));
        assert(second@ =~= t@.skip(j + 2));
    }
    (text::chars_to_string(&first), text::chars_to_string(&second))
}

/// A text with its contraction guillemets removed.
pub open spec fn remove_guillemets_spec(a: Seq<char>) -> Seq<char> {
    text::remove_cls(text::remove_cls(a, text::CharClass::Exact('«')), text::CharClass::Exact('»'))
}

/// Removes the contraction guillemets `«»` from a text.
pub fn remove_guillemets(a: &str) -> (r: String)
    ensures
        r@ == remove_guillemets_spec(a@),
{
    let t = text::chars_vec(a);
    let step1 = text::remove_matching(&t, text::CharClass::Exact('«'));
    let step2 = text::remove_matching(&step1, text::CharClass::Exact('»'));
    text::chars_to_string(&step2)
}

/// A check-mark cell: a check when the flag holds, empty otherwise.
pub fn to_check(a: bool) -> (r: &'static str)
    ensures
        a ==> r@ == "&#x2713;"@,
        !a ==> r@ == ""@,
{
    if a {
        "&#x2713;"
    } else {
        ""
    }
}

/// Readiness of a recording: present and reviewed, present but not reviewed,
/// or missing.
#[derive(Copy, Clone, Debug, PartialEq, Eq, Structural)]
pub enum R {
    Ready,
    NonReviewed,
    Missing,
}

/// A check-mark cell with parentheses marking a non-reviewed recording.
pub fn to_check_or_parencheck(a: R) -> (r: &'static str)
    ensures
        a is Ready ==> r@ == "&#x2713;"@,
        a is NonReviewed ==> r@ == "(&#x2713;)"@,
        a is Missing ==> r@ == ""@,
{
    match a {
        R::Ready => "&#x2713;",
        R::NonReviewed => "(&#x2713;)",
        R::Missing => "",
    }
}

} // verus!
