//! Tests of the two aligners, the glyph counter and the table loaders.

use spoonfed_pekzep::read::char_pronunciation::{self, CharTableError, Linzklar, LinzklarError, LinzklarString};
use spoonfed_pekzep::read::contraction;
use spoonfed_pekzep::read::linzklar_dismantling::{DismantlingError, DismantlingTree};
use spoonfed_pekzep::read::phrase::ExtSyllable;
use spoonfed_pekzep::read::vocab::Item;
use spoonfed_pekzep::rerrliratixka::PekZepSyllable;
use spoonfed_pekzep::verify::{
    align_sentence, align_vocab_item, char_count, CharCountError, SentenceAlignError,
    VocabAlignError,
};

fn syl(s: &str) -> PekZepSyllable {
    PekZepSyllable::parse(s).unwrap()
}

fn ext(s: &str) -> ExtSyllable {
    ExtSyllable::Syllable(syl(s))
}

fn small_char_table() -> Vec<(Linzklar, PekZepSyllable)> {
    vec![
        (Linzklar('善'), syl("kait")),
        (Linzklar('日'), syl("kia1")),
    ]
}

#[test]
fn test_linzklar_constructors() {
    assert_eq!(Linzklar::from_char('善').unwrap(), Linzklar('善'));
    assert_eq!(Linzklar::from_char('a'), Err(LinzklarError::NotAnIdeograph('a')));
    assert_eq!(Linzklar::from_str(""), Err(LinzklarError::EmptyInput));
    assert_eq!(Linzklar::from_str("善日"), Err(LinzklarError::MoreThanOneChar));
    assert_eq!(LinzklarString::new("足手").unwrap().as_string(), "足手");
    assert_eq!(LinzklarString::new("足x"), Err(LinzklarError::NotAnIdeograph('x')));
}

#[test]
fn test_scenario_sentence_alignment_passes() {
    // the glyph table reads 善 and 日; punctuation is skipped
    let chars = small_char_table();
    let contractions = Vec::new();
    let sylls = vec![ext("kait"), ext("kia1")];
    assert!(align_sentence("善日！", &sylls, &chars, &contractions).is_ok());
}

#[test]
fn test_scenario_contraction() {
    let chars = small_char_table();
    let with_row = vec![(LinzklarString::new("足手").unwrap(), syl("xiop1"))];
    let sylls = vec![ext("xiop1")];
    assert!(align_sentence("«足手»", &sylls, &chars, &with_row).is_ok());
    // absent that row, alignment fails naming the run and the expected slot
    let without_row = Vec::new();
    assert_eq!(
        align_sentence("«足手»", &sylls, &chars, &without_row),
        Err(SentenceAlignError::ContractionNotFound {
            run: vec!['足', '手'],
            expected: ext("xiop1")
        })
    );
}

#[test]
fn test_sentence_alignment_errors() {
    let chars = small_char_table();
    let none: Vec<(LinzklarString, PekZepSyllable)> = Vec::new();
    assert_eq!(
        align_sentence("«善日", &vec![ext("kait")], &chars, &none),
        Err(SentenceAlignError::UnmatchedGuillemet)
    );
    assert_eq!(
        align_sentence("善日", &vec![ext("kait")], &chars, &none),
        Err(SentenceAlignError::SyllablesExhausted)
    );
    assert_eq!(
        align_sentence("xazi", &vec![ExtSyllable::Xizi], &chars, &none),
        Err(SentenceAlignError::XiziExpected)
    );
    assert_eq!(
        align_sentence("xizi", &vec![ext("kait")], &chars, &none),
        Err(SentenceAlignError::XiziMismatch)
    );
    assert_eq!(
        align_sentence("月", &vec![ext("kait")], &chars, &none),
        Err(SentenceAlignError::GlyphNotFound { glyph: '月', expected: ext("kait") })
    );
    assert_eq!(
        align_sentence("善", &vec![ext("kait"), ext("kia1")], &chars, &none),
        Err(SentenceAlignError::LeftoverSyllables { next: ext("kia1") })
    );
    assert!(align_sentence("xizi", &vec![ExtSyllable::Xizi], &chars, &none).is_ok());
}

fn entry(latin: &str, hanzi: &str) -> Item {
    Item {
        pekzep_latin: String::from(latin),
        pekzep_hanzi: String::from(hanzi),
        parts_of_speech: String::from("noun"),
        parts_of_speech_supplement: String::new(),
        english_gloss: String::from("gloss"),
    }
}

#[test]
fn test_vocab_alignment() {
    let chars = small_char_table();
    let none: Vec<(LinzklarString, PekZepSyllable)> = Vec::new();
    assert!(align_vocab_item(&entry("kait", "善"), &chars, &none).is_ok());
    assert!(align_vocab_item(&entry("", "∅"), &chars, &none).is_ok());
    assert!(align_vocab_item(&entry("kait // kia1", "善 // 日"), &chars, &none).is_ok());
    assert!(align_vocab_item(&entry("kait {an aside} kia1", "善 {注} 日"), &chars, &none).is_ok());
    assert_eq!(
        align_vocab_item(&entry("kait", "月"), &chars, &none),
        Err(VocabAlignError::GlyphNotFound { glyph: '月', syllable: syl("kait") })
    );
    assert_eq!(
        align_vocab_item(&entry("kait", ""), &chars, &none),
        Err(VocabAlignError::SyllableGlyphExhausted)
    );
    assert_eq!(
        align_vocab_item(&entry("kait", "善日"), &chars, &none),
        Err(VocabAlignError::LeftoverGlyphs { found: '日' })
    );
}

#[test]
fn test_vocab_alignment_special_tokens() {
    let chars = vec![(Linzklar('汝'), syl("mua2")), (Linzklar('之'), syl("po"))];
    let none: Vec<(LinzklarString, PekZepSyllable)> = Vec::new();
    // the xizi literal occupies its own slot on both sides
    assert!(align_vocab_item(&entry("mua2 xizi", "汝 xizi"), &chars, &none).is_ok());
    // the abbreviation token S pairs with a literal `S `
    assert!(align_vocab_item(&entry("po S mua2", "之S 汝"), &chars, &none).is_ok());
    // a contraction span inside an entry
    let with_row = vec![(LinzklarString::new("足手").unwrap(), syl("xiop1"))];
    assert!(align_vocab_item(&entry("xiop1", "«足手»"), &chars, &with_row).is_ok());
    assert_eq!(
        align_vocab_item(&entry("xiop1", "«足手"), &chars, &with_row),
        Err(VocabAlignError::ContractionUnmatchedGuillemet)
    );
}

#[test]
fn test_char_count() {
    let rows = vec![
        (vec![ext("kait"), ext("kia1"), ext("kait")], phrase_item("kait kia1 kait", "善日！善")),
        (vec![ext("xiop1")], phrase_item("xiop1", "«足手»")),
    ];
    let tab = char_count(&rows).unwrap();
    let mut kait_count = 0;
    let mut day_count = 0;
    let mut foot_count = 0;
    for (k, n) in &tab {
        if *k == Linzklar('善') {
            kait_count = *n;
        }
        if *k == Linzklar('日') {
            day_count = *n;
        }
        if *k == Linzklar('足') {
            foot_count = *n;
        }
    }
    assert_eq!(kait_count, 2);
    assert_eq!(day_count, 1);
    assert_eq!(foot_count, 1);
    assert_eq!(tab.len(), 4);
    let bad = vec![(vec![ext("kait")], phrase_item("kait", "xa"))];
    assert_eq!(char_count(&bad), Err(CharCountError::XiziExpected));
}

fn phrase_item(latin: &str, hanzi: &str) -> spoonfed_pekzep::read::phrase::Item {
    spoonfed_pekzep::read::phrase::Item {
        english: String::new(),
        pekzep_latin: String::from(latin),
        pekzep_hanzi: String::from(hanzi),
        chinese_pinyin: String::new(),
        chinese_hanzi: String::new(),
        decomposed: Vec::new(),
        filetype: Vec::new(),
        recording_author: None,
        japanese: String::new(),
    }
}

#[test]
fn test_char_pronunciation_parse() {
    let rows = vec![
        char_pronunciation::Record {
            character: String::from("吁"),
            sound: String::from("a"),
            variant_of: String::from("噫"),
        },
        char_pronunciation::Record {
            character: String::from("噫"),
            sound: String::from("a"),
            variant_of: String::new(),
        },
    ];
    let (sounds, variants) = char_pronunciation::parse(&rows).unwrap();
    assert_eq!(sounds.len(), 2);
    assert_eq!(sounds[0], (Linzklar('吁'), syl("a")));
    assert_eq!(variants, vec![(Linzklar('吁'), Linzklar('噫'))]);
    let bad_sound = vec![char_pronunciation::Record {
        character: String::from("吁"),
        sound: String::from("zzz"),
        variant_of: String::new(),
    }];
    assert_eq!(
        char_pronunciation::parse(&bad_sound),
        Err(CharTableError::InvalidSound(String::from("zzz")))
    );
    let bad_glyph = vec![char_pronunciation::Record {
        character: String::from("ab"),
        sound: String::from("a"),
        variant_of: String::new(),
    }];
    assert_eq!(
        char_pronunciation::parse(&bad_glyph),
        Err(CharTableError::BadGlyph(LinzklarError::MoreThanOneChar))
    );
}

#[test]
fn test_contraction_parse() {
    let rows = vec![contraction::Record {
        characters: String::from("足手"),
        sound: String::from("xiop1"),
    }];
    let tab = contraction::parse(&rows).unwrap();
    assert_eq!(tab.len(), 1);
    assert_eq!(tab[0].0.as_string(), "足手");
    assert_eq!(tab[0].1, syl("xiop1"));
}

#[test]
fn test_dismantling_parse() {
    let tree = DismantlingTree::parse("⿰人己").unwrap();
    match tree {
        DismantlingTree::Binary(_, left, right) => {
            assert_eq!(*left, DismantlingTree::Leaf(Linzklar('人')));
            assert_eq!(*right, DismantlingTree::Leaf(Linzklar('己')));
        },
        _ => panic!("expected a binary dismantling"),
    }
    assert_eq!(DismantlingTree::parse("⿰人"), Err(DismantlingError::BinaryTooFew('⿰')));
    assert_eq!(DismantlingTree::parse("⿲人己"), Err(DismantlingError::TrinaryTooFew('⿲')));
    assert_eq!(DismantlingTree::parse("💥"), Err(DismantlingError::UnaryWithoutOperand('💥')));
    assert_eq!(DismantlingTree::parse("人己"), Err(DismantlingError::LeftoverStack(2)));
    assert_eq!(DismantlingTree::parse("q"), Err(DismantlingError::NotAGlyph('q')));
}
