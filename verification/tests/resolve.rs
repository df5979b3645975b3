//! Tests of the loaders, the decomposition resolver and the bundle.

use spoonfed_pekzep::read::char_pronunciation::{self, Linzklar, LinzklarString};
use spoonfed_pekzep::read::phrase::{self, Author, ExtSyllable, FilePathType, PhraseError, RecordError, SentenceGloss};
use spoonfed_pekzep::read::vocab::{self, InternalKey, InternalKeyGloss, KeyError, VocabError};
use spoonfed_pekzep::rerrliratixka::PekZepSyllable;
use spoonfed_pekzep::verify::{
    unused_vocab_keys, used_vocab_entries, verify_decomposed, BundleError, DataBundle,
    DecompositionError,
};

fn syl(s: &str) -> PekZepSyllable {
    PekZepSyllable::parse(s).unwrap()
}

fn vocab_row(key: &str, latin: &str, hanzi: &str, gloss: &str) -> vocab::Record {
    vocab::Record {
        key: String::from(key),
        pekzep_latin: String::from(latin),
        pekzep_hanzi: String::from(hanzi),
        parts_of_speech: String::from("noun"),
        parts_of_speech_supplement: String::new(),
        english_gloss: String::from(gloss),
    }
}

fn phrase_row(english: &str, latin: &str, hanzi: &str, decomposed: &str, filetype: &str, author: &str) -> phrase::Record {
    phrase::Record {
        english: String::from(english),
        pekzep_latin: String::from(latin),
        pekzep_hanzi: String::from(hanzi),
        chinese_pinyin: String::new(),
        chinese_hanzi: String::new(),
        decomposed: String::from(decomposed),
        filetype: String::from(filetype),
        recording_author: String::from(author),
        requires_substitution: String::new(),
        japanese: String::new(),
    }
}

fn char_row(c: &str, sound: &str) -> char_pronunciation::Record {
    char_pronunciation::Record {
        character: String::from(c),
        sound: String::from(sound),
        variant_of: String::new(),
    }
}

#[test]
fn test_vocab_parse() {
    let rows = vec![
        vocab_row("我", "pa", "我", "I"),
        vocab_row("", "", "", ""),
        vocab_row("之", "po", "之", "of"),
    ];
    let catalog = vocab::parse(&rows).unwrap();
    assert_eq!(catalog.len(), 2);
    let item = catalog.get(&InternalKey::new("我").unwrap()).unwrap();
    assert_eq!(item.english_gloss, "I");
    assert!(catalog.get(&InternalKey::new("人").unwrap()).is_none());
}

#[test]
fn test_vocab_parse_errors() {
    let dup = vec![vocab_row("我", "pa", "我", "I"), vocab_row("我", "pa", "我", "me")];
    match vocab::parse(&dup).unwrap_err() {
        VocabError::DuplicateKeys(ks) => {
            assert_eq!(ks, vec![InternalKey::new("我").unwrap()]);
        },
        other => panic!("expected duplicate keys, got {:?}", other),
    }
    let bad = vec![vocab_row("☆", "pa", "我", "I")];
    assert_eq!(
        vocab::parse(&bad).unwrap_err(),
        VocabError::BadKey { input: String::from("☆"), err: KeyError::BadLeadingChar('☆') }
    );
}

#[test]
fn test_phrase_parse() {
    let rows = vec![
        phrase_row("Hello", "kait kia1!", "善日！", "善日", "wav, oga", "jekto.vatimeliju"),
        phrase_row("skipped", "kait", "善@", "", "", ""),
        phrase_row("no syllables", "", "", "", "", ""),
    ];
    let parsed = phrase::parse(&rows).unwrap();
    assert_eq!(parsed.len(), 1);
    let (sylls, item) = &parsed[0];
    assert_eq!(sylls.len(), 2);
    assert_eq!(item.filetype, vec![FilePathType::Wav, FilePathType::Oga]);
    assert_eq!(item.recording_author, Some(Author::JektoVatimeliju));
    assert_eq!(item.decomposed.len(), 1);
    assert_eq!(item.decomposed[0].0.len(), 1);
}

#[test]
fn test_phrase_parse_errors() {
    let dup = vec![
        phrase_row("one", "kait", "善", "", "", ""),
        phrase_row("two", "kait", "善", "", "", ""),
    ];
    match phrase::parse(&dup).unwrap_err() {
        PhraseError::Duplicates(d) => {
            assert_eq!(d.len(), 1);
            assert_eq!(d[0], vec![ExtSyllable::Syllable(syl("kait"))]);
        },
        other => panic!("expected duplicates, got {:?}", other),
    }
    let bad_filetype = vec![phrase_row("x", "kait", "善", "", "mp3", "")];
    match phrase::parse(&bad_filetype).unwrap_err() {
        PhraseError::Record { index, err } => {
            assert_eq!(index, 0);
            assert_eq!(err, RecordError::BadFileType(String::from("mp3")));
        },
        other => panic!("expected a record error, got {:?}", other),
    }
    let bad_gloss = vec![phrase_row("x", "kait", "善", "善.☆", "", "")];
    match phrase::parse(&bad_gloss).unwrap_err() {
        PhraseError::Record { err, .. } => {
            assert_eq!(
                err,
                RecordError::Gloss { token: String::from("☆"), err: KeyError::BadLeadingChar('☆') }
            );
        },
        other => panic!("expected a record error, got {:?}", other),
    }
    let bad_syll = vec![phrase_row("x", "kait zzz", "善", "", "", "")];
    match phrase::parse(&bad_syll).unwrap_err() {
        PhraseError::Record { err, .. } => {
            assert_eq!(err, RecordError::Syllables(vec![String::from("zzz")]));
        },
        other => panic!("expected a record error, got {:?}", other),
    }
}

#[test]
fn test_filetype_and_author_parsing() {
    let rows = vec![phrase_row("x", "kait", "善", "", "wav , wav", "someone else")];
    let parsed = phrase::parse(&rows).unwrap();
    let (_, item) = &parsed[0];
    assert_eq!(item.filetype, vec![FilePathType::Wav]);
    assert_eq!(item.recording_author, Some(Author::Other(String::from("someone else"))));
}

#[test]
fn test_multi_clause_decomposition() {
    let catalog = vocab::parse(&vec![
        vocab_row("我", "pa", "我", "I"),
        vocab_row("人", "pu", "人", "person"),
    ])
    .unwrap();
    let row = phrase::Item {
        english: String::new(),
        pekzep_latin: String::from("pa pu"),
        pekzep_hanzi: String::from("我。人"),
        chinese_pinyin: String::new(),
        chinese_hanzi: String::new(),
        decomposed: vec![
            SentenceGloss(vec![InternalKeyGloss::new("我").unwrap()]),
            SentenceGloss(vec![InternalKeyGloss::new("人").unwrap()]),
        ],
        filetype: Vec::new(),
        recording_author: None,
        japanese: String::new(),
    };
    let clauses = verify_decomposed(&catalog, &row).unwrap();
    assert_eq!(clauses.len(), 2);
    assert_eq!(clauses[0].len(), 1);
    assert_eq!(clauses[1].len(), 1);
    assert_eq!(clauses[1][0].key, InternalKey::new("人").unwrap());
}

#[test]
fn test_verify_decomposed_errors() {
    let catalog = vocab::parse(&vec![vocab_row("我", "pa", "我", "I")]).unwrap();
    let mismatch = phrase::Item {
        english: String::new(),
        pekzep_latin: String::from("pa"),
        pekzep_hanzi: String::from("我人"),
        chinese_pinyin: String::new(),
        chinese_hanzi: String::new(),
        decomposed: vec![SentenceGloss(vec![InternalKeyGloss::new("我").unwrap()])],
        filetype: Vec::new(),
        recording_author: None,
        japanese: String::new(),
    };
    assert_eq!(
        verify_decomposed(&catalog, &mismatch).unwrap_err(),
        DecompositionError::Mismatch {
            expectation: String::from("我人"),
            rejoined: String::from("我")
        }
    );
    let unknown = phrase::Item {
        pekzep_hanzi: String::from("犬"),
        decomposed: vec![SentenceGloss(vec![InternalKeyGloss::new("犬").unwrap()])],
        ..mismatch
    };
    assert_eq!(
        verify_decomposed(&catalog, &unknown).unwrap_err(),
        DecompositionError::UnknownKey {
            key: InternalKey::new("犬").unwrap(),
            context: String::from("犬")
        }
    );
}

fn scenario_tables() -> (
    Vec<(Linzklar, PekZepSyllable)>,
    Vec<(LinzklarString, PekZepSyllable)>,
    Vec<(Vec<ExtSyllable>, phrase::Item)>,
    vocab::Catalog,
) {
    let (chars, _) = char_pronunciation::parse(
        &vec![
            char_row("我", "pa"),
            char_row("与", "pe"),
            char_row("学", "pi"),
            char_row("之", "po"),
            char_row("人", "pu"),
            char_row("日", "ka"),
        ],
    )
    .unwrap();
    let contractions = Vec::new();
    let catalog = vocab::parse(
        &vec![
            vocab_row("我", "pa", "我", "I"),
            vocab_row("与 // 学", "pe // pi", "与 // 学", "to study with"),
            vocab_row("之", "po", "之", "of"),
            vocab_row("人", "pu", "人", "person"),
            vocab_row("日", "ka", "日", "day"),
        ],
    )
    .unwrap();
    let rows = phrase::parse(
        &vec![phrase_row(
            "the one who studies with me",
            "pa pe pi po pu.",
            "我与学之人。",
            "我.与#学.与!学.之.人",
            "",
            "",
        )],
    )
    .unwrap();
    (chars, contractions, rows, catalog)
}

#[test]
fn test_scenario_bundle() {
    let (chars, contractions, rows, catalog) = scenario_tables();
    let bundle = DataBundle::new(chars, contractions, rows, catalog).unwrap();
    assert_eq!(bundle.rows3.len(), 1);
    let decomposition = &bundle.rows3[0].decomposition;
    assert_eq!(decomposition.len(), 1);
    assert_eq!(decomposition[0].len(), 5);
    // the two adjacent compound halves resolve to the same dictionary entry
    assert_eq!(decomposition[0][1].key, decomposition[0][2].key);
    assert_eq!(decomposition[0][1].voc.english_gloss, decomposition[0][2].voc.english_gloss);
    // usage accounting: five tokens counted, four distinct keys, in first use order
    let used = used_vocab_entries(&bundle);
    assert_eq!(used.len(), 4);
    assert_eq!(used[0].0, InternalKey::new("我").unwrap());
    assert_eq!(used[1].0, InternalKey::new("与 // 学").unwrap());
    assert_eq!(used[2].0, InternalKey::new("之").unwrap());
    assert_eq!(used[3].0, InternalKey::new("人").unwrap());
    assert_eq!(bundle.vocab_count.len(), 4);
    let total: usize = bundle.vocab_count.iter().map(|e| e.1).sum();
    assert_eq!(total, 5);
    for (key, n) in &bundle.vocab_count {
        if *key == InternalKey::new("与 // 学").unwrap() {
            assert_eq!(*n, 2);
        } else {
            assert_eq!(*n, 1);
        }
    }
    // glyph usage
    assert_eq!(bundle.char_count.len(), 5);
    for (glyph, n) in &bundle.char_count {
        assert_eq!(*n, 1, "glyph {:?} counted once", glyph);
    }
    // the never-used entry is reported
    let (chars2, contractions2, rows2, catalog2) = scenario_tables();
    let bundle2 = DataBundle::new(chars2, contractions2, rows2, catalog2).unwrap();
    let (_, _, _, catalog3) = scenario_tables();
    let unused = unused_vocab_keys(&catalog3, &bundle2);
    assert_eq!(unused, vec![InternalKey::new("日").unwrap()]);
}

#[test]
fn test_bundle_stage_errors() {
    // a transcription that does not align stops the run at the first stage
    let (chars, contractions, _, catalog) = scenario_tables();
    let rows = phrase::parse(&vec![phrase_row("bad", "pa", "人", "", "", "")]).unwrap();
    match DataBundle::new(chars, contractions, rows, catalog) {
        Err(BundleError::SentenceAlignment(es)) => {
            assert_eq!(es.len(), 1);
            assert_eq!(es[0].0, 0);
        },
        _ => panic!("expected a sentence alignment failure"),
    }
    // an unresolvable gloss token is reported with its row index
    let (chars, contractions, _, catalog) = scenario_tables();
    let rows = phrase::parse(
        &vec![phrase_row("bad", "pa", "我", "犬", "", "")],
    )
    .unwrap();
    match DataBundle::new(chars, contractions, rows, catalog) {
        Err(BundleError::Decomposition(es)) => {
            assert_eq!(es.len(), 1);
            assert_eq!(es[0].0, 0);
        },
        _ => panic!("expected a decomposition failure"),
    }
}
