//! Tests of the syllable codec and the key codec.

use spoonfed_pekzep::read::phrase::{encode_to_pekzep_syllables, syllables_to_str_underscore, ExtSyllable};
use spoonfed_pekzep::read::vocab::{InternalKey, InternalKeyGloss, KeyError, SplittableCompoundInfo};
use spoonfed_pekzep::rerrliratixka::PekZepSyllable;
use spoonfed_pekzep::split_at_slashslash;

#[test]
fn test_new() {
    assert_eq!(
        InternalKey::new("於dur").unwrap(),
        InternalKey { postfix: String::from("dur"), main: String::from("於") }
    );
    assert_eq!(
        InternalKey::new("於").unwrap(),
        InternalKey { postfix: String::from(""), main: String::from("於") }
    );
    assert_eq!(
        InternalKey::new("xizi:375").unwrap(),
        InternalKey { postfix: String::from(":375"), main: String::from("xizi") }
    );
    assert_eq!(
        InternalKey::new("xizi").unwrap(),
        InternalKey { postfix: String::from(""), main: String::from("xizi") }
    );
    assert_eq!(
        InternalKey::new("xizi375").unwrap(),
        InternalKey { postfix: String::from(""), main: String::from("xizi375") }
    );
}

#[test]
fn test_new2() {
    assert_eq!(
        InternalKeyGloss::new("於dur").unwrap(),
        InternalKeyGloss { postfix: String::from("dur"), main: String::from("於") }
    );
    assert_eq!(
        InternalKeyGloss::new("於").unwrap(),
        InternalKeyGloss { postfix: String::from(""), main: String::from("於") }
    );
    assert_eq!(
        InternalKeyGloss::new("xizi:375").unwrap(),
        InternalKeyGloss { postfix: String::from(":375"), main: String::from("xizi") }
    );
    assert_eq!(
        InternalKeyGloss::new("xizi").unwrap(),
        InternalKeyGloss { postfix: String::from(""), main: String::from("xizi") }
    );
    assert_eq!(
        InternalKeyGloss::new("xizi375").unwrap(),
        InternalKeyGloss { postfix: String::from(""), main: String::from("xizi375") }
    );
}

#[test]
fn test_to_path_safe_string() {
    assert_eq!(InternalKey::new("xizi375").unwrap().to_path_safe_string(), "xizi375");
    assert_eq!(InternalKey::new("享 // 銭").unwrap().to_path_safe_string(), "享_slashslash_銭");
    assert_eq!(InternalKey::new("識 // 言2").unwrap().to_path_safe_string(), "識_slashslash_言2");
}

#[test]
fn test_split_at_slashslash() {
    assert_eq!(
        split_at_slashslash("行 // 道"),
        (String::from("行 "), String::from(" 道"))
    );
}

#[test]
fn test_key_errors() {
    assert_eq!(InternalKey::new(""), Err(KeyError::EmptyInput));
    assert_eq!(InternalKey::new("☆x"), Err(KeyError::BadLeadingChar('☆')));
}

#[test]
fn test_splittable_compound_info() {
    assert_eq!(
        InternalKeyGloss::new("享#銭").unwrap().to_splittable_compound_info(),
        Some(SplittableCompoundInfo::FormerHalfHash)
    );
    assert_eq!(
        InternalKeyGloss::new("享!銭").unwrap().to_splittable_compound_info(),
        Some(SplittableCompoundInfo::LatterHalfExclamation)
    );
    assert_eq!(InternalKeyGloss::new("享銭").unwrap().to_splittable_compound_info(), None);
}

#[test]
fn test_to_internal_key() {
    let gloss = InternalKeyGloss::new("享#銭2").unwrap();
    let key = gloss.to_internal_key();
    assert_eq!(key, InternalKey { main: String::from("享 // 銭"), postfix: String::from("2") });
}

#[test]
fn test_to_plaintext() {
    assert_eq!(InternalKeyGloss::new("与#学").unwrap().to_plaintext(), "与");
    assert_eq!(InternalKeyGloss::new("与!学").unwrap().to_plaintext(), "学");
    assert_eq!(InternalKeyGloss::new("∅3").unwrap().to_plaintext(), "");
    assert_eq!(InternalKeyGloss::new("xizi375").unwrap().to_plaintext(), "xizi");
    assert_eq!(InternalKeyGloss::new("於dur").unwrap().to_plaintext(), "於");
    assert_eq!(InternalKeyGloss::new("須多2").unwrap().to_plaintext(), "須多");
}

#[test]
fn test_syllable_roundtrip_samples() {
    for s in ["a", "kait", "kia1", "xiop1", "pai2", "mua2", "zep1", "nan2", "aim2", "uai", "yn"] {
        let parsed = PekZepSyllable::parse(s).unwrap();
        assert_eq!(parsed.to_latin(), s);
        assert_eq!(PekZepSyllable::parse(&parsed.to_latin()).unwrap(), parsed);
    }
}

#[test]
fn test_syllable_parse_rejects() {
    assert_eq!(PekZepSyllable::parse(""), None);
    assert_eq!(PekZepSyllable::parse("q"), None);
    assert_eq!(PekZepSyllable::parse("p1"), None);
    assert_eq!(PekZepSyllable::parse("zz"), None);
    assert_eq!(PekZepSyllable::parse("1"), None);
}

#[test]
fn test_to_rerrliratixka() {
    assert_eq!(PekZepSyllable::parse("kait").unwrap().to_rerrliratixka(), "kait");
    assert_eq!(PekZepSyllable::parse("kia1").unwrap().to_rerrliratixka(), "kiar");
    assert_eq!(PekZepSyllable::parse("pai2").unwrap().to_rerrliratixka(), "prai");
}

#[test]
fn test_encode_to_pekzep_syllables() {
    let sylls = encode_to_pekzep_syllables("kait kia1!").unwrap();
    assert_eq!(sylls.len(), 2);
    assert_eq!(sylls[0], ExtSyllable::Syllable(PekZepSyllable::parse("kait").unwrap()));
    let with_xizi = encode_to_pekzep_syllables("mua2 xizi").unwrap();
    assert_eq!(with_xizi[1], ExtSyllable::Xizi);
    let bad = encode_to_pekzep_syllables("kait zzz qqq").unwrap_err();
    assert_eq!(bad, vec![String::from("zzz"), String::from("qqq")]);
}

#[test]
fn test_syllables_to_str_underscore() {
    let sylls = vec![
        ExtSyllable::Syllable(PekZepSyllable::parse("kait").unwrap()),
        ExtSyllable::Syllable(PekZepSyllable::parse("kia1").unwrap()),
        ExtSyllable::Xizi,
    ];
    assert_eq!(syllables_to_str_underscore(&sylls), "kait_kia1_xizi");
}
