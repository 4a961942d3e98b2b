use ztarcc::compile::compile;
use ztarcc::registry::Registry;
use ztarcc::script::PassId;
use ztarcc::Script;
use ztarcc::{convert, convert_export, convert_word};

/// The names of every table source the compiler expects.
const TABLE_NAMES: [&str; 11] = [
    "STCharacters",
    "STPhrases",
    "TSCharacters",
    "TSPhrases",
    "TWVariants",
    "TWVariantsRevPhrases",
    "TWPhrasesIT",
    "TWPhrasesName",
    "TWPhrasesOther",
    "HKVariants",
    "HKVariantsRevPhrases",
];

fn lines(raw: &[&str]) -> Vec<String> {
    raw.iter().map(|s| s.to_string()).collect()
}

/// A full source set: every table present, the named ones with content.
fn make_sources(overrides: &[(&str, &[&str])]) -> Vec<(String, Vec<String>)> {
    TABLE_NAMES
        .iter()
        .map(|name| {
            let content = overrides
                .iter()
                .find(|(n, _)| n == name)
                .map(|(_, l)| lines(l))
                .unwrap_or_default();
            (name.to_string(), content)
        })
        .collect()
}

fn registry(overrides: &[(&str, &[&str])]) -> Registry {
    let artifacts = compile(&make_sources(overrides)).expect("compile failed");
    Registry::new(&artifacts).expect("load failed")
}

/// A registry with a few real entries from the reference data set.
fn scenario_registry() -> Registry {
    registry(&[
        ("STCharacters", &["㐷\t傌", "们\t們"]),
        ("TSCharacters", &["們\t们"]),
        ("TWPhrasesIT", &["優化\t最佳化"]),
        ("HKVariants", &["喫\t吃"]),
    ])
}

#[test]
fn test_convert_word() {
    let reg = scenario_registry();
    let keys = vec![PassId::FromChina];
    let result = convert_word(&reg, &keys, "㐷");
    assert_eq!("傌", result);
}

#[test]
fn test_convert_word_hk_rev() {
    let reg = scenario_registry();
    let keys = vec![PassId::FromHongKong];
    let result = convert_word(&reg, &keys, "吃");
    assert_eq!("喫", result);
}

#[test]
fn simple() {
    let reg = scenario_registry();
    let result = convert(&reg, Script::ST, Script::TW, "優化");
    assert_eq!("最佳化", result.join(""));
}

#[test]
fn opencc664() {
    let reg = scenario_registry();
    let result = convert(&reg, Script::CN, Script::TW, "他们是勇敢的士兵");
    assert_eq!("他們是勇敢的士兵", result.join(""));
}

#[test]
fn standard_to_standard_is_identity() {
    let reg = scenario_registry();
    let text = "他们是勇敢的士兵, and some ascii.\n二行目";
    let result = convert(&reg, Script::ST, Script::ST, text);
    assert_eq!(text, result.join(""));
}

#[test]
fn conversion_is_deterministic() {
    let reg = scenario_registry();
    let first = convert(&reg, Script::CN, Script::TW, "他们俩吃了㐷");
    let second = convert(&reg, Script::CN, Script::TW, "他们俩吃了㐷");
    assert_eq!(first, second);
}

#[test]
fn nonempty_input_gives_nonempty_output() {
    let reg = scenario_registry();
    let result = convert(&reg, Script::CN, Script::TW, "众");
    let joined = result.join("");
    assert!(!joined.is_empty());
    assert!(joined.chars().count() > 0);
}

#[test]
fn longest_match_wins() {
    // With "A" -> "Y" and "AB" -> "X" present simultaneously, "AB..." must
    // rewrite to "X...", never "Y" followed by a copied-through "B".
    let reg = registry(&[("STCharacters", &["A\tY"]), ("STPhrases", &["AB\tX"])]);
    let keys = vec![PassId::FromChina];
    assert_eq!("XC", convert_word(&reg, &keys, "ABC"));
    assert_eq!("YX", convert_word(&reg, &keys, "AAB"));
}

#[test]
fn no_round_trip_guarantee() {
    // A -> B towards the standard form, but B -> C away from it: converting
    // back does not restore the original, which is acceptable by design.
    let reg = registry(&[("STCharacters", &["a\tb"]), ("TSCharacters", &["b\tc"])]);
    let there = convert(&reg, Script::CN, Script::ST, "a").join("");
    assert_eq!("b", there);
    let back = convert(&reg, Script::ST, Script::CN, &there).join("");
    assert_eq!("c", back);
    assert_ne!("a", back);
}

#[test]
fn long_key_survives_tokenization() {
    // A key longer than three characters joins the segmenter's vocabulary,
    // so generic segmentation cannot fragment it before its pass runs.
    let reg = registry(&[("STPhrases", &["简体字转换\t簡體字轉換"])]);
    let result = convert(&reg, Script::CN, Script::ST, "简体字转换");
    assert_eq!("簡體字轉換", result.join(""));
}

#[test]
fn copy_through_for_unmapped_text() {
    let reg = scenario_registry();
    let result = convert(&reg, Script::CN, Script::TW, "abc 123 !?");
    assert_eq!("abc 123 !?", result.join(""));
}

#[test]
fn convert_export_joins_output() {
    let reg = scenario_registry();
    let result = convert_export(&reg, "cn", "tw", "他们").expect("conversion failed");
    assert_eq!("他們", result);
}

#[test]
fn convert_export_rejects_unknown_from() {
    let reg = scenario_registry();
    let err = convert_export(&reg, "xx", "tw", "他们").err().expect("expected an error");
    assert_eq!("invalid from script xx", err.val);
}

#[test]
fn convert_export_rejects_unknown_to() {
    let reg = scenario_registry();
    let err = convert_export(&reg, "cn", "zz", "他们").err().expect("expected an error");
    assert_eq!("invalid to script zz", err.val);
}
