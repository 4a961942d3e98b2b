use ztarcc::compile::{compile, Artifacts};
use ztarcc::errors::{BuildError, LoadError};
use ztarcc::registry::Registry;
use ztarcc::script::PassId;
use ztarcc::convert_word;

const TABLE_NAMES: [&str; 11] = [
    "STCharacters",
    "STPhrases",
    "TSCharacters",
    "TSPhrases",
    "TWVariants",
    "TWVariantsRevPhrases",
    "TWPhrasesIT",
    "TWPhrasesName",
    "TWPhrasesOther",
    "HKVariants",
    "HKVariantsRevPhrases",
];

fn lines(raw: &[&str]) -> Vec<String> {
    raw.iter().map(|s| s.to_string()).collect()
}

fn make_sources(overrides: &[(&str, &[&str])]) -> Vec<(String, Vec<String>)> {
    TABLE_NAMES
        .iter()
        .map(|name| {
            let content = overrides
                .iter()
                .find(|(n, _)| n == name)
                .map(|(_, l)| lines(l))
                .unwrap_or_default();
            (name.to_string(), content)
        })
        .collect()
}

fn registry(overrides: &[(&str, &[&str])]) -> Registry {
    let artifacts = compile(&make_sources(overrides)).expect("compile failed");
    Registry::new(&artifacts).expect("load failed")
}

#[test]
fn missing_table_aborts_compilation() {
    let sources: Vec<(String, Vec<String>)> = make_sources(&[])
        .into_iter()
        .filter(|(name, _)| name != "HKVariants")
        .collect();
    let result = compile(&sources);
    assert!(matches!(result, Err(BuildError::MissingTable)));
}

#[test]
fn line_without_tab_aborts_compilation() {
    let sources = make_sources(&[("STCharacters", &["㐷 傌"])]);
    let result = compile(&sources);
    assert!(matches!(result, Err(BuildError::MalformedLine)));
}

#[test]
fn empty_key_aborts_compilation() {
    let sources = make_sources(&[("STCharacters", &["\t傌"])]);
    let result = compile(&sources);
    assert!(matches!(result, Err(BuildError::MalformedLine)));
}

#[test]
fn corrupt_artifact_fails_loading() {
    let artifacts = Artifacts { passes: vec![vec![7u8, 7, 7]; 8], keys: vec![7u8] };
    let result = Registry::new(&artifacts);
    assert!(matches!(result, Err(LoadError::BadArtifact)));
}

#[test]
fn tampered_pass_artifact_fails_loading() {
    // Flip the stored key byte of the one compiled entry to a byte that
    // cannot stand alone in UTF-8: the entry list no longer deserializes,
    // and loading must fail rather than panic or accept it.
    let artifacts =
        compile(&make_sources(&[("STCharacters", &["a\tb"])])).expect("compile failed");
    let mut raw =
        ztarcc::codec::decompress_bytes(&artifacts.passes[1]).expect("artifact decompresses");
    let pos = raw.iter().rposition(|&b| b == 0x61).expect("the label byte is present");
    raw[pos] = 0xE5;
    let mut passes = artifacts.passes.clone();
    passes[1] = ztarcc::codec::compress_bytes(&raw, 6);
    let broken = Artifacts { passes, keys: artifacts.keys };
    let result = Registry::new(&broken);
    assert!(matches!(result, Err(LoadError::BadArtifact)));
}

#[test]
fn artifact_with_empty_key_fails_loading() {
    // A decodable pass artifact whose entry list holds an empty key is
    // rejected at load: the rewrite dictionaries never hold one.
    let artifacts = compile(&make_sources(&[])).expect("compile failed");
    let pairs = vec![(String::new(), "x".to_string())];
    let encoded = ztarcc::codec::compress_bytes(&ztarcc::codec::encode_pairs(&pairs), 6);
    let mut passes = artifacts.passes.clone();
    passes[1] = encoded;
    let broken = Artifacts { passes, keys: artifacts.keys };
    let result = Registry::new(&broken);
    assert!(matches!(result, Err(LoadError::BadArtifact)));
}

#[test]
fn corrupt_keys_artifact_fails_loading() {
    let artifacts = compile(&make_sources(&[])).expect("compile failed");
    let broken = Artifacts { passes: artifacts.passes, keys: vec![9u8, 9, 9] };
    let result = Registry::new(&broken);
    assert!(matches!(result, Err(LoadError::BadArtifact)));
}

#[test]
fn wrong_artifact_count_fails_loading() {
    let artifacts = Artifacts { passes: Vec::new(), keys: Vec::new() };
    let result = Registry::new(&artifacts);
    assert!(matches!(result, Err(LoadError::BadArtifact)));
}

#[test]
fn value_is_first_token_extras_ignored() {
    let reg = registry(&[("STCharacters", &["㐷\t傌 ignored extras"])]);
    let keys = vec![PassId::FromChina];
    assert_eq!("傌", convert_word(&reg, &keys, "㐷"));
}

#[test]
fn line_without_value_token_contributes_no_entry() {
    let reg = registry(&[("STCharacters", &["㐷\t "])]);
    let keys = vec![PassId::FromChina];
    assert_eq!("㐷", convert_word(&reg, &keys, "㐷"));
}

#[test]
fn last_entry_wins_within_a_source() {
    let reg = registry(&[("STCharacters", &["X\tA", "X\tB"])]);
    let keys = vec![PassId::FromChina];
    assert_eq!("B", convert_word(&reg, &keys, "X"));
}

#[test]
fn later_table_overwrites_earlier_in_a_pass() {
    // STPhrases comes after STCharacters in the FromChina pass.
    let reg = registry(&[("STCharacters", &["X\tA"]), ("STPhrases", &["X\tB"])]);
    let keys = vec![PassId::FromChina];
    assert_eq!("B", convert_word(&reg, &keys, "X"));
}

#[test]
fn reversed_table_swaps_key_and_value() {
    let reg = registry(&[("TWVariants", &["著\t着"])]);
    // ToTaiwan uses the table forward, FromTaiwan uses it reversed.
    assert_eq!("着", convert_word(&reg, &vec![PassId::ToTaiwan], "著"));
    assert_eq!("著", convert_word(&reg, &vec![PassId::FromTaiwan], "着"));
}

#[test]
fn reversal_collision_keeps_one_forward_key() {
    // Two forward entries share a value; the reversal keeps one of the two
    // keys -- which one is unspecified, but it must be one of them.
    let reg = registry(&[("HKVariants", &["A\tZ", "B\tZ"])]);
    let out = convert_word(&reg, &vec![PassId::FromHongKong], "Z");
    assert!(out == "A" || out == "B");
}

#[test]
fn keyset_holds_exactly_the_long_keys() {
    // Only keys longer than three characters reach the vocabulary key set.
    let sources = make_sources(&[("STPhrases", &["简体字转换\t簡體字轉換", "们\t們"])]);
    let artifacts = compile(&sources).expect("compile failed");
    let kb = ztarcc::codec::decompress_bytes(&artifacts.keys).expect("keys decompress");
    let keys = ztarcc::codec::decode_keys(&kb).expect("keys decode");
    assert_eq!(vec!["简体字转换".to_string()], keys);
}

#[test]
fn two_pass_route_composes() {
    let reg = registry(&[("STCharacters", &["a\tb"]), ("TSCharacters", &["b\tz"])]);
    // CN -> CN routes through the standard form: a -> b, then b -> z.
    let keys = vec![PassId::FromChina, PassId::ToChina];
    assert_eq!("z", convert_word(&reg, &keys, "a"));
}
