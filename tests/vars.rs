use fill_prompt::vars::{
    format_of_extension, parse_inline_try_all, parse_vars_arg, scalar_to_text, table_to_map,
    Format, ResolveError, Scalar, VarsFile,
};
use fill_prompt::VarMap;

fn value_trimmed<'a>(map: &'a VarMap, key: &str) -> Option<&'a str> {
    map.get(key)
        .map(|s| s.trim_end_matches(|c| c == '\n' || c == '\r'))
}

fn assert_basic_vars(map: &VarMap) {
    assert_eq!(value_trimmed(map, "crate_type"), Some("bin"));
    assert_eq!(value_trimmed(map, "crate_name"), Some("fill_prompt"));
    assert_eq!(value_trimmed(map, "msrv"), Some("1.90.0"));
    assert_eq!(
        value_trimmed(map, "short_description"),
        Some("Petit outil pour remplir un template à partir de variables.")
    );
    assert_eq!(
        value_trimmed(map, "context_paragraph"),
        Some("Utile pour générer des prompts cohérents, reproductibles, sans erreurs d’oubli de variables.")
    );
    assert_eq!(value_trimmed(map, "author"), Some("Max"));
    assert_eq!(value_trimmed(map, "public"), Some("développeurs"));
    assert_eq!(value_trimmed(map, "opt_level"), Some("3"));
    assert_eq!(value_trimmed(map, "license"), Some("Apache-2.0"));
}

const BASIC_JSON: &str = r#"{
  "crate_type": "bin",
  "crate_name": "fill_prompt",
  "msrv": "1.90.0",
  "short_description": "Petit outil pour remplir un template à partir de variables.",
  "context_paragraph": "Utile pour générer des prompts cohérents, reproductibles, sans erreurs d’oubli de variables.",
  "author": "Max",
  "public": "développeurs",
  "opt_level": 3,
  "license": "Apache-2.0"
}
"#;

const BASIC_YAML: &str = r#"crate_type: bin
crate_name: fill_prompt
msrv: "1.90.0"
short_description: Petit outil pour remplir un template à partir de variables.
context_paragraph: |
  Utile pour générer des prompts cohérents, reproductibles, sans erreurs d’oubli de variables.
author: Max
public: développeurs
opt_level: 3
license: Apache-2.0
"#;

const BASIC_TOML: &str = r#"crate_type = "bin"
crate_name = "fill_prompt"
msrv = "1.90.0"
short_description = "Petit outil pour remplir un template à partir de variables."
context_paragraph = """
Utile pour générer des prompts cohérents, reproductibles, sans erreurs d’oubli de variables.
"""
author = "Max"
public = "développeurs"
opt_level = 3
license = "Apache-2.0"
"#;

fn file(extension: Option<&str>, content: &str) -> Option<VarsFile> {
    Some(VarsFile {
        extension: extension.map(|e| e.to_string()),
        content: content.to_string(),
    })
}

#[test]
fn parse_inline_json() {
    let arg = r#"{"name":"bob","age":30}"#;
    let vars = parse_vars_arg(arg, None).expect("parse inline json");
    assert_eq!(vars.get("name").map(String::as_str), Some("bob"));
    assert_eq!(vars.get("age").map(String::as_str), Some("30"));
}

#[test]
fn parse_inline_yaml() {
    let arg = r#"
            name: bob
            active: true
            ratio: 0.75
        "#;
    let vars = parse_vars_arg(arg, None).expect("parse inline yaml");
    assert_eq!(vars.get("name").map(String::as_str), Some("bob"));
    assert_eq!(vars.get("active").map(String::as_str), Some("true"));
    assert_eq!(vars.get("ratio").map(String::as_str), Some("0.75"));
}

#[test]
fn parse_inline_toml() {
    let arg = r#"
            name = "bob"
            counter = 42
        "#;
    let vars = parse_vars_arg(arg, None).expect("parse inline toml");
    assert_eq!(vars.get("name").map(String::as_str), Some("bob"));
    assert_eq!(vars.get("counter").map(String::as_str), Some("42"));
}

#[test]
fn parse_files_by_extension() {
    for (name, ext, content) in [
        ("basic.json", "json", BASIC_JSON),
        ("basic.yaml", "yaml", BASIC_YAML),
        ("basic.toml", "toml", BASIC_TOML),
    ] {
        let map = parse_vars_arg(name, file(Some(ext), content))
            .unwrap_or_else(|e| panic!("parse {}: {}", name, e.message()));
        assert_basic_vars(&map);
    }
}

#[test]
fn parse_inline_invalid_reports_error() {
    let err = parse_vars_arg("not-valid", None)
        .err()
        .expect("should fail to parse inline junk");
    assert!(
        err.message()
            .contains("impossible de parser la valeur inline"),
        "unexpected error: {}",
        err.message()
    );
}

#[test]
fn parse_file_unknown_extension_reports_error() {
    let err = parse_vars_arg("vars.txt", file(Some("txt"), "name=bob"))
        .err()
        .expect("expected unsupported extension");
    assert!(
        err.message().contains("extension de fichier non supportée"),
        "unexpected error: {}",
        err.message()
    );
}

#[test]
fn parse_directory_path_reports_error() {
    let err = parse_vars_arg("/tmp/some-directory", None)
        .err()
        .expect("expected directory error");
    assert!(
        err.message()
            .contains("impossible de parser la valeur inline"),
        "unexpected error: {}",
        err.message()
    );
}

#[test]
fn structured_source_coerces_numbers() {
    let vars = parse_vars_arg(r#"{"crate_name":"x","opt_level":3}"#, None).unwrap();
    assert_eq!(vars.get("crate_name").map(String::as_str), Some("x"));
    assert_eq!(vars.get("opt_level").map(String::as_str), Some("3"));
    assert_eq!(vars.pairs().len(), 2);
}

#[test]
fn nested_values_are_rejected_in_files() {
    for (ext, content) in [
        ("json", r#"{"a":"x","list":[1,2]}"#),
        ("toml", "a = \"x\"\n[inner]\nb = 1\n"),
        ("yaml", "a: x\nlist:\n  - 1\n"),
    ] {
        match parse_vars_arg("f", file(Some(ext), content)) {
            Err(ResolveError::NonScalarValue(k)) => assert!(k == "list" || k == "inner"),
            Err(e) => panic!("unexpected error: {}", e.message()),
            Ok(_) => panic!("nested value accepted"),
        }
    }
}

#[test]
fn nested_values_are_rejected_inline() {
    match parse_inline_try_all(r#"{"a":{"b":1}}"#) {
        Err(ResolveError::UnparseableInline(last)) => {
            assert!(matches!(*last, ResolveError::NonScalarValue(ref k) if k == "a"))
        }
        Err(e) => panic!("unexpected error: {}", e.message()),
        Ok(_) => panic!("nested value accepted"),
    }
}

#[test]
fn inline_falls_back_to_last_format() {
    let vars = parse_inline_try_all("who: world\nn: 7").unwrap();
    assert_eq!(vars.get("who").map(String::as_str), Some("world"));
    assert_eq!(vars.get("n").map(String::as_str), Some("7"));
}

#[test]
fn scalars_become_text() {
    assert_eq!(scalar_to_text(&Scalar::Boolean(true)).as_deref(), Some("true"));
    assert_eq!(scalar_to_text(&Scalar::Boolean(false)).as_deref(), Some("false"));
    assert_eq!(scalar_to_text(&Scalar::Null).as_deref(), Some(""));
    assert_eq!(
        scalar_to_text(&Scalar::Number("2.5".to_string())).as_deref(),
        Some("2.5")
    );
    assert_eq!(scalar_to_text(&Scalar::Nested), None);
    let vars = parse_vars_arg(r#"{"t":true,"n":null}"#, None).unwrap();
    assert_eq!(vars.get("t").map(String::as_str), Some("true"));
    assert_eq!(vars.get("n").map(String::as_str), Some(""));
}

#[test]
fn table_fails_on_first_bad_entry() {
    let entries = vec![
        (Some("a".to_string()), Scalar::Text("x".to_string())),
        (Some("b".to_string()), Scalar::Nested),
        (None, Scalar::Null),
    ];
    match table_to_map(entries) {
        Err(ResolveError::NonScalarValue(k)) => assert_eq!(k, "b"),
        _ => panic!("expected NonScalarValue"),
    }
    let entries = vec![(None, Scalar::Null), (Some("b".to_string()), Scalar::Nested)];
    assert!(matches!(table_to_map(entries), Err(ResolveError::NonStringKey)));
}

#[test]
fn root_must_be_a_table() {
    match parse_vars_arg("f", file(Some("json"), "[1, 2]")) {
        Err(ResolveError::RootNotTable(Format::Json)) => {}
        _ => panic!("expected RootNotTable"),
    }
}

#[test]
fn malformed_file_is_reported_for_its_format() {
    match parse_vars_arg("f", file(Some("json"), "name: bob")) {
        Err(ResolveError::Malformed(Format::Json, _)) => {}
        _ => panic!("expected Malformed"),
    }
}

#[test]
fn extensions_are_matched_without_case() {
    assert!(matches!(format_of_extension(&"yml".to_string()), Ok(Format::Yaml)));
    assert!(matches!(format_of_extension(&"toml".to_string()), Ok(Format::Toml)));
    let vars = parse_vars_arg("f", file(Some("JSON"), r#"{"a":"b"}"#)).unwrap();
    assert_eq!(vars.get("a").map(String::as_str), Some("b"));
    match parse_vars_arg("f", file(Some("TXT"), "")) {
        Err(ResolveError::UnsupportedExtension(e)) => assert_eq!(e, "txt"),
        _ => panic!("expected UnsupportedExtension"),
    }
}

#[test]
fn file_without_extension_is_read_as_inline() {
    let vars = parse_vars_arg("f", file(None, "k = \"v\"")).unwrap();
    assert_eq!(vars.get("k").map(String::as_str), Some("v"));
}

#[test]
fn error_messages() {
    assert_eq!(
        ResolveError::RootNotTable(Format::Yaml).message(),
        "YAML attendu: mapping (clé->valeur) à la racine"
    );
    assert_eq!(
        ResolveError::Malformed(Format::Toml, "x".to_string()).message(),
        "parse TOML: invalid TOML: x"
    );
    assert_eq!(
        ResolveError::UnparseableInline(Box::new(ResolveError::NonStringKey)).message(),
        "impossible de parser la valeur inline en JSON/TOML/YAML: clé YAML non-string"
    );
    match parse_vars_arg("f", file(Some("yaml"), "- a\n- b\n")) {
        Err(ResolveError::RootNotTable(Format::Yaml)) => {}
        _ => panic!("expected RootNotTable"),
    }
    match parse_vars_arg("f", file(Some("toml"), "= broken")) {
        Err(ResolveError::Malformed(Format::Toml, _)) => {}
        _ => panic!("expected Malformed"),
    }
}
