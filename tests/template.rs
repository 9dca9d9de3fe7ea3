use fill_prompt::template::extract_placeholders;
use fill_prompt::{fill_template, FillError, VarMap};

fn vars_of(pairs: &[(&str, &str)]) -> VarMap {
    let mut vars = VarMap::new();
    for (k, v) in pairs {
        vars.insert(k.to_string(), v.to_string());
    }
    vars
}

#[test]
fn success_basic() {
    let tpl = "X {{a}} Y {{b}} Z";
    let vars = vars_of(&[("a", "1"), ("b", "2")]);
    let out = fill_template(tpl, &vars).unwrap();
    assert_eq!(out, "X 1 Y 2 Z");
}

#[test]
fn missing_variable_error() {
    let tpl = "Hello {{name}}";
    let vars = VarMap::new();
    let err = fill_template(tpl, &vars).unwrap_err();
    assert_eq!(err, FillError::MissingVariable("name".to_string()));
}

#[test]
fn unclosed_placeholder_error() {
    let tpl = "Hey {{oops";
    let vars = vars_of(&[("oops", "X")]);
    let err = fill_template(tpl, &vars).unwrap_err();
    match err {
        FillError::UnclosedPlaceholder(_) => {}
        _ => panic!("expected UnclosedPlaceholder"),
    }
}

#[test]
fn empty_placeholder_error() {
    let tpl = "Empty {{  }}";
    let vars = VarMap::new();
    let err = fill_template(tpl, &vars).unwrap_err();
    match err {
        FillError::EmptyPlaceholder(_) => {}
        _ => panic!("expected EmptyPlaceholder"),
    }
}

#[test]
fn adjacent_placeholders() {
    let tpl = "{{a}}{{b}}{{c}}";
    let vars = vars_of(&[("a", "A"), ("b", "B"), ("c", "C")]);
    let out = fill_template(tpl, &vars).unwrap();
    assert_eq!(out, "ABC");
}

#[test]
fn utf8_handling() {
    let tpl = "Pré {{a}} cœur";
    let vars = vars_of(&[("a", "✓")]);
    let out = fill_template(tpl, &vars).unwrap();
    assert!(out.contains("✓"));
}

#[test]
fn integration_fill() {
    let tpl = "A {{x}} B {{y}}";
    let vars = vars_of(&[("x", "X"), ("y", "Y")]);
    let s = fill_template(tpl, &vars).unwrap();
    assert_eq!(s, "A X B Y");
}

#[test]
fn template_without_braces_is_unchanged() {
    let tpl = "Plain text: naïve café, tabs\tand\nnew lines.";
    let vars = vars_of(&[("x", "unused")]);
    assert_eq!(fill_template(tpl, &vars).unwrap(), tpl);
    assert_eq!(fill_template("", &VarMap::new()).unwrap(), "");
}

#[test]
fn single_substitution() {
    let vars = vars_of(&[("who", "Alice")]);
    assert_eq!(fill_template("Hi {{who}}", &vars).unwrap(), "Hi Alice");
}

#[test]
fn unclosed_placeholder_reports_offset_of_opening() {
    let vars = vars_of(&[("oops", "X")]);
    assert_eq!(
        fill_template("Hey {{oops", &vars),
        Err(FillError::UnclosedPlaceholder(4))
    );
}

#[test]
fn empty_placeholder_reports_offset_of_name() {
    assert_eq!(
        fill_template("Empty {{  }}", &VarMap::new()),
        Err(FillError::EmptyPlaceholder(8))
    );
}

#[test]
fn offsets_count_characters() {
    assert_eq!(
        fill_template("é {{x", &VarMap::new()),
        Err(FillError::UnclosedPlaceholder(2))
    );
}

#[test]
fn trimmed_names() {
    let vars = vars_of(&[("name", "Bob")]);
    assert_eq!(fill_template("Salut {{ name }} !", &vars).unwrap(), "Salut Bob !");
}

#[test]
fn unicode_preserved_exactly() {
    let vars = vars_of(&[("a", "✓")]);
    assert_eq!(fill_template("Pré {{a}} cœur", &vars).unwrap(), "Pré ✓ cœur");
}

#[test]
fn first_error_from_left_wins() {
    let vars = vars_of(&[("b", "B")]);
    assert_eq!(
        fill_template("{{a}} {{b}} {{", &vars),
        Err(FillError::MissingVariable("a".to_string()))
    );
    assert_eq!(
        fill_template("{{ }} {{missing}}", &vars),
        Err(FillError::EmptyPlaceholder(2))
    );
}

#[test]
fn values_are_not_expanded_again() {
    let vars = vars_of(&[("a", "{{b}}"), ("b", "no")]);
    assert_eq!(fill_template("<{{a}}>", &vars).unwrap(), "<{{b}}>");
}

#[test]
fn names_are_case_sensitive() {
    let vars = vars_of(&[("Name", "X")]);
    assert_eq!(
        fill_template("{{name}}", &vars),
        Err(FillError::MissingVariable("name".to_string()))
    );
}

#[test]
fn later_insert_overrides_earlier() {
    let vars = vars_of(&[("a", "first"), ("b", "B"), ("a", "second")]);
    assert_eq!(fill_template("{{a}}{{b}}", &vars).unwrap(), "secondB");
    assert_eq!(vars.get("a").map(String::as_str), Some("second"));
    assert_eq!(vars.get("zzz"), None);
}

#[test]
fn single_braces_are_literal() {
    let vars = vars_of(&[("a", "A")]);
    assert_eq!(fill_template("{a} }} {{a}}}", &vars).unwrap(), "{a} }} A}");
}

#[test]
fn placeholder_names_in_first_appearance_order() {
    let names = extract_placeholders("{{ b }} {{a}} {{b}} {{  }} {{c");
    assert_eq!(names, vec!["b".to_string(), "a".to_string()]);
    assert!(extract_placeholders("no placeholders").is_empty());
}

#[test]
fn merged_sources_later_wins() {
    let mut vars = vars_of(&[("a", "1"), ("b", "2")]);
    let later = vars_of(&[("b", "20"), ("c", "30")]);
    vars.merge(&later);
    assert_eq!(vars.get("a").map(String::as_str), Some("1"));
    assert_eq!(vars.get("b").map(String::as_str), Some("20"));
    assert_eq!(vars.get("c").map(String::as_str), Some("30"));
    assert_eq!(vars.pairs().len(), 3);
}
