//! Loading variables from a structured source: a JSON, TOML or YAML document
//! whose root is a table of scalar values.
use vstd::prelude::*;
use crate::varmap::VarMap;
use serde_json::Value as JsonValue;
use serde_yaml::Value as YamlValue;
use toml::Value as TomlValue;

verus! {

/// A structured-data format.
#[derive(Debug, Clone, Copy, PartialEq, Eq, Structural)]
pub enum Format {
    Json,
    Toml,
    Yaml,
}

/// A value found at the root of a document, as far as flattening needs it.
pub enum Scalar {
    Text(String),
    /// A number, in the textual form its format's library gives it (TOML
    /// dates and times are carried the same way).
    Number(String),
    Boolean(bool),
    Null,
    /// An array, a nested table, or a YAML tagged value.
    Nested,
}

/// Why a structured source could not be turned into variables.
#[derive(Debug)]
pub enum ResolveError {
    /// A file's extension (lower-cased) names no supported format.
    UnsupportedExtension(String),
    /// An inline payload parsed under no format; the error of the last one
    /// tried.
    UnparseableInline(Box<ResolveError>),
    /// A document is not valid in the format it was parsed as.
    Malformed(Format, String),
    /// The document's root is not a table.
    RootNotTable(Format),
    /// The value under this key is an array or a nested table.
    NonScalarValue(String),
    /// A YAML mapping at the root has a key that is not a string.
    NonStringKey,
}

/// A root value in mathematical terms.
pub enum ScalarView {
    Text(Seq<char>),
    Number(Seq<char>),
    Boolean(bool),
    Null,
    Nested,
}

/// A root entry in mathematical terms: its key, `None` when the key is not a
/// string, and its value.
pub type EntryView = (Option<Seq<char>>, ScalarView);

/// What a parsed document holds at its root: `None` when the root is not a
/// table, else the entries of the root table in order.
pub type RootView = Option<Seq<EntryView>>;

pub open spec fn scalar_view(s: Scalar) -> ScalarView {
    match s {
        Scalar::Text(t) => ScalarView::Text(t@),
        Scalar::Number(n) => ScalarView::Number(n@),
        Scalar::Boolean(b) => ScalarView::Boolean(b),
        Scalar::Null => ScalarView::Null,
        Scalar::Nested => ScalarView::Nested,
    }
}

pub open spec fn entry_view(e: (Option<String>, Scalar)) -> EntryView {
    (
        match e.0 {
            Some(k) => Some(k@),
            None => None,
        },
        scalar_view(e.1),
    )
}

pub open spec fn entries_view(es: Seq<(Option<String>, Scalar)>) -> Seq<EntryView> {
    es.map_values(|e: (Option<String>, Scalar)| entry_view(e))
}

/// What a root-reading wrapper returned, in mathematical terms: `None` when
/// the text did not parse.
pub open spec fn parsed_view(r: Result<Option<Vec<(Option<String>, Scalar)>>, String>) -> Option<
    RootView,
> {
    match r {
        Err(_) => None,
        Ok(None) => Some(None),
        Ok(Some(es)) => Some(Some(entries_view(es@))),
    }
}

/// What `serde_json` parses `s` to, read at the root; `None` when `s` is not
/// valid JSON.
pub uninterp spec fn json_root_of(s: Seq<char>) -> Option<RootView>;

/// What `serde_yaml` parses `s` to, read at the root; `None` when `s` is not
/// valid YAML.
pub uninterp spec fn yaml_root_of(s: Seq<char>) -> Option<RootView>;

/// What `toml` parses the document `s` to, read at the root; `None` when `s`
/// is not a valid TOML document.
pub uninterp spec fn toml_root_of(s: Seq<char>) -> Option<RootView>;

/// Relies on `serde_json::from_str` to parse `s` and on `Number`'s `Display`
/// for the text of numbers; the result depends on `s` alone.
#[verifier::external_body]
fn json_root(s: &str) -> (r: Result<Option<Vec<(Option<String>, Scalar)>>, String>)
    ensures
        parsed_view(r) == json_root_of(s@),
{
    match serde_json::from_str::<JsonValue>(s) {
        Err(e) => Err(e.to_string()),
        Ok(JsonValue::Object(m)) => Ok(Some(m.into_iter().map(|(k, x)| (Some(k), match x {
            JsonValue::String(t) => Scalar::Text(t),
            JsonValue::Number(n) => Scalar::Number(n.to_string()),
            JsonValue::Bool(b) => Scalar::Boolean(b),
            JsonValue::Null => Scalar::Null,
            JsonValue::Array(_) | JsonValue::Object(_) => Scalar::Nested,
        })).collect())),
        Ok(_) => Ok(None),
    }
}

/// Relies on `serde_yaml::from_str` to parse `s` and on `Number`'s `Display`
/// for the text of numbers; the result depends on `s` alone.
#[verifier::external_body]
fn yaml_root(s: &str) -> (r: Result<Option<Vec<(Option<String>, Scalar)>>, String>)
    ensures
        parsed_view(r) == yaml_root_of(s@),
{
    match serde_yaml::from_str::<YamlValue>(s) {
        Err(e) => Err(e.to_string()),
        Ok(YamlValue::Mapping(m)) => Ok(Some(m.into_iter().map(|(k, x)| (match k {
            YamlValue::String(t) => Some(t),
            _ => None,
        }, match x {
            YamlValue::String(t) => Scalar::Text(t),
            YamlValue::Number(n) => Scalar::Number(n.to_string()),
            YamlValue::Bool(b) => Scalar::Boolean(b),
            YamlValue::Null => Scalar::Null,
            YamlValue::Sequence(_) | YamlValue::Mapping(_) | YamlValue::Tagged(_) => Scalar::Nested,
        })).collect())),
        Ok(_) => Ok(None),
    }
}

/// Relies on `toml::Value`'s `FromStr`, which parses a whole document, and on
/// the `Display` of integers, floats and dates for their text; the result
/// depends on `s` alone.
#[verifier::external_body]
fn toml_root(s: &str) -> (r: Result<Option<Vec<(Option<String>, Scalar)>>, String>)
    ensures
        parsed_view(r) == toml_root_of(s@),
{
    match s.parse::<TomlValue>() {
        Err(e) => Err(e.to_string()),
        Ok(TomlValue::Table(m)) => Ok(Some(m.into_iter().map(|(k, x)| (Some(k), match x {
            TomlValue::String(t) => Scalar::Text(t),
            TomlValue::Integer(i) => Scalar::Number(i.to_string()),
            TomlValue::Float(f) => Scalar::Number(f.to_string()),
            TomlValue::Boolean(b) => Scalar::Boolean(b),
            TomlValue::Datetime(d) => Scalar::Number(d.to_string()),
            TomlValue::Array(_) | TomlValue::Table(_) => Scalar::Nested,
        })).collect())),
        Ok(_) => Ok(None),
    }
}

/// What the document `s` holds at its root when parsed as `f`.
pub open spec fn root_of(f: Format, s: Seq<char>) -> Option<RootView> {
    match f {
        Format::Json => json_root_of(s),
        Format::Toml => toml_root_of(s),
        Format::Yaml => yaml_root_of(s),
    }
}

/// Appends `tail` to the text `head`.
fn joined(head: &str, tail: &String) -> (r: String)
    ensures
        r@ == head@ + tail@,
{
    let mut r = head.to_owned();
    r.append(tail.as_str());
    r
}

/// The name of a format, as messages write it.
pub open spec fn format_name(f: Format) -> Seq<char> {
    match f {
        Format::Json => "JSON"@,
        Format::Toml => "TOML"@,
        Format::Yaml => "YAML"@,
    }
}

/// The description of an error.
pub open spec fn message_of(e: ResolveError) -> Seq<char>
    decreases e,
{
    match e {
        ResolveError::UnsupportedExtension(x) => "extension de fichier non supportée: "@ + x@,
        ResolveError::UnparseableInline(last) => "impossible de parser la valeur inline en JSON/TOML/YAML: "@
            + message_of(*last),
        ResolveError::Malformed(f, d) => "parse "@ + format_name(f) + ": invalid "@ + format_name(f)
            + ": "@ + d@,
        ResolveError::RootNotTable(Format::Json) => "JSON attendu: objet map clé->valeur à la racine"@,
        ResolveError::RootNotTable(Format::Toml) => "TOML attendu: table (clé = valeur) à la racine"@,
        ResolveError::RootNotTable(Format::Yaml) => "YAML attendu: mapping (clé->valeur) à la racine"@,
        ResolveError::NonScalarValue(k) => "valeur non scalaire pour la clé: "@ + k@,
        ResolveError::NonStringKey => "clé YAML non-string"@,
    }
}

impl ResolveError {
    /// A description of the error, for people.
    pub fn message(&self) -> (r: String)
        ensures
            r@ == message_of(*self),
        decreases self,
    {
        match self {
            ResolveError::UnsupportedExtension(x) => joined(
                "extension de fichier non supportée: ",
                x,
            ),
            ResolveError::UnparseableInline(last) => {
                let inner = last.message();
                joined("impossible de parser la valeur inline en JSON/TOML/YAML: ", &inner)
            },
            ResolveError::Malformed(Format::Json, d) => {
                proof {
                    reveal_strlit("parse ");
                    reveal_strlit("JSON");
                    reveal_strlit(": invalid ");
                    reveal_strlit(": ");
                    reveal_strlit("parse JSON: invalid JSON: ");
                }
                let r = joined("parse JSON: invalid JSON: ", d);
                assert(r@ =~= message_of(*self));
                r
            },
            ResolveError::Malformed(Format::Toml, d) => {
                proof {
                    reveal_strlit("parse ");
                    reveal_strlit("TOML");
                    reveal_strlit(": invalid ");
                    reveal_strlit(": ");
                    reveal_strlit("parse TOML: invalid TOML: ");
                }
                let r = joined("parse TOML: invalid TOML: ", d);
                assert(r@ =~= message_of(*self));
                r
            },
            ResolveError::Malformed(Format::Yaml, d) => {
                proof {
                    reveal_strlit("parse ");
                    reveal_strlit("YAML");
                    reveal_strlit(": invalid ");
                    reveal_strlit(": ");
                    reveal_strlit("parse YAML: invalid YAML: ");
                }
                let r = joined("parse YAML: invalid YAML: ", d);
                assert(r@ =~= message_of(*self));
                r
            },
            ResolveError::RootNotTable(Format::Json) => "JSON attendu: objet map clé->valeur à la racine".to_owned(),
            ResolveError::RootNotTable(Format::Toml) => "TOML attendu: table (clé = valeur) à la racine".to_owned(),
            ResolveError::RootNotTable(Format::Yaml) => "YAML attendu: mapping (clé->valeur) à la racine".to_owned(),
            ResolveError::NonScalarValue(k) => joined("valeur non scalaire pour la clé: ", k),
            ResolveError::NonStringKey => "clé YAML non-string".to_owned(),
        }
    }
}

/// The text a scalar stands for; `None` for a nested value.
pub open spec fn scalar_text(s: ScalarView) -> Option<Seq<char>> {
    match s {
        ScalarView::Text(t) => Some(t),
        ScalarView::Number(n) => Some(n),
        ScalarView::Boolean(b) => Some(
            if b {
                "true"@
            } else {
                "false"@
            },
        ),
        ScalarView::Null => Some(Seq::empty()),
        ScalarView::Nested => None,
    }
}

/// Whether a root entry can become a variable.
pub open spec fn entry_ok(e: EntryView) -> bool {
    e.0 is Some && scalar_text(e.1) is Some
}

/// Whether `r` is the error that the root entry `e`, which cannot become a
/// variable, gives.
pub open spec fn entry_error(e: EntryView, r: ResolveError) -> bool {
    match e.0 {
        None => r is NonStringKey,
        Some(k) => r matches ResolveError::NonScalarValue(n) && n@ == k,
    }
}

/// The position of the first entry that cannot become a variable.
pub open spec fn first_bad(es: Seq<EntryView>) -> Option<int>
    decreases es.len(),
{
    if es.len() == 0 {
        None
    } else if !entry_ok(es[0]) {
        Some(0)
    } else {
        match first_bad(es.drop_first()) {
            Some(i) => Some(i + 1),
            None => None,
        }
    }
}

proof fn lemma_first_bad(es: Seq<EntryView>)
    ensures
        first_bad(es) is None <==> forall|j: int| 0 <= j < es.len() ==> entry_ok(#[trigger] es[j]),
        first_bad(es) matches Some(i) ==> 0 <= i < es.len() && !entry_ok(es[i]) && forall|j: int|
            0 <= j < i ==> entry_ok(#[trigger] es[j]),
    decreases es.len(),
{
    if es.len() > 0 {
        lemma_first_bad(es.drop_first());
        if entry_ok(es[0]) {
            assert forall|j: int| 1 <= j < es.len() implies #[trigger] es[j] == es.drop_first()[j
                - 1] by {}
            if first_bad(es.drop_first()) is None {
                assert forall|j: int| 0 <= j < es.len() implies entry_ok(#[trigger] es[j]) by {
                    if j > 0 {
                        assert(entry_ok(es.drop_first()[j - 1]));
                    }
                }
            } else {
                let i = first_bad(es.drop_first())->0;
                assert(!entry_ok(es.drop_first()[i]));
                assert forall|j: int| 0 <= j < i + 1 implies entry_ok(#[trigger] es[j]) by {
                    if j > 0 {
                        assert(entry_ok(es.drop_first()[j - 1]));
                    }
                }
            }
        }
    }
}

/// The variables that a sequence of good root entries denotes, later keys
/// overriding earlier ones.
pub open spec fn table_map(es: Seq<EntryView>) -> Map<Seq<char>, Seq<char>>
    decreases es.len(),
{
    if es.len() == 0 {
        Map::empty()
    } else {
        table_map(es.drop_last()).insert(es.last().0->0, scalar_text(es.last().1)->0)
    }
}

/// Whether `r` is what flattening the root entries `es` gives: the variables,
/// when every entry can become one, else the error of the first that cannot.
pub open spec fn flattens_to(es: Seq<EntryView>, r: Result<VarMap, ResolveError>) -> bool {
    match first_bad(es) {
        None => r matches Ok(m) && m@ == table_map(es),
        Some(i) => r matches Err(e) && entry_error(es[i], e),
    }
}

/// Whether `r` is what parsing a document strictly as `f` gives, where `root`
/// is what the document holds at its root in that format.
pub open spec fn strict_outcome(
    f: Format,
    root: Option<RootView>,
    r: Result<VarMap, ResolveError>,
) -> bool {
    match root {
        None => r matches Err(ResolveError::Malformed(g, _)) && g == f,
        Some(None) => r matches Err(ResolveError::RootNotTable(g)) && g == f,
        Some(Some(es)) => flattens_to(es, r),
    }
}

/// Whether `s` resolves when parsed strictly as `f`.
pub open spec fn resolves_as(f: Format, s: Seq<char>) -> bool {
    root_of(f, s) matches Some(Some(es)) && first_bad(es) is None
}

/// Whether `r` is what parsing the inline payload `s` gives: the outcome of
/// the first of JSON, TOML and YAML under which `s` resolves; when none does,
/// the YAML error inside `UnparseableInline`.
pub open spec fn inline_outcome(s: Seq<char>, r: Result<VarMap, ResolveError>) -> bool {
    if resolves_as(Format::Json, s) {
        strict_outcome(Format::Json, root_of(Format::Json, s), r)
    } else if resolves_as(Format::Toml, s) {
        strict_outcome(Format::Toml, root_of(Format::Toml, s), r)
    } else if resolves_as(Format::Yaml, s) {
        strict_outcome(Format::Yaml, root_of(Format::Yaml, s), r)
    } else {
        r matches Err(ResolveError::UnparseableInline(last)) && strict_outcome(
            Format::Yaml,
            root_of(Format::Yaml, s),
            Err(*last),
        )
    }
}

/// The text of a scalar, if it has one.
pub fn scalar_to_text(s: &Scalar) -> (r: Option<String>)
    ensures
        r is Some <==> scalar_text(scalar_view(*s)) is Some,
        r is Some ==> r->0@ == scalar_text(scalar_view(*s))->0,
{
    match s {
        Scalar::Text(t) => Some(t.clone()),
        Scalar::Number(n) => Some(n.clone()),
        Scalar::Boolean(b) => {
            if *b {
                proof {
                    reveal_strlit("true");
                }
                Some("true".to_owned())
            } else {
                proof {
                    reveal_strlit("false");
                }
                Some("false".to_owned())
            }
        },
        Scalar::Null => Some(String::new()),
        Scalar::Nested => None,
    }
}

/// Flattens the entries of a root table into variables. Succeeds exactly when
/// every key is a string and every value a scalar; otherwise fails on the first
/// entry, from the left, that is not.
pub fn table_to_map(entries: Vec<(Option<String>, Scalar)>) -> (r: Result<VarMap, ResolveError>)
    ensures
        flattens_to(entries_view(entries@), r),
{
    let ghost es = entries_view(entries@);
    proof {
        lemma_first_bad(es);
    }
    let mut m = VarMap::new();
    let mut i: usize = 0;
    assert(table_map(es.take(0)) =~= Map::<Seq<char>, Seq<char>>::empty());
    while i < entries.len()
        invariant
            i <= es.len(),
            es == entries_view(entries@),
            es.len() == entries@.len(),
            first_bad(es) is None <==> forall|j: int| 0 <= j < es.len() ==> entry_ok(#[trigger] es[j]),
            first_bad(es) matches Some(b) ==> 0 <= b < es.len() && !entry_ok(es[b]) && forall|j: int|
                0 <= j < b ==> entry_ok(#[trigger] es[j]),
            forall|j: int| 0 <= j < i ==> entry_ok(#[trigger] es[j]),
            m@ == table_map(es.take(i as int)),
        decreases es.len() - i,
    {
        let entry = &entries[i];
        assert(es[i as int] == entry_view(*entry));
        match &entry.0 {
            None => {
                proof {
                    let b = first_bad(es)->0;
                    assert(!entry_ok(es[i as int]));
                    assert(b == i as int) by {
                        if b < i {
                        } else if b > i {
                            assert(entry_ok(es[i as int]));
                        }
                    }
                }
                return Err(ResolveError::NonStringKey);
            },
            Some(k) => {
                match scalar_to_text(&entry.1) {
                    None => {
                        proof {
                            let b = first_bad(es)->0;
                            assert(!entry_ok(es[i as int]));
                            assert(b == i as int) by {
                                if b < i {
                                } else if b > i {
                                    assert(entry_ok(es[i as int]));
                                }
                            }
                        }
                        return Err(ResolveError::NonScalarValue(k.clone()));
                    },
                    Some(text) => {
                        m.insert(k.clone(), text);
                        proof {
                            assert(es.take(i + 1).drop_last() =~= es.take(i as int));
                        }
                    },
                }
            },
        }
        i += 1;
    }
    assert(es.take(i as int) =~= es);
    Ok(m)
}

/// Parses `s` strictly as the format `f` and flattens its root table.
pub fn parse_as(f: Format, s: &str) -> (r: Result<VarMap, ResolveError>)
    ensures
        strict_outcome(f, root_of(f, s@), r),
{
    let parsed = match f {
        Format::Json => json_root(s),
        Format::Toml => toml_root(s),
        Format::Yaml => yaml_root(s),
    };
    match parsed {
        Err(e) => Err(ResolveError::Malformed(f, e)),
        Ok(None) => Err(ResolveError::RootNotTable(f)),
        Ok(Some(entries)) => table_to_map(entries),
    }
}

/// Parses `s` as a JSON document and flattens its root object.
pub fn parse_json(s: &str) -> (r: Result<VarMap, ResolveError>)
    ensures
        strict_outcome(Format::Json, json_root_of(s@), r),
{
    parse_as(Format::Json, s)
}

/// Parses `s` as a YAML document and flattens its root mapping.
pub fn parse_yaml(s: &str) -> (r: Result<VarMap, ResolveError>)
    ensures
        strict_outcome(Format::Yaml, yaml_root_of(s@), r),
{
    parse_as(Format::Yaml, s)
}

/// Parses `s` as a TOML document and flattens its root table.
pub fn parse_toml(s: &str) -> (r: Result<VarMap, ResolveError>)
    ensures
        strict_outcome(Format::Toml, toml_root_of(s@), r),
{
    parse_as(Format::Toml, s)
}

/// What `str::to_lowercase` makes of a text.
pub uninterp spec fn lower_of(s: Seq<char>) -> Seq<char>;

/// Relies on `str::to_lowercase`: the result depends on the characters alone.
#[verifier::external_body]
fn lowercase(s: &String) -> (r: String)
    ensures
        r@ == lower_of(s@),
{
    s.to_lowercase()
}

/// The format that a (lower-case) file extension names.
pub open spec fn extension_format(e: Seq<char>) -> Option<Format> {
    if e == "json"@ {
        Some(Format::Json)
    } else if e == "yaml"@ || e == "yml"@ {
        Some(Format::Yaml)
    } else if e == "toml"@ {
        Some(Format::Toml)
    } else {
        None
    }
}

/// The format that the lower-case extension `ext` names, or the error for an
/// extension that names none.
pub fn format_of_extension(ext: &String) -> (r: Result<Format, ResolveError>)
    ensures
        extension_format(ext@) matches Some(f) ==> (r matches Ok(g) && g == f),
        extension_format(ext@) is None ==> (r matches Err(ResolveError::UnsupportedExtension(x))
            && x@ == ext@),
{
    proof {
        reveal_strlit("json");
        reveal_strlit("yaml");
        reveal_strlit("yml");
        reveal_strlit("toml");
    }
    if *ext == "json".to_owned() {
        Ok(Format::Json)
    } else if *ext == "yaml".to_owned() || *ext == "yml".to_owned() {
        Ok(Format::Yaml)
    } else if *ext == "toml".to_owned() {
        Ok(Format::Toml)
    } else {
        Err(ResolveError::UnsupportedExtension(ext.clone()))
    }
}

/// Parses an inline payload as JSON, else as TOML, else as YAML, keeping the
/// first that succeeds; when none does, fails with the YAML error.
pub fn parse_inline_try_all(s: &str) -> (r: Result<VarMap, ResolveError>)
    ensures
        inline_outcome(s@, r),
{
    match parse_json(s) {
        Ok(m) => Ok(m),
        Err(_) => match parse_toml(s) {
            Ok(m) => Ok(m),
            Err(_) => match parse_yaml(s) {
                Ok(m) => Ok(m),
                Err(e) => Err(ResolveError::UnparseableInline(Box::new(e))),
            },
        },
    }
}

/// A file named as a variable source, as read by the caller.
pub struct VarsFile {
    /// The file name's extension, if it has one.
    pub extension: Option<String>,
    /// The file's text.
    pub content: String,
}

/// Whether `r` is what resolving the source `arg` gives, where `file` is the
/// regular file it names, if any.
pub open spec fn source_outcome(
    arg: Seq<char>,
    file: Option<VarsFile>,
    r: Result<VarMap, ResolveError>,
) -> bool {
    match file {
        None => inline_outcome(arg, r),
        Some(f) => match f.extension {
            None => inline_outcome(f.content@, r),
            Some(x) => match extension_format(lower_of(x@)) {
                Some(g) => strict_outcome(g, root_of(g, f.content@), r),
                None => r matches Err(ResolveError::UnsupportedExtension(y)) && y@ == lower_of(
                    x@,
                ),
            },
        },
    }
}

/// Resolves a variable source. `file` is the file that `arg` names, when it
/// names a regular file. A file with an extension is parsed strictly as the
/// format the extension names (compared without case); a file without one,
/// or an `arg` that names no file, is parsed as an inline payload.
pub fn parse_vars_arg(arg: &str, file: Option<VarsFile>) -> (r: Result<VarMap, ResolveError>)
    ensures
        source_outcome(arg@, file, r),
{
    match file {
        Some(f) => match &f.extension {
            Some(x) => {
                let ext = lowercase(x);
                match format_of_extension(&ext) {
                    Ok(g) => parse_as(g, f.content.as_str()),
                    Err(e) => Err(e),
                }
            },
            None => parse_inline_try_all(f.content.as_str()),
        },
        None => parse_inline_try_all(arg),
    }
}

/// An inline payload that resolves as YAML but neither as JSON nor as TOML
/// still resolves, to the variables of its YAML root table.
pub proof fn lemma_inline_falls_back_to_yaml(s: Seq<char>, r: Result<VarMap, ResolveError>)
    requires
        inline_outcome(s, r),
        !resolves_as(Format::Json, s),
        !resolves_as(Format::Toml, s),
        resolves_as(Format::Yaml, s),
    ensures
        r matches Ok(m) && m@ == table_map(yaml_root_of(s)->0->0),
{
}

/// A document parsed as `f` whose root table holds an entry that cannot become
/// a variable (a nested value, or a key that is not a string) gives no
/// variables at all; for a nested value the error names a key.
pub proof fn lemma_non_scalar_rejected(f: Format, s: Seq<char>, r: Result<VarMap, ResolveError>, i: int)
    requires
        strict_outcome(f, root_of(f, s), r),
        root_of(f, s) matches Some(Some(es)) && 0 <= i < es.len() && !entry_ok(es[i]),
    ensures
        r is Err,
        (root_of(f, s)->0->0[i].0 is Some && forall|j: int|
            0 <= j < i ==> entry_ok(#[trigger] root_of(f, s)->0->0[j])) ==> r matches Err(
            ResolveError::NonScalarValue(_),
        ),
{
    let es = root_of(f, s)->0->0;
    lemma_first_bad(es);
    if first_bad(es) is Some {
        let b = first_bad(es)->0;
        if (es[i].0 is Some && forall|j: int| 0 <= j < i ==> entry_ok(#[trigger] es[j])) {
            if b < i {
                assert(entry_ok(es[b]));
            } else if b > i {
                assert(entry_ok(es[i]));
            }
        }
    }
}

} // verus!
