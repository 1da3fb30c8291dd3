//! Package metadata: the fixed schema (`id`, `name`, `description`,
//! `version`, and a `dependencies` table of name → version-constraint
//! pairs), read out of a TOML document. The TOML grammar itself is the toml
//! crate's work, behind one trusted wrapper; the schema checks are
//! verified.

use vstd::prelude::*;

verus! {

/// One top-level entry of a parsed TOML document, reduced to what the
/// metadata schema reads: a string, a table of entries (each entry's value
/// kept only when it is itself a string), or any other kind of value.
#[derive(Debug)]
pub enum TomlItem {
    Str(String),
    Table(Vec<(String, Option<String>)>),
    Other,
}

/// Spec-level image of a `TomlItem`.
pub ghost enum ItemView {
    Str(Seq<char>),
    Table(Seq<(Seq<char>, Option<Seq<char>>)>),
    Other,
}

/// Spec-level image of a table's entries.
pub open spec fn table_view(t: Seq<(String, Option<String>)>) -> Seq<
    (Seq<char>, Option<Seq<char>>),
> {
    t.map_values(
        |e: (String, Option<String>)|
            (
                e.0@,
                match e.1 {
                    Some(s) => Some(s@),
                    None => None,
                },
            ),
    )
}

impl View for TomlItem {
    type V = ItemView;

    open spec fn view(&self) -> ItemView {
        match self {
            TomlItem::Str(s) => ItemView::Str(s@),
            TomlItem::Table(t) => ItemView::Table(table_view(t@)),
            TomlItem::Other => ItemView::Other,
        }
    }
}

/// Spec-level image of a whole parsed document.
pub open spec fn doc_view(doc: Seq<(String, TomlItem)>) -> Seq<(Seq<char>, ItemView)> {
    doc.map_values(|e: (String, TomlItem)| (e.0@, e.1@))
}

/// No two top-level entries share a key.
pub open spec fn distinct_keys(doc: Seq<(Seq<char>, ItemView)>) -> bool {
    forall|i: int, j: int| 0 <= i < j < doc.len() ==> doc[i].0 != doc[j].0
}

/// Within a table-valued entry, no two rows share a key.
pub open spec fn item_distinct_keys(it: ItemView) -> bool {
    match it {
        ItemView::Table(es) => forall|i: int, j: int| 0 <= i < j < es.len() ==> es[i].0 != es[j].0,
        _ => true,
    }
}

/// Every table-valued entry of `doc` has distinct keys of its own.
pub open spec fn doc_tables_distinct(doc: Seq<(Seq<char>, ItemView)>) -> bool {
    forall|k: int| 0 <= k < doc.len() ==> item_distinct_keys((#[trigger] doc[k]).1)
}

/// The top-level entries of the TOML document written as `text`, or `None`
/// when `text` is not well-formed TOML. The TOML grammar takes pages to
/// state, so the mapping is named, not defined; it is a function of the
/// text alone.
pub uninterp spec fn toml_document(text: Seq<char>) -> Option<Seq<(Seq<char>, ItemView)>>;

/// Relies on the toml crate: `str::parse::<toml::Table>` parses the
/// document (returning its error's rendering on malformed text), the
/// table's `iter` hands the entries out in a deterministic order, and
/// `Value::as_str` singles string values out; each entry is converted to a
/// plain `TomlItem`. TOML forbids defining the same key twice, so the
/// entries of a parsed table have distinct keys — at the top level and
/// within each nested table, both being maps in the crate's source.
#[verifier::external_body]
fn parse_toml(text: &str) -> (r: Result<Vec<(String, TomlItem)>, String>)
    ensures
        match r {
            Ok(doc) => {
                &&& toml_document(text@) == Some(doc_view(doc@))
                &&& distinct_keys(doc_view(doc@))
                &&& doc_tables_distinct(doc_view(doc@))
            },
            Err(_) => toml_document(text@) is None,
        },
{
    match text.parse::<toml::Table>() {
        Ok(table) => Ok(table.iter().map(|(k, v)| (k.clone(), match v {
            toml::Value::String(s) => TomlItem::Str(s.clone()),
            toml::Value::Table(t) => TomlItem::Table(
                t.iter().map(|(dk, dv)| (dk.clone(), dv.as_str().map(|s| s.to_owned()))).collect(),
            ),
            _ => TomlItem::Other,
        })).collect()),
        Err(e) => Err(e.to_string()),
    }
}

/// Identity and dependency declarations of one package, as read from its
/// metadata file.
#[derive(Debug)]
pub struct ModMetadata {
    pub id: String,
    pub name: String,
    pub description: String,
    pub version: String,
    /// Dependency package name → version-constraint string. Inert metadata
    /// in this design: no ordering or constraint solving is derived from it.
    pub dependencies: Vec<(String, String)>,
}

/// Spec-level image of `ModMetadata`.
pub ghost struct MetadataView {
    pub id: Seq<char>,
    pub name: Seq<char>,
    pub description: Seq<char>,
    pub version: Seq<char>,
    pub dependencies: Seq<(Seq<char>, Seq<char>)>,
}

/// Spec-level image of a dependency list.
pub open spec fn deps_view(d: Seq<(String, String)>) -> Seq<(Seq<char>, Seq<char>)> {
    d.map_values(|e: (String, String)| (e.0@, e.1@))
}

/// No two dependencies carry the same package name.
pub open spec fn distinct_names(deps: Seq<(Seq<char>, Seq<char>)>) -> bool {
    forall|i: int, j: int| 0 <= i < j < deps.len() ==> deps[i].0 != deps[j].0
}

impl View for ModMetadata {
    type V = MetadataView;

    open spec fn view(&self) -> MetadataView {
        MetadataView {
            id: self.id@,
            name: self.name@,
            description: self.description@,
            version: self.version@,
            dependencies: deps_view(self.dependencies@),
        }
    }
}

/// Why a metadata text was rejected.
#[derive(Debug)]
pub enum MetadataError {
    /// Not well-formed TOML; carries the parser's message.
    Syntax(String),
    /// A required field is absent; carries the field name.
    MissingField(String),
    /// A required field is present but is not a string; carries the field
    /// name.
    FieldNotAString(String),
    /// The `dependencies` field is present but is not a table.
    DependenciesNotATable,
    /// Some dependency's version constraint is not a string.
    DependencyNotAString,
}

/// Spec-level image of `MetadataError`.
pub ghost enum MetadataErrorView {
    Syntax(Seq<char>),
    MissingField(Seq<char>),
    FieldNotAString(Seq<char>),
    DependenciesNotATable,
    DependencyNotAString,
}

impl View for MetadataError {
    type V = MetadataErrorView;

    open spec fn view(&self) -> MetadataErrorView {
        match self {
            MetadataError::Syntax(s) => MetadataErrorView::Syntax(s@),
            MetadataError::MissingField(s) => MetadataErrorView::MissingField(s@),
            MetadataError::FieldNotAString(s) => MetadataErrorView::FieldNotAString(s@),
            MetadataError::DependenciesNotATable => MetadataErrorView::DependenciesNotATable,
            MetadataError::DependencyNotAString => MetadataErrorView::DependencyNotAString,
        }
    }
}

/// Whether some top-level entry of `doc` has key `key`.
pub open spec fn doc_has_key(doc: Seq<(Seq<char>, ItemView)>, key: Seq<char>) -> bool {
    exists|i: int| 0 <= i < doc.len() && (#[trigger] doc[i]).0 == key
}

/// The item stored under `key`; meaningful when `doc_has_key` holds and the
/// keys are distinct.
pub open spec fn doc_item(doc: Seq<(Seq<char>, ItemView)>, key: Seq<char>) -> ItemView {
    doc[choose|i: int| 0 <= i < doc.len() && (#[trigger] doc[i]).0 == key].1
}

/// The string value required under `key`: missing and non-string fields
/// are schema errors.
pub open spec fn spec_str_field(doc: Seq<(Seq<char>, ItemView)>, key: Seq<char>) -> Result<
    Seq<char>,
    MetadataErrorView,
> {
    if !doc_has_key(doc, key) {
        Err(MetadataErrorView::MissingField(key))
    } else {
        match doc_item(doc, key) {
            ItemView::Str(s) => Ok(s),
            _ => Err(MetadataErrorView::FieldNotAString(key)),
        }
    }
}

/// Every dependency entry carries a string constraint.
pub open spec fn spec_deps_ok(entries: Seq<(Seq<char>, Option<Seq<char>>)>) -> bool {
    forall|i: int| 0 <= i < entries.len() ==> (#[trigger] entries[i]).1 is Some
}

/// The dependency pairs, once every entry is known to carry a string.
pub open spec fn spec_deps_value(entries: Seq<(Seq<char>, Option<Seq<char>>)>) -> Seq<
    (Seq<char>, Seq<char>),
> {
    entries.map_values(|e: (Seq<char>, Option<Seq<char>>)| (e.0, e.1->0))
}

/// The dependency map required under `dependencies`: it must be a table
/// and every constraint in it must be a string.
pub open spec fn spec_deps_field(doc: Seq<(Seq<char>, ItemView)>) -> Result<
    Seq<(Seq<char>, Seq<char>)>,
    MetadataErrorView,
> {
    if !doc_has_key(doc, "dependencies"@) {
        Err(MetadataErrorView::MissingField("dependencies"@))
    } else {
        match doc_item(doc, "dependencies"@) {
            ItemView::Table(entries) => if spec_deps_ok(entries) {
                Ok(spec_deps_value(entries))
            } else {
                Err(MetadataErrorView::DependencyNotAString)
            },
            _ => Err(MetadataErrorView::DependenciesNotATable),
        }
    }
}

/// The metadata schema over a parsed document: the four string fields are
/// checked in order (`id`, `name`, `description`, `version`), then the
/// dependency table; the first failing check is the error reported.
pub open spec fn spec_extract_metadata(doc: Seq<(Seq<char>, ItemView)>) -> Result<
    MetadataView,
    MetadataErrorView,
> {
    match spec_str_field(doc, "id"@) {
        Err(e) => Err(e),
        Ok(id) => match spec_str_field(doc, "name"@) {
            Err(e) => Err(e),
            Ok(name) => match spec_str_field(doc, "description"@) {
                Err(e) => Err(e),
                Ok(description) => match spec_str_field(doc, "version"@) {
                    Err(e) => Err(e),
                    Ok(version) => match spec_deps_field(doc) {
                        Err(e) => Err(e),
                        Ok(dependencies) => Ok(
                            MetadataView { id, name, description, version, dependencies },
                        ),
                    },
                },
            },
        },
    }
}

/// What `parse_metadata` returns for `text`: a schema check over the
/// parsed document, or a syntax error when `text` is not TOML.
pub open spec fn spec_parse_metadata_ok(text: Seq<char>) -> bool {
    match toml_document(text) {
        None => false,
        Some(doc) => spec_extract_metadata(doc) is Ok,
    }
}

/// First entry of `doc` whose key is `key`, if any.
fn find_item<'a>(doc: &'a Vec<(String, TomlItem)>, key: &str) -> (r: Option<&'a TomlItem>)
    requires
        distinct_keys(doc_view(doc@)),
    ensures
        match r {
            Some(item) => doc_has_key(doc_view(doc@), key@) && item@ == doc_item(
                doc_view(doc@),
                key@,
            ),
            None => !doc_has_key(doc_view(doc@), key@),
        },
{
    let owned: String = key.to_owned();
    let n = doc.len();
    let mut i: usize = 0;
    while i < n
        invariant
            i <= n,
            n == doc@.len(),
            owned@ == key@,
            distinct_keys(doc_view(doc@)),
            forall|j: int| 0 <= j < i ==> (#[trigger] doc_view(doc@)[j]).0 != key@,
        decreases n - i,
    {
        proof {
            assert(doc_view(doc@)[i as int].0 == doc@[i as int].0@);
        }
        if owned.eq(&doc[i].0) {
            proof {
                let dv = doc_view(doc@);
                assert(dv[i as int].0 == key@);
                let j = choose|j: int| 0 <= j < dv.len() && (#[trigger] dv[j]).0 == key@;
                assert(dv[j].0 == key@);
                assert(j == i as int);
                assert(doc@[i as int].1@ == dv[i as int].1);
            }
            return Some(&doc[i].1);
        }
        i = i + 1;
    }
    None
}

/// The string field stored under `key`, or the schema error for it.
fn get_string_field(doc: &Vec<(String, TomlItem)>, key: &str) -> (r: Result<String, MetadataError>)
    requires
        distinct_keys(doc_view(doc@)),
    ensures
        match r {
            Ok(s) => spec_str_field(doc_view(doc@), key@) == Ok::<_, MetadataErrorView>(s@),
            Err(e) => spec_str_field(doc_view(doc@), key@) == Err::<Seq<char>, _>(e@),
        },
{
    match find_item(doc, key) {
        None => Err(MetadataError::MissingField(key.to_owned())),
        Some(item) => match item {
            TomlItem::Str(s) => Ok(s.clone()),
            _ => Err(MetadataError::FieldNotAString(key.to_owned())),
        },
    }
}

/// Converts a dependency table's entries, rejecting any whose constraint
/// is not a string.
fn convert_deps(entries: &Vec<(String, Option<String>)>) -> (r: Result<
    Vec<(String, String)>,
    MetadataError,
>)
    ensures
        match r {
            Ok(v) => spec_deps_ok(table_view(entries@)) && deps_view(v@) == spec_deps_value(
                table_view(entries@),
            ),
            Err(e) => !spec_deps_ok(table_view(entries@)) && e@
                == MetadataErrorView::DependencyNotAString,
        },
{
    let ghost ev = table_view(entries@);
    let mut out: Vec<(String, String)> = Vec::new();
    let n = entries.len();
    let mut i: usize = 0;
    while i < n
        invariant
            i <= n,
            n == entries@.len(),
            ev == table_view(entries@),
            out@.len() == i,
            forall|j: int| 0 <= j < i ==> (#[trigger] ev[j]).1 is Some,
            forall|j: int|
                0 <= j < i ==> #[trigger] deps_view(out@)[j] == (ev[j].0, ev[j].1->0),
        decreases n - i,
    {
        proof {
            assert(ev[i as int] == (entries@[i as int].0@,
            match entries@[i as int].1 {
                Some(s) => Some(s@),
                None => None,
            }));
        }
        let entry = &entries[i];
        match &entry.1 {
            Some(s) => {
                let ghost out0 = out@;
                out.push((entry.0.clone(), s.clone()));
                proof {
                    assert(deps_view(out@)[i as int] == (out@[i as int].0@, out@[i as int].1@));
                    assert(deps_view(out@)[i as int] == (ev[i as int].0, ev[i as int].1->0));
                    assert forall|j: int|
                        0 <= j < i implies #[trigger] deps_view(out@)[j] == (
                        ev[j].0,
                        ev[j].1->0,
                    ) by {
                        assert(out@[j] == out0[j]);
                        assert(deps_view(out@)[j] == (out@[j].0@, out@[j].1@));
                        assert(deps_view(out0)[j] == (out0[j].0@, out0[j].1@));
                    }
                }
            },
            None => {
                return Err(MetadataError::DependencyNotAString);
            },
        }
        i = i + 1;
    }
    proof {
        assert(deps_view(out@) =~= spec_deps_value(ev));
    }
    Ok(out)
}

/// Checks a parsed document against the metadata schema. A document whose
/// tables are maps (as every parsed TOML document is) yields a dependency
/// list with no repeated package name.
pub fn extract_metadata(doc: &Vec<(String, TomlItem)>) -> (r: Result<ModMetadata, MetadataError>)
    requires
        distinct_keys(doc_view(doc@)),
        doc_tables_distinct(doc_view(doc@)),
    ensures
        match r {
            Ok(m) => spec_extract_metadata(doc_view(doc@)) == Ok::<_, MetadataErrorView>(m@),
            Err(e) => spec_extract_metadata(doc_view(doc@)) == Err::<MetadataView, _>(e@),
        },
        r matches Ok(m) ==> distinct_names(m@.dependencies),
{
    let id = match get_string_field(doc, "id") {
        Ok(s) => s,
        Err(e) => {
            return Err(e);
        },
    };
    let name = match get_string_field(doc, "name") {
        Ok(s) => s,
        Err(e) => {
            return Err(e);
        },
    };
    let description = match get_string_field(doc, "description") {
        Ok(s) => s,
        Err(e) => {
            return Err(e);
        },
    };
    let version = match get_string_field(doc, "version") {
        Ok(s) => s,
        Err(e) => {
            return Err(e);
        },
    };
    let dependencies = match find_item(doc, "dependencies") {
        None => {
            return Err(MetadataError::MissingField(String::from_str("dependencies")));
        },
        Some(item) => match item {
            TomlItem::Table(entries) => match convert_deps(entries) {
                Ok(v) => {
                    proof {
                        let dv = doc_view(doc@);
                        let ev = table_view(entries@);
                        let ci = choose|i: int|
                            0 <= i < dv.len() && (#[trigger] dv[i]).0 == "dependencies"@;
                        assert(item_distinct_keys(dv[ci].1));
                        assert(dv[ci].1 == ItemView::Table(ev));
                        assert forall|i: int, j: int|
                            0 <= i < j < deps_view(v@).len() implies deps_view(v@)[i].0
                            != deps_view(v@)[j].0 by {
                            assert(deps_view(v@)[i] == (ev[i].0, ev[i].1->0));
                            assert(deps_view(v@)[j] == (ev[j].0, ev[j].1->0));
                            assert(ev[i].0 != ev[j].0);
                        }
                        assert(distinct_names(deps_view(v@)));
                    }
                    v
                },
                Err(e) => {
                    return Err(e);
                },
            },
            _ => {
                return Err(MetadataError::DependenciesNotATable);
            },
        },
    };
    Ok(ModMetadata { id, name, description, version, dependencies })
}

/// Parses one metadata text: TOML syntax first (the toml crate's work),
/// then the fixed schema (verified).
pub fn parse_metadata(text: &str) -> (r: Result<ModMetadata, MetadataError>)
    ensures
        match toml_document(text@) {
            None => match r {
                Ok(_) => false,
                Err(e) => e@ is Syntax,
            },
            Some(doc) => match r {
                Ok(m) => spec_extract_metadata(doc) == Ok::<_, MetadataErrorView>(m@),
                Err(e) => spec_extract_metadata(doc) == Err::<MetadataView, _>(e@),
            },
        },
        r is Ok == spec_parse_metadata_ok(text@),
        r matches Ok(m) ==> distinct_names(m@.dependencies),
{
    match parse_toml(text) {
        Err(msg) => Err(MetadataError::Syntax(msg)),
        Ok(doc) => extract_metadata(&doc),
    }
}

} // verus!
