use modulus::metadata::{MetadataError, parse_metadata};

#[test]
fn parses_well_formed_metadata() {
    let text = "id = \"base\"\nname = \"Base Content\"\ndescription = \"Core capabilities\"\nversion = \"1.2.3\"\n\n[dependencies]\nzeta = \">=1.0\"\nalpha = \"^2\"\n";
    let m = parse_metadata(text).unwrap();
    assert_eq!(m.id, "base");
    assert_eq!(m.name, "Base Content");
    assert_eq!(m.description, "Core capabilities");
    assert_eq!(m.version, "1.2.3");
    // the toml table hands entries out in key order
    assert_eq!(
        m.dependencies,
        vec![
            ("alpha".to_string(), "^2".to_string()),
            ("zeta".to_string(), ">=1.0".to_string())
        ]
    );
}

#[test]
fn parses_empty_dependency_table() {
    let text = "id = \"a\"\nname = \"A\"\ndescription = \"\"\nversion = \"0.1\"\n\n[dependencies]\n";
    let m = parse_metadata(text).unwrap();
    assert!(m.dependencies.is_empty());
}

#[test]
fn tolerates_unknown_fields() {
    let text = "id = \"a\"\nname = \"A\"\ndescription = \"\"\nversion = \"0.1\"\nextra = 42\ndependencies = {}\n";
    assert!(parse_metadata(text).is_ok());
}

#[test]
fn rejects_malformed_toml() {
    let r = parse_metadata("id = ");
    assert!(matches!(r, Err(MetadataError::Syntax(_))));
}

#[test]
fn rejects_missing_field() {
    let text = "id = \"a\"\nname = \"A\"\nversion = \"0.1\"\ndependencies = {}\n";
    let r = parse_metadata(text);
    assert!(matches!(r, Err(MetadataError::MissingField(f)) if f == "description"));
}

#[test]
fn rejects_missing_dependencies() {
    let text = "id = \"a\"\nname = \"A\"\ndescription = \"\"\nversion = \"0.1\"\n";
    let r = parse_metadata(text);
    assert!(matches!(r, Err(MetadataError::MissingField(f)) if f == "dependencies"));
}

#[test]
fn rejects_non_string_field() {
    let text = "id = 7\nname = \"A\"\ndescription = \"\"\nversion = \"0.1\"\ndependencies = {}\n";
    let r = parse_metadata(text);
    assert!(matches!(r, Err(MetadataError::FieldNotAString(f)) if f == "id"));
}

#[test]
fn rejects_dependencies_that_are_not_a_table() {
    let text =
        "id = \"a\"\nname = \"A\"\ndescription = \"\"\nversion = \"0.1\"\ndependencies = \"x\"\n";
    let r = parse_metadata(text);
    assert!(matches!(r, Err(MetadataError::DependenciesNotATable)));
}

#[test]
fn rejects_non_string_dependency_constraint() {
    let text = "id = \"a\"\nname = \"A\"\ndescription = \"\"\nversion = \"0.1\"\n\n[dependencies]\nalpha = 3\n";
    let r = parse_metadata(text);
    assert!(matches!(r, Err(MetadataError::DependencyNotAString)));
}

#[test]
fn first_failing_field_in_schema_order_is_reported() {
    // both name and version are wrong; the schema checks name first
    let text = "id = \"a\"\nname = 1\ndescription = \"\"\nversion = 2\ndependencies = {}\n";
    let r = parse_metadata(text);
    assert!(matches!(r, Err(MetadataError::FieldNotAString(f)) if f == "name"));
}

#[test]
fn rejects_duplicate_dependency_keys_as_syntax() {
    // TOML forbids defining the same key twice, within nested tables too
    let text = "id = \"a\"\nname = \"A\"\ndescription = \"\"\nversion = \"0.1\"\n\n[dependencies]\nalpha = \"1\"\nalpha = \"2\"\n";
    assert!(matches!(parse_metadata(text), Err(MetadataError::Syntax(_))));
}

#[test]
fn rejects_duplicate_top_level_keys_as_syntax() {
    let text = "id = \"a\"\nid = \"b\"\nname = \"A\"\ndescription = \"\"\nversion = \"0.1\"\ndependencies = {}\n";
    assert!(matches!(parse_metadata(text), Err(MetadataError::Syntax(_))));
}
