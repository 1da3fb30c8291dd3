use modulus::loader::{
    Candidate, Fault, MetadataFile, Mods, ScriptFile, ScriptHost, ScriptOutcome, apply_outcome,
    apply_registrations, load_mods, preload_mods,
};
use modulus::registry::Registry;

const GOOD_METADATA: &str =
    "id = \"good\"\nname = \"Good\"\ndescription = \"\"\nversion = \"1.0\"\ndependencies = {}\n";

fn candidate(path: &str, file: MetadataFile) -> Candidate {
    Candidate { path: path.to_string(), file }
}

/// A host for exercising the load phase: a source starting with `!` fails
/// to compile; otherwise each line of the form `name value` becomes one
/// registration request, and a line `fault message` ends the run with a
/// runtime fault.
struct LineHost;

impl ScriptHost<i64> for LineHost {
    type Unit = String;

    fn compile(&mut self, source: &str) -> Result<String, Vec<String>> {
        if source.starts_with('!') {
            Err(vec![format!("unexpected token: {}", source)])
        } else {
            Ok(source.to_string())
        }
    }

    fn run(&mut self, unit: String) -> (Vec<(String, i64)>, Option<String>) {
        let mut regs = Vec::new();
        for line in unit.lines() {
            let mut parts = line.split_whitespace();
            match (parts.next(), parts.next()) {
                (Some("fault"), Some(msg)) => return (regs, Some(msg.to_string())),
                (Some(name), Some(value)) => regs.push((name.to_string(), value.parse().unwrap())),
                _ => {}
            }
        }
        (regs, None)
    }
}

#[test]
fn discovery_tolerates_one_malformed_candidate() {
    let mut mods = Mods::new();
    let candidates = vec![
        candidate("mods/good", MetadataFile::Contents(GOOD_METADATA.to_string())),
        candidate("mods/bad", MetadataFile::Contents("id = ".to_string())),
    ];
    let diags = preload_mods(&mut mods, &candidates);
    assert_eq!(mods.mods.len(), 1);
    assert_eq!(mods.mods[0].metadata.id, "good");
    assert_eq!(mods.mods[0].path, "mods/good");
    assert_eq!(diags.len(), 1);
    assert_eq!(diags[0].path, "mods/bad");
    assert!(matches!(
        diags[0].fault,
        Fault::MetadataInvalid(modulus::metadata::MetadataError::Syntax(_))
    ));
}

#[test]
fn discovery_skips_directories_without_metadata_silently() {
    let mut mods = Mods::new();
    let candidates = vec![
        candidate("mods/not_a_mod", MetadataFile::Missing),
        candidate("mods/good", MetadataFile::Contents(GOOD_METADATA.to_string())),
    ];
    let diags = preload_mods(&mut mods, &candidates);
    assert_eq!(mods.mods.len(), 1);
    assert!(diags.is_empty());
}

#[test]
fn discovery_reports_unreadable_metadata() {
    let mut mods = Mods::new();
    let candidates = vec![candidate(
        "mods/locked",
        MetadataFile::Unreadable("permission denied".to_string()),
    )];
    let diags = preload_mods(&mut mods, &candidates);
    assert!(mods.mods.is_empty());
    assert_eq!(diags.len(), 1);
    assert_eq!(diags[0].path, "mods/locked");
    assert!(matches!(&diags[0].fault, Fault::MetadataUnreadable(m) if m == "permission denied"));
}

#[test]
fn discovery_keeps_catalog_in_candidate_order() {
    let mut mods = Mods::new();
    let second =
        "id = \"b\"\nname = \"B\"\ndescription = \"\"\nversion = \"2\"\ndependencies = {}\n";
    let candidates = vec![
        candidate("mods/one", MetadataFile::Contents(GOOD_METADATA.to_string())),
        candidate("mods/two", MetadataFile::Contents(second.to_string())),
    ];
    let diags = preload_mods(&mut mods, &candidates);
    assert!(diags.is_empty());
    assert_eq!(mods.mods.len(), 2);
    assert_eq!(mods.mods[0].metadata.id, "good");
    assert_eq!(mods.mods[1].metadata.id, "b");
}

#[test]
fn apply_registrations_reports_refused_paths() {
    let mut reg: Registry<i64> = Registry::new();
    let requests = vec![
        ("base::a".to_string(), 1),
        ("Bad Path".to_string(), 2),
        ("base::b".to_string(), 3),
    ];
    let rejected = apply_registrations(&mut reg, requests);
    assert_eq!(rejected, vec!["Bad Path".to_string()]);
    assert_eq!(reg.get_by_path("base::a"), Some(&1));
    assert_eq!(reg.get_by_path("base::b"), Some(&3));
}

#[test]
fn outcome_with_runtime_fault_keeps_prior_registrations() {
    let mut reg: Registry<i64> = Registry::new();
    let outcome = ScriptOutcome::Ran(
        vec![("base::a".to_string(), 5)],
        Some("entry point raised".to_string()),
    );
    let diags = apply_outcome(&mut reg, "mods/faulty", outcome);
    assert_eq!(reg.get_by_path("base::a"), Some(&5));
    assert_eq!(diags.len(), 1);
    assert!(matches!(&diags[0].fault, Fault::RuntimeFault(m) if m == "entry point raised"));
}

fn two_mod_catalog() -> Mods {
    let mut mods = Mods::new();
    let second =
        "id = \"b\"\nname = \"B\"\ndescription = \"\"\nversion = \"2\"\ndependencies = {}\n";
    let candidates = vec![
        candidate("mods/first", MetadataFile::Contents(GOOD_METADATA.to_string())),
        candidate("mods/second", MetadataFile::Contents(second.to_string())),
    ];
    let diags = preload_mods(&mut mods, &candidates);
    assert!(diags.is_empty());
    mods
}

#[test]
fn load_isolates_a_compile_failure_to_its_package() {
    let mods = two_mod_catalog();
    let mut reg: Registry<i64> = Registry::new();
    let scripts = vec![
        ScriptFile::Contents("!broken".to_string()),
        ScriptFile::Contents("base::input::up 1\nbase::input::down 2".to_string()),
    ];
    let mut host = LineHost;
    let (diags, _) = load_mods(&mut reg, &mods, scripts, &mut host);
    // the second package's registrations are present; the first contributed none
    assert_eq!(reg.get_by_path("base::input::up"), Some(&1));
    assert_eq!(reg.get_by_path("base::input::down"), Some(&2));
    assert_eq!(reg.iter().len(), 2);
    assert_eq!(diags.len(), 1);
    assert_eq!(diags[0].path, "mods/first");
    assert!(matches!(&diags[0].fault, Fault::CompileFailed(ds) if ds.len() == 1));
}

#[test]
fn load_reports_missing_scripts_and_continues() {
    let mods = two_mod_catalog();
    let mut reg: Registry<i64> = Registry::new();
    let scripts = vec![
        ScriptFile::Unreadable("no such file".to_string()),
        ScriptFile::Contents("base::a 9".to_string()),
    ];
    let mut host = LineHost;
    let (diags, _) = load_mods(&mut reg, &mods, scripts, &mut host);
    assert_eq!(reg.get_by_path("base::a"), Some(&9));
    assert_eq!(diags.len(), 1);
    assert_eq!(diags[0].path, "mods/first");
    assert!(matches!(&diags[0].fault, Fault::ScriptUnavailable(m) if m == "no such file"));
}

#[test]
fn load_reports_rejected_registrations_per_package() {
    let mods = two_mod_catalog();
    let mut reg: Registry<i64> = Registry::new();
    let scripts = vec![
        ScriptFile::Contents("Bad! 1\nbase::ok 2".to_string()),
        ScriptFile::Contents("fault boom".to_string()),
    ];
    let mut host = LineHost;
    let (diags, _) = load_mods(&mut reg, &mods, scripts, &mut host);
    assert_eq!(reg.get_by_path("base::ok"), Some(&2));
    assert_eq!(diags.len(), 2);
    assert_eq!(diags[0].path, "mods/first");
    assert!(matches!(&diags[0].fault, Fault::RegistrationRejected(p) if p == "Bad!"));
    assert_eq!(diags[1].path, "mods/second");
    assert!(matches!(&diags[1].fault, Fault::RuntimeFault(m) if m == "boom"));
}
