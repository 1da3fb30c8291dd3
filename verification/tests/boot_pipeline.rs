use modulus::loader::{Candidate, MetadataFile, ScriptFile, ScriptHost};
use modulus::pipeline::BootPipeline;

const METADATA: &str =
    "id = \"base\"\nname = \"Base\"\ndescription = \"\"\nversion = \"1\"\ndependencies = {}\n";

/// A host whose scripts are lines of the form `name value`.
struct LineHost;

impl ScriptHost<i64> for LineHost {
    type Unit = String;

    fn compile(&mut self, source: &str) -> Result<String, Vec<String>> {
        Ok(source.to_string())
    }

    fn run(&mut self, unit: String) -> (Vec<(String, i64)>, Option<String>) {
        let mut regs = Vec::new();
        for line in unit.lines() {
            let mut parts = line.split_whitespace();
            if let (Some(name), Some(value)) = (parts.next(), parts.next()) {
                regs.push((name.to_string(), value.parse().unwrap()));
            }
        }
        (regs, None)
    }
}

#[test]
fn pipeline_runs_three_phases_in_order() {
    let mut pipeline: BootPipeline<i64> = BootPipeline::new();
    let candidates = vec![Candidate {
        path: "mods/base".to_string(),
        file: MetadataFile::Contents(METADATA.to_string()),
    }];
    let diags = pipeline.run_discovery(&candidates);
    assert!(diags.is_empty());
    assert_eq!(pipeline.loaded_mods().mods.len(), 1);

    let scripts = vec![ScriptFile::Contents("base::input::up 1".to_string())];
    let mut host = LineHost;
    let (diags, _) = pipeline.run_load(scripts, &mut host);
    assert!(diags.is_empty());

    let id = pipeline.bind("base::input::up").unwrap();
    assert_eq!(pipeline.loaded_registry().get(id), Some(&1));
    assert_eq!(pipeline.loaded_registry().resolve(id), Some("base::input::up"));
}

#[test]
fn discovery_registers_nothing() {
    // registrations become visible only through the load phase: a pipeline
    // whose load ran no script binds nothing, however much was discovered
    let mut pipeline: BootPipeline<i64> = BootPipeline::new();
    let candidates = vec![Candidate {
        path: "mods/base".to_string(),
        file: MetadataFile::Contents(METADATA.to_string()),
    }];
    pipeline.run_discovery(&candidates);
    let mut host = LineHost;
    let (diags, _) = pipeline.run_load(vec![ScriptFile::Contents(String::new())], &mut host);
    assert!(diags.is_empty());
    assert_eq!(pipeline.bind("base::input::up"), None);
    assert!(pipeline.loaded_registry().iter().is_empty());
}

#[test]
fn bind_sees_the_full_result_of_load() {
    let mut pipeline: BootPipeline<i64> = BootPipeline::new();
    let second =
        "id = \"b\"\nname = \"B\"\ndescription = \"\"\nversion = \"2\"\ndependencies = {}\n";
    let candidates = vec![
        Candidate {
            path: "mods/base".to_string(),
            file: MetadataFile::Contents(METADATA.to_string()),
        },
        Candidate {
            path: "mods/b".to_string(),
            file: MetadataFile::Contents(second.to_string()),
        },
    ];
    pipeline.run_discovery(&candidates);
    let scripts = vec![
        ScriptFile::Contents("base::input::up 1\nbase::input::down 2".to_string()),
        ScriptFile::Contents("b::tuning::speed 30".to_string()),
    ];
    let mut host = LineHost;
    pipeline.run_load(scripts, &mut host);
    for (path, value) in [
        ("base::input::up", 1),
        ("base::input::down", 2),
        ("b::tuning::speed", 30),
    ] {
        let id = pipeline.bind(path).unwrap();
        assert_eq!(pipeline.loaded_registry().get(id), Some(&value));
    }
    // a name no package registered is absent: fatal for its consumer
    assert_eq!(pipeline.bind("base::missing"), None);
}
