use sbom_policy::cli::SourceType;
use sbom_policy::error::Error;
use sbom_policy::evaluate::{
    aggregate_success, evaluate_default_policy, evaluate_materials, Curator, DefaultCurator,
    DefaultPolicy, EvaluateResult, Policy,
};
use sbom_policy::material::{load_materials, Material};

fn material_with_licenses(licenses: Vec<&str>) -> Material {
    Material {
        name: "m".to_string(),
        version: None,
        licenses: licenses.into_iter().map(|s| s.to_string()).collect(),
        annotations: Vec::new(),
    }
}

#[test]
fn add_error_is_monotonic_under_later_warnings() {
    let mut outcome = EvaluateResult::new();
    assert!(outcome.success);
    outcome.add_error("broken".to_string());
    assert!(!outcome.success);
    outcome.add_warning("note".to_string());
    outcome.add_warning("another note".to_string());
    assert!(!outcome.success);
    assert_eq!(outcome.errors, vec!["broken".to_string()]);
    assert_eq!(outcome.warnings, vec!["note".to_string(), "another note".to_string()]);
}

#[test]
fn add_warning_never_changes_success() {
    let mut outcome = EvaluateResult::new();
    outcome.add_warning("note".to_string());
    assert!(outcome.success);
}

#[test]
fn aggregate_of_empty_sequence_is_success() {
    assert!(aggregate_success(&Vec::new()));
}

#[test]
fn aggregate_with_one_failure_fails() {
    let good = EvaluateResult::new();
    let mut bad = EvaluateResult::new();
    bad.add_error("broken".to_string());
    let all = vec![good.clone(), bad, good];
    assert!(!aggregate_success(&all));
}

#[test]
fn default_policy_rejects_licenses_outside_the_allowed_set() {
    let outcome = evaluate_default_policy(&material_with_licenses(vec!["GPL-3.0"]));
    assert!(!outcome.success);
    assert_eq!(outcome.errors, vec!["GPL-3.0 is not allowed".to_string()]);
    assert_eq!(outcome.warnings.len(), 0);
}

#[test]
fn default_policy_accepts_the_allowed_set() {
    let outcome = evaluate_default_policy(&material_with_licenses(vec![
        "Apache-2.0",
        "MIT",
        "BSD-3-Clause",
        "Unlicense",
    ]));
    assert!(outcome.success);
    assert_eq!(outcome.errors.len(), 0);
}

#[test]
fn end_to_end_tsv_with_default_hooks() {
    let data = b"name\tversion\tlicenses\tannotations\nx\t1.0\tGPL-3.0\t\n";
    let materials = load_materials(data, &SourceType::Tsv).unwrap();
    let (results, success) =
        evaluate_materials(materials, &DefaultCurator, &DefaultPolicy).unwrap();
    assert!(!success);
    assert_eq!(results.len(), 1);
    assert_eq!(results[0].material.name, "x");
    assert!(!results[0].result.success);
    assert_eq!(results[0].result.errors, vec!["GPL-3.0 is not allowed".to_string()]);
    assert_eq!(results[0].result.warnings.len(), 0);
}

struct RenamingCurator;

impl Curator for RenamingCurator {
    fn curate(&self, m: Material) -> Result<Material, Error> {
        let mut curated = m;
        curated.name = "renamed".to_string();
        curated.update_annotation("seen".to_string(), "yes".to_string());
        Ok(curated)
    }
}

#[test]
fn curation_runs_before_the_policy_sees_the_material() {
    let data = b"name\tversion\tlicenses\tannotations\nx\t1.0\tMIT\t\n";
    let materials = load_materials(data, &SourceType::Tsv).unwrap();
    let (results, success) =
        evaluate_materials(materials, &RenamingCurator, &DefaultPolicy).unwrap();
    assert!(success);
    assert_eq!(results[0].material.name, "renamed");
    assert_eq!(
        results[0].material.annotations,
        vec![("seen".to_string(), "yes".to_string())]
    );
}

struct FailingPolicy;

impl Policy for FailingPolicy {
    fn evaluate(&self, _m: &Material) -> Result<EvaluateResult, Error> {
        Err(Error::Engine("the policy hook raised".to_string()))
    }
}

#[test]
fn a_hook_failure_aborts_the_whole_run() {
    let data = b"name\tversion\tlicenses\tannotations\nx\t1.0\tMIT\t\n";
    let materials = load_materials(data, &SourceType::Tsv).unwrap();
    let err = evaluate_materials(materials, &DefaultCurator, &FailingPolicy).unwrap_err();
    assert!(matches!(err, Error::Engine(_)));
}

#[test]
fn load_materials_dispatches_yaml_like_json() {
    let err = load_materials(b"{ not json", &SourceType::SpdxYaml).unwrap_err();
    assert!(matches!(err, Error::SerdeJson(_)));
}
