use sbom_policy::error::Error;
use sbom_policy::material::{load_materials_tsv, Material};

#[test]
fn tsv_row_splits_licenses_and_annotations() {
    let data = b"name\tversion\tlicenses\tannotations\nx\t1.0\tMIT,Apache-2.0\ta=1,b=2\n";
    let materials = load_materials_tsv(data).unwrap();
    assert_eq!(materials.len(), 1);
    assert_eq!(materials[0].name, "x");
    assert_eq!(materials[0].version, Some("1.0".to_string()));
    assert_eq!(materials[0].licenses, vec!["MIT".to_string(), "Apache-2.0".to_string()]);
    assert_eq!(
        materials[0].annotations,
        vec![("a".to_string(), "1".to_string()), ("b".to_string(), "2".to_string())]
    );
}

#[test]
fn tsv_empty_annotations_cell_yields_empty_mapping() {
    let data = b"name\tversion\tlicenses\tannotations\nx\t1.0\tMIT\t\n";
    let materials = load_materials_tsv(data).unwrap();
    assert_eq!(materials[0].annotations.len(), 0);
}

#[test]
fn tsv_empty_licenses_cell_yields_one_empty_entry() {
    let data = b"name\tversion\tlicenses\tannotations\nx\t1.0\t\t\n";
    let materials = load_materials_tsv(data).unwrap();
    assert_eq!(materials[0].licenses, vec![String::new()]);
}

#[test]
fn tsv_annotation_is_split_once_on_the_first_equals_sign() {
    let data = b"name\tversion\tlicenses\tannotations\nx\t1.0\tMIT\ta=b=c\n";
    let materials = load_materials_tsv(data).unwrap();
    assert_eq!(materials[0].annotations, vec![("a".to_string(), "b=c".to_string())]);
}

#[test]
fn tsv_annotation_without_value_yields_empty_value() {
    let data = b"name\tversion\tlicenses\tannotations\nx\t1.0\tMIT\tkey\n";
    let materials = load_materials_tsv(data).unwrap();
    assert_eq!(materials[0].annotations, vec![("key".to_string(), String::new())]);
}

#[test]
fn tsv_comment_lines_are_skipped() {
    let data = b"name\tversion\tlicenses\tannotations\n# a comment line\nx\t1.0\tMIT\t\n";
    let materials = load_materials_tsv(data).unwrap();
    assert_eq!(materials.len(), 1);
    assert_eq!(materials[0].name, "x");
}

#[test]
fn tsv_empty_input_yields_no_materials() {
    let materials = load_materials_tsv(b"").unwrap();
    assert_eq!(materials.len(), 0);
}

#[test]
fn tsv_missing_required_column_is_an_error() {
    let data = b"name\tversion\tlicenses\nx\t1.0\tMIT\n";
    let err = load_materials_tsv(data).unwrap_err();
    assert!(matches!(err, Error::Csv(_)));
}

#[test]
fn tsv_row_width_mismatch_is_an_error() {
    let data = b"name\tversion\tlicenses\tannotations\nx\t1.0\n";
    let err = load_materials_tsv(data).unwrap_err();
    assert!(matches!(err, Error::Csv(_)));
}

#[test]
fn update_annotation_overwrites_an_existing_key() {
    let mut m = Material {
        name: "x".to_string(),
        version: None,
        licenses: Vec::new(),
        annotations: Vec::new(),
    };
    m.update_annotation("k".to_string(), "1".to_string());
    m.update_annotation("other".to_string(), "2".to_string());
    m.update_annotation("k".to_string(), "3".to_string());
    assert_eq!(
        m.annotations,
        vec![("k".to_string(), "3".to_string()), ("other".to_string(), "2".to_string())]
    );
}
