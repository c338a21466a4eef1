use sbom_policy::error::Error;
use sbom_policy::material::{extract_spdx, load_materials_spdx_json, load_materials_spdx_tag};
use sbom_policy::spdx::SpdxPackage;

fn package(concluded: Vec<&str>, from_files: Vec<&str>) -> SpdxPackage {
    SpdxPackage {
        name: "pkg".to_string(),
        version: Some("1.0".to_string()),
        concluded: concluded.into_iter().map(|s| s.to_string()).collect(),
        from_files: from_files.into_iter().map(|s| s.to_string()).collect(),
    }
}

#[test]
fn spdx_concluded_none_takes_from_files() {
    let packages = vec![package(vec!["NONE"], vec!["MIT", "Apache-2.0"])];
    let materials = extract_spdx(&packages);
    assert_eq!(materials[0].licenses, vec!["MIT".to_string(), "Apache-2.0".to_string()]);
}

#[test]
fn spdx_concluded_empty_yields_empty() {
    let packages = vec![package(vec![], vec!["MIT"])];
    let materials = extract_spdx(&packages);
    assert_eq!(materials[0].licenses.len(), 0);
}

#[test]
fn spdx_concluded_nonempty_is_discarded_for_from_files() {
    let packages = vec![package(vec!["MIT"], vec!["BSD-3-Clause"])];
    let materials = extract_spdx(&packages);
    assert_eq!(materials[0].licenses, vec!["BSD-3-Clause".to_string()]);
}

#[test]
fn spdx_package_name_and_version_carry_over() {
    let packages = vec![package(vec![], vec![])];
    let materials = extract_spdx(&packages);
    assert_eq!(materials[0].name, "pkg");
    assert_eq!(materials[0].version, Some("1.0".to_string()));
    assert_eq!(materials[0].annotations.len(), 0);
}

#[test]
fn spdx_json_document_loads() {
    let data = br#"{
        "spdxVersion": "SPDX-2.2",
        "dataLicense": "CC0-1.0",
        "SPDXID": "SPDXRef-DOCUMENT",
        "name": "doc",
        "documentNamespace": "http://example.com/doc",
        "creationInfo": {"creators": ["Tool: t"], "created": "2020-01-01T00:00:00Z"},
        "packages": [{
            "name": "pkg",
            "SPDXID": "SPDXRef-1",
            "downloadLocation": "NOASSERTION",
            "versionInfo": "2.0",
            "licenseConcluded": "MIT",
            "licenseInfoFromFiles": ["BSD-3-Clause"]
        }]
    }"#;
    let materials = load_materials_spdx_json(data).unwrap();
    assert_eq!(materials.len(), 1);
    assert_eq!(materials[0].name, "pkg");
    assert_eq!(materials[0].version, Some("2.0".to_string()));
    assert_eq!(materials[0].licenses, vec!["BSD-3-Clause".to_string()]);
}

#[test]
fn spdx_tag_value_document_loads() {
    let data = b"SPDXVersion: SPDX-2.2\n\
DataLicense: CC0-1.0\n\
SPDXID: SPDXRef-DOCUMENT\n\
DocumentName: doc\n\
DocumentNamespace: http://example.com/doc\n\
Creator: Tool: t\n\
Created: 2020-01-01T00:00:00Z\n\
PackageName: pkg\n\
SPDXID: SPDXRef-1\n\
PackageDownloadLocation: NOASSERTION\n\
PackageVersion: 2.0\n\
PackageLicenseConcluded: MIT\n\
PackageLicenseInfoFromFiles: BSD-3-Clause\n";
    let materials = load_materials_spdx_tag(data).unwrap();
    assert_eq!(materials.len(), 1);
    assert_eq!(materials[0].name, "pkg");
    assert_eq!(materials[0].version, Some("2.0".to_string()));
    assert_eq!(materials[0].licenses, vec!["BSD-3-Clause".to_string()]);
}

#[test]
fn spdx_tag_relationship_lines_are_accepted() {
    let data = b"SPDXVersion: SPDX-2.2\n\
DataLicense: CC0-1.0\n\
SPDXID: SPDXRef-DOCUMENT\n\
DocumentName: doc\n\
DocumentNamespace: http://example.com/doc\n\
Creator: Tool: t\n\
Created: 2020-01-01T00:00:00Z\n\
PackageName: pkg\n\
SPDXID: SPDXRef-1\n\
PackageDownloadLocation: NOASSERTION\n\
PackageLicenseInfoFromFiles: MIT\n\
Relationship: SPDXRef-DOCUMENT DESCRIBES SPDXRef-1\n";
    let materials = load_materials_spdx_tag(data).unwrap();
    assert_eq!(materials.len(), 1);
    assert_eq!(materials[0].name, "pkg");
}

#[test]
fn spdx_tag_malformed_concluded_expression_is_an_error() {
    let data = b"SPDXVersion: SPDX-2.2\n\
PackageName: pkg\n\
SPDXID: SPDXRef-1\n\
PackageDownloadLocation: NOASSERTION\n\
PackageLicenseConcluded: (MIT\n";
    let err = load_materials_spdx_tag(data).unwrap_err();
    assert!(matches!(err, Error::Spdx(_)));
}

#[test]
fn spdx_tag_unknown_tag_is_an_error() {
    let err = load_materials_spdx_tag(b"Foo: bar\n").unwrap_err();
    assert!(matches!(err, Error::Spdx(_)));
}

#[test]
fn spdx_json_malformed_is_an_error() {
    let err = load_materials_spdx_json(b"{ not json").unwrap_err();
    assert!(matches!(err, Error::SerdeJson(_)));
}

#[test]
fn spdx_tag_malformed_is_an_error() {
    let err = load_materials_spdx_tag(b"SPDXVersion: SPDX-2.2\nCreated: garbage\n").unwrap_err();
    assert!(matches!(err, Error::Spdx(_)));
}

#[test]
fn spdx_tag_invalid_utf8_is_an_io_error() {
    let err = load_materials_spdx_tag(&[0xff, 0xfe, 0x00]).unwrap_err();
    assert!(matches!(err, Error::Io(_)));
}
