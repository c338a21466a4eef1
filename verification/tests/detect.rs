use sbom_policy::cli::SourceType;
use sbom_policy::evaluate::detect_source_type;

#[test]
fn test_detect_source_type() {
    let path_tsv = "./foo/bar.tsv";
    assert_eq!(detect_source_type(&path_tsv), SourceType::Tsv);

    let path_spdx = "./foo/bar.spdx";
    assert_eq!(detect_source_type(&path_spdx), SourceType::SpdxTag);

    let path_spdx_json = "./foo/bar.spdx.json";
    assert_eq!(detect_source_type(&path_spdx_json), SourceType::SpdxJson);

    let path_spdx_yml = "./foo/bar.spdx.yml";
    assert_eq!(detect_source_type(&path_spdx_yml), SourceType::SpdxYaml);

    let path_spdx_yaml = "./foo/bar.spdx.yaml";
    assert_eq!(detect_source_type(&path_spdx_yaml), SourceType::SpdxYaml);

    let path_cdx_json = "./foo/bar.cdx.json";
    assert_eq!(detect_source_type(&path_cdx_json), SourceType::CycloneDxJson);

    let path_bom_json = "./foo/bom.json";
    assert_eq!(detect_source_type(&path_bom_json), SourceType::CycloneDxJson);

    let path_cdx_xml = "./foo/bar.cdx.xml";
    assert_eq!(detect_source_type(&path_cdx_xml), SourceType::CycloneDxXml);

    let path_bom_xml = "./foo/bom.xml";
    assert_eq!(detect_source_type(&path_bom_xml), SourceType::CycloneDxXml);
}

#[test]
fn detect_unrecognized_defaults_to_tsv() {
    assert_eq!(detect_source_type("./foo/bar.txt"), SourceType::Tsv);
    assert_eq!(detect_source_type(""), SourceType::Tsv);
}

#[test]
fn detect_bom_name_must_be_whole_component() {
    assert_eq!(detect_source_type("./foo/xbom.json"), SourceType::Tsv);
    assert_eq!(detect_source_type("bom.json"), SourceType::CycloneDxJson);
    assert_eq!(detect_source_type("bom.xml"), SourceType::CycloneDxXml);
}
