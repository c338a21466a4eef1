use sbom_policy::cyclonedx::{
    load_json_file, load_xml_file, parse_u32, Bom, BomFormat, Component, Components, License,
    LicenseChoice, Licenses,
};
use sbom_policy::error::Error;
use sbom_policy::material::{extract_cyclonedx, extract_cyclonedx_licenses};

fn component(name: &str, children: Option<Components>) -> Component {
    Component {
        component_type: "library".to_string(),
        name: name.to_string(),
        version: None,
        licenses: None,
        components: children,
    }
}

#[test]
fn cyclonedx_flattening_is_preorder() {
    let d = component("D", None);
    let c = component("C", Some(Components(vec![d])));
    let b = component("B", None);
    let a = component("A", Some(Components(vec![b, c])));
    let bom = Bom {
        bom_format: BomFormat::CycloneDX,
        spec_version: "1.4".to_string(),
        serial_number: None,
        version: 1,
        components: Some(Components(vec![a])),
    };
    let materials = extract_cyclonedx(&bom).unwrap();
    let names: Vec<&str> = materials.iter().map(|m| m.name.as_str()).collect();
    assert_eq!(names, vec!["A", "B", "C", "D"]);
}

#[test]
fn license_choice_resolution() {
    let choices = Licenses(vec![
        LicenseChoice::License(License { id: Some("MIT".to_string()), name: None }),
        LicenseChoice::License(License { id: None, name: Some("FooBar".to_string()) }),
        LicenseChoice::License(License { id: None, name: None }),
    ]);
    let out = extract_cyclonedx_licenses(&choices).unwrap();
    assert_eq!(out, vec!["MIT".to_string(), "FooBar".to_string()]);
}

#[test]
fn license_expression_resolution_yields_identifier_set() {
    let choices = Licenses(vec![LicenseChoice::Expression("MIT OR Apache-2.0".to_string())]);
    let mut out = extract_cyclonedx_licenses(&choices).unwrap();
    out.sort();
    assert_eq!(out, vec!["Apache-2.0".to_string(), "MIT".to_string()]);
}

#[test]
fn license_expression_malformed_is_an_error() {
    let choices = Licenses(vec![LicenseChoice::Expression("(MIT".to_string())]);
    let err = extract_cyclonedx_licenses(&choices).unwrap_err();
    assert!(matches!(err, Error::SpdxExpression(_)));
}

#[test]
fn cyclonedx_json_loads() {
    let data = br#"{
        "bomFormat": "CycloneDX",
        "specVersion": "1.4",
        "serialNumber": "urn:uuid:1",
        "version": 1,
        "components": [
            {"type": "library", "name": "A", "version": "1.0",
             "licenses": [{"license": {"id": "MIT"}}],
             "components": [{"type": "library", "name": "B"}]}
        ]
    }"#;
    let bom = load_json_file(data).unwrap();
    assert_eq!(bom.bom_format, BomFormat::CycloneDX);
    assert_eq!(bom.spec_version, "1.4");
    assert_eq!(bom.serial_number, Some("urn:uuid:1".to_string()));
    assert_eq!(bom.version, 1);
    let materials = extract_cyclonedx(&bom).unwrap();
    assert_eq!(materials.len(), 2);
    assert_eq!(materials[0].name, "A");
    assert_eq!(materials[0].version, Some("1.0".to_string()));
    assert_eq!(materials[0].licenses, vec!["MIT".to_string()]);
    assert_eq!(materials[1].name, "B");
    assert_eq!(materials[1].licenses.len(), 0);
}

#[test]
fn cyclonedx_json_missing_required_member_is_an_error() {
    let err = match load_json_file(br#"{"bomFormat": "CycloneDX", "version": 1}"#) {
        Err(e) => e,
        Ok(_) => panic!("expected an error"),
    };
    assert!(matches!(err, Error::SerdeJson(_)));
}

#[test]
fn cyclonedx_json_wrong_format_marker_is_an_error() {
    let err = match load_json_file(br#"{"bomFormat": "Other", "specVersion": "1.4", "version": 1}"#)
    {
        Err(e) => e,
        Ok(_) => panic!("expected an error"),
    };
    assert!(matches!(err, Error::SerdeJson(_)));
}

#[test]
fn cyclonedx_xml_loads() {
    let data = br#"<bom xmlns="http://cyclonedx.org/schema/bom/1.4" serialNumber="urn:uuid:2" version="3">
        <components>
            <component type="library"><name>A</name><version>1.0</version>
                <licenses><license><id>MIT</id></license><expression>BSD-3-Clause</expression></licenses>
            </component>
        </components>
    </bom>"#;
    let bom = load_xml_file(data).unwrap();
    assert_eq!(bom.bom_format, BomFormat::CycloneDX);
    assert_eq!(bom.serial_number, Some("urn:uuid:2".to_string()));
    assert_eq!(bom.version, 3);
    let materials = extract_cyclonedx(&bom).unwrap();
    assert_eq!(materials.len(), 1);
    assert_eq!(materials[0].name, "A");
    assert_eq!(materials[0].version, Some("1.0".to_string()));
    assert_eq!(materials[0].licenses, vec!["MIT".to_string(), "BSD-3-Clause".to_string()]);
}

#[test]
fn cyclonedx_xml_bad_version_attribute_is_an_error() {
    let data = br#"<bom xmlns="http://cyclonedx.org/schema/bom/1.4" version="abc"></bom>"#;
    let err = match load_xml_file(data) {
        Err(e) => e,
        Ok(_) => panic!("expected an error"),
    };
    assert!(matches!(err, Error::ParseInt(_)));
}

#[test]
fn cyclonedx_xml_malformed_is_an_error() {
    let err = match load_xml_file(b"<bom") {
        Err(e) => e,
        Ok(_) => panic!("expected an error"),
    };
    assert!(matches!(err, Error::Minidom(_)));
}

#[test]
fn parse_u32_matches_the_standard_reading() {
    assert_eq!(parse_u32("0"), Some(0));
    assert_eq!(parse_u32("+42"), Some(42));
    assert_eq!(parse_u32("4294967295"), Some(4294967295));
    assert_eq!(parse_u32("4294967296"), None);
    assert_eq!(parse_u32(""), None);
    assert_eq!(parse_u32("+"), None);
    assert_eq!(parse_u32("1a"), None);
    assert_eq!(parse_u32("-1"), None);
}
