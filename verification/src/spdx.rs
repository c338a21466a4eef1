use vstd::prelude::*;
use vstd::multiset::Multiset;

use crate::error::Error;
use crate::strutil::{opt_view, views_of};

verus! {

/// What the extraction reads of one SPDX package: its name, its optional
/// version, the license identifiers of its concluded-license expression,
/// and the list of all licenses found in its files.
#[derive(Debug, Clone)]
pub struct SpdxPackage {
    pub name: String,
    pub version: Option<String>,
    pub concluded: Vec<String>,
    pub from_files: Vec<String>,
}

/// The abstract content of one package: name, version, the multiset of
/// concluded license identifiers (their order is not a function of the
/// document), and the from-files list.
pub open spec fn package_matches(
    p: SpdxPackage,
    v: (Seq<char>, Option<Seq<char>>, Multiset<Seq<char>>, Seq<Seq<char>>),
) -> bool {
    &&& p.name@ == v.0
    &&& opt_view(p.version) == v.1
    &&& views_of(p.concluded@).to_multiset() == v.2
    &&& views_of(p.from_files@) == v.3
}

/// Every package of the parsed document, in document order.
pub open spec fn packages_match(
    ps: Seq<SpdxPackage>,
    vs: Seq<(Seq<char>, Option<Seq<char>>, Multiset<Seq<char>>, Seq<Seq<char>>)>,
) -> bool {
    &&& ps.len() == vs.len()
    &&& forall|i: int| 0 <= i < ps.len() ==> package_matches(#[trigger] ps[i], vs[i])
}

/// The package list that the SPDX tag-value grammar extracts from a text,
/// or `None` when the text is malformed.
pub uninterp spec fn spdx_tag_doc_of(text: Seq<char>) -> Option<
    Seq<(Seq<char>, Option<Seq<char>>, Multiset<Seq<char>>, Seq<Seq<char>>)>,
>;

/// The package list that the SPDX JSON shape denotes, or `None` when the
/// bytes are not such a document.
pub uninterp spec fn spdx_json_doc_of(data: Seq<u8>) -> Option<
    Seq<(Seq<char>, Option<Seq<char>>, Multiset<Seq<char>>, Seq<Seq<char>>)>,
>;

/// Relies on spdx_rs::parsers::spdx_from_tag_value: parses an SPDX
/// tag-value document; the result is a function of the text alone. The
/// reader aborts the process on an unknown tag name, a malformed license
/// expression, or an unknown keyword in a few tag values, so the
/// `requires` admits only texts whose tokenized tags were checked first.
#[verifier::external_body]
pub(crate) fn parse_spdx_tag(text: &str) -> (r: Result<Vec<SpdxPackage>, Error>)
    requires
        crate::tagcheck::spdx_tag_input_safe(text@),
    ensures
        match r {
            Ok(ps) => spdx_tag_doc_of(text@) matches Some(vs) && packages_match(ps@, vs),
            Err(e) => spdx_tag_doc_of(text@) is None && e is Spdx,
        },
{
    match spdx_rs::parsers::spdx_from_tag_value(text) {
        Ok(doc) => Ok(packages_of(&doc)),
        Err(e) => Err(Error::Spdx(e.to_string())),
    }
}

/// Relies on serde_json::from_slice for spdx_rs::models::SPDX: reads the
/// SPDX JSON shape; the result is a function of the bytes alone.
#[verifier::external_body]
pub(crate) fn parse_spdx_json(data: &[u8]) -> (r: Result<Vec<SpdxPackage>, Error>)
    ensures
        match r {
            Ok(ps) => spdx_json_doc_of(data@) matches Some(vs) && packages_match(ps@, vs),
            Err(e) => spdx_json_doc_of(data@) is None && e is SerdeJson,
        },
{
    match serde_json::from_slice::<spdx_rs::models::SPDX>(data) {
        Ok(doc) => Ok(packages_of(&doc)),
        Err(e) => Err(Error::SerdeJson(e.to_string())),
    }
}

/// The set of license identifiers of an SPDX license expression, or `None`
/// when the text is not a well-formed expression. Only the set is a
/// function of the text: the order in which a call hands it out is not.
pub uninterp spec fn spdx_expr_ids_of(text: Seq<char>) -> Option<Set<Seq<char>>>;

/// Relies on spdx_rs::models::SpdxExpression::parse and identifiers:
/// parses an SPDX license expression and flattens it to its identifier
/// set, enumerated in the set's own order.
#[verifier::external_body]
pub(crate) fn parse_license_expression(text: &str) -> (r: Result<Vec<String>, Error>)
    ensures
        match r {
            Ok(ids) => spdx_expr_ids_of(text@) == Some(views_of(ids@).to_set()),
            Err(e) => spdx_expr_ids_of(text@) is None && e is SpdxExpression,
        },
{
    match spdx_rs::models::SpdxExpression::parse(text) {
        Ok(e) => Ok(e.identifiers().into_iter().collect()),
        Err(e) => Err(Error::SpdxExpression(e.to_string())),
    }
}

/// The SPDX document model of spdx_rs, opaque to the verifier; it is only
/// carried from a parser into the reduction below.
#[verifier::external_type_specification]
#[verifier::external_body]
pub struct ExSpdxDocument(spdx_rs::models::SPDX);

/// Relies on the spdx_rs document model and on
/// spdx_expression::SpdxExpression::licenses: reduces each package to the
/// fields the extraction reads; the concluded identifiers come from the
/// expression's license set, in the set's iteration order.
#[verifier::external_body]
fn packages_of(doc: &spdx_rs::models::SPDX) -> Vec<SpdxPackage> {
    doc.package_information.iter().map(|pi| SpdxPackage {
        name: pi.package_name.clone(),
        version: pi.package_version.clone(),
        concluded: match &pi.concluded_license {
            Some(e) => e.licenses().iter().map(|l| l.identifier.clone()).collect(),
            None => Vec::new(),
        },
        from_files: pi.all_licenses_information_from_files.clone(),
    }).collect()
}

} // verus!
