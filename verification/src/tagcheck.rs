use vstd::prelude::*;
use vstd::string::StrSliceExecFns;

use crate::spdx::{parse_license_expression, spdx_expr_ids_of};
use crate::strutil::str_eq;

verus! {

/// A character the tag-value reader's whitespace skipper consumes: the
/// four ASCII whitespace characters.
pub open spec fn is_sp(c: char) -> bool {
    c == ' ' || c == '\t' || c == '\r' || c == '\n'
}

/// An ASCII alphanumeric character: a tag name is a run of these.
pub open spec fn is_alnum(c: char) -> bool {
    ('a' <= c && c <= 'z') || ('A' <= c && c <= 'Z') || ('0' <= c && c <= '9')
}

/// A line break character.
pub open spec fn is_line_break(c: char) -> bool {
    c == '\n' || c == '\r'
}

/// A Unicode whitespace character: the boundary the reader's
/// token-splitting uses inside relationship and reference values.
pub open spec fn is_uws(c: char) -> bool {
    ||| is_sp(c)
    ||| c == '\u{b}'
    ||| c == '\u{c}'
    ||| c == '\u{85}'
    ||| c == '\u{a0}'
    ||| c == '\u{1680}'
    ||| ('\u{2000}' <= c && c <= '\u{200a}')
    ||| c == '\u{2028}'
    ||| c == '\u{2029}'
    ||| c == '\u{202f}'
    ||| c == '\u{205f}'
    ||| c == '\u{3000}'
}

/// A character of a document-reference identifier.
pub open spec fn is_idchar(c: char) -> bool {
    is_alnum(c) || c == '.' || c == '-' || c == '+'
}

/// The first position at or after `i` whose character is not ASCII
/// whitespace.
pub open spec fn skip_sp_end(t: Seq<char>, i: int) -> int
    decreases t.len() - i when 0 <= i <= t.len()
{
    if i < t.len() && is_sp(t[i]) {
        skip_sp_end(t, i + 1)
    } else {
        i
    }
}

/// The end of the alphanumeric run starting at `i`.
pub open spec fn alnum_end(t: Seq<char>, i: int) -> int
    decreases t.len() - i when 0 <= i <= t.len()
{
    if i < t.len() && is_alnum(t[i]) {
        alnum_end(t, i + 1)
    } else {
        i
    }
}

/// The position of the line break at or after `i`, or the end.
pub open spec fn line_end(t: Seq<char>, i: int) -> int
    decreases t.len() - i when 0 <= i <= t.len()
{
    if i < t.len() && !is_line_break(t[i]) {
        line_end(t, i + 1)
    } else {
        i
    }
}

/// The end of the non-whitespace token starting at `i`.
pub open spec fn nonuws_end(t: Seq<char>, i: int) -> int
    decreases t.len() - i when 0 <= i <= t.len()
{
    if i < t.len() && !is_uws(t[i]) {
        nonuws_end(t, i + 1)
    } else {
        i
    }
}

/// The end of the identifier run starting at `i`.
pub open spec fn id_end(t: Seq<char>, i: int) -> int
    decreases t.len() - i when 0 <= i <= t.len()
{
    if i < t.len() && is_idchar(t[i]) {
        id_end(t, i + 1)
    } else {
        i
    }
}

/// `pat` occurs in `t` at position `i`.
pub open spec fn starts_with_at(t: Seq<char>, i: int, pat: Seq<char>) -> bool {
    0 <= i && i + pat.len() <= t.len() && t.subrange(i, i + pat.len()) == pat
}

/// The first position at or after `i` where `pat` occurs.
pub open spec fn find_from(t: Seq<char>, i: int, pat: Seq<char>) -> Option<int>
    decreases t.len() + 1 - i when 0 <= i
{
    if i + pat.len() > t.len() {
        None
    } else if t.subrange(i, i + pat.len()) == pat {
        Some(i)
    } else {
        find_from(t, i + 1, pat)
    }
}

/// The first position at or after `i` holding the character `ch`.
pub open spec fn char_find(t: Seq<char>, i: int, ch: char) -> Option<int>
    decreases t.len() - i when 0 <= i
{
    if i >= t.len() {
        None
    } else if t[i] == ch {
        Some(i)
    } else {
        char_find(t, i + 1, ch)
    }
}

proof fn lemma_skip_sp_bounds(t: Seq<char>, i: int)
    requires
        0 <= i <= t.len(),
    ensures
        i <= skip_sp_end(t, i) <= t.len(),
    decreases t.len() - i,
{
    if i < t.len() && is_sp(t[i]) {
        lemma_skip_sp_bounds(t, i + 1);
    }
}

proof fn lemma_alnum_bounds(t: Seq<char>, i: int)
    requires
        0 <= i <= t.len(),
    ensures
        i <= alnum_end(t, i) <= t.len(),
    decreases t.len() - i,
{
    if i < t.len() && is_alnum(t[i]) {
        lemma_alnum_bounds(t, i + 1);
    }
}

proof fn lemma_line_end_bounds(t: Seq<char>, i: int)
    requires
        0 <= i <= t.len(),
    ensures
        i <= line_end(t, i) <= t.len(),
    decreases t.len() - i,
{
    if i < t.len() && !is_line_break(t[i]) {
        lemma_line_end_bounds(t, i + 1);
    }
}

proof fn lemma_find_bounds(t: Seq<char>, i: int, pat: Seq<char>)
    requires
        0 <= i,
    ensures
        find_from(t, i, pat) matches Some(q) ==> i <= q && q + pat.len() <= t.len(),
    decreases t.len() + 1 - i,
{
    if i + pat.len() > t.len() {
    } else if t.subrange(i, i + pat.len()) == pat {
    } else {
        lemma_find_bounds(t, i + 1, pat);
    }
}

/// A tag name the tag-value grammar dispatches on; any other name\n/// aborts the reader.
pub open spec fn known_tag(k: Seq<char>) -> bool {
    ||| k == "SPDXVersion"@
    ||| k == "DataLicense"@
    ||| k == "SPDXID"@
    ||| k == "DocumentName"@
    ||| k == "DocumentNamespace"@
    ||| k == "ExternalDocumentRef"@
    ||| k == "LicenseListVersion"@
    ||| k == "Creator"@
    ||| k == "Created"@
    ||| k == "CreatorComment"@
    ||| k == "DocumentComment"@
    ||| k == "PackageName"@
    ||| k == "PackageVersion"@
    ||| k == "PackageFileName"@
    ||| k == "PackageSupplier"@
    ||| k == "PackageOriginator"@
    ||| k == "PackageDownloadLocation"@
    ||| k == "FilesAnalyzed"@
    ||| k == "PackageVerificationCode"@
    ||| k == "PackageChecksum"@
    ||| k == "PackageHomePage"@
    ||| k == "PackageSourceInfo"@
    ||| k == "PackageLicenseConcluded"@
    ||| k == "PackageLicenseInfoFromFiles"@
    ||| k == "PackageLicenseDeclared"@
    ||| k == "PackageLicenseComments"@
    ||| k == "PackageCopyrightText"@
    ||| k == "PackageSummary"@
    ||| k == "PackageDescription"@
    ||| k == "PackageComment"@
    ||| k == "ExternalRef"@
    ||| k == "ExternalRefComment"@
    ||| k == "PackageAttributionText"@
    ||| k == "PrimaryPackagePurpose"@
    ||| k == "BuiltDate"@
    ||| k == "ReleaseDate"@
    ||| k == "ValidUntilDate"@
    ||| k == "FileName"@
    ||| k == "FileType"@
    ||| k == "FileChecksum"@
    ||| k == "LicenseConcluded"@
    ||| k == "LicenseInfoInFile"@
    ||| k == "LicenseComments"@
    ||| k == "FileCopyrightText"@
    ||| k == "FileComment"@
    ||| k == "FileNotice"@
    ||| k == "FileContributor"@
    ||| k == "FileAttributionText"@
    ||| k == "SnippetSPDXID"@
    ||| k == "SnippetFromFileSPDXID"@
    ||| k == "SnippetByteRange"@
    ||| k == "SnippetLineRange"@
    ||| k == "SnippetLicenseConcluded"@
    ||| k == "LicenseInfoInSnippet"@
    ||| k == "SnippetLicenseComments"@
    ||| k == "SnippetCopyrightText"@
    ||| k == "SnippetComment"@
    ||| k == "SnippetName"@
    ||| k == "SnippetAttributionText"@
    ||| k == "LicenseID"@
    ||| k == "ExtractedText"@
    ||| k == "LicenseName"@
    ||| k == "LicenseCrossReference"@
    ||| k == "LicenseComment"@
    ||| k == "Relationship"@
    ||| k == "RelationshipComment"@
    ||| k == "Annotator"@
    ||| k == "AnnotationDate"@
    ||| k == "AnnotationType"@
    ||| k == "SPDXREF"@
    ||| k == "AnnotationComment"@
}

/// A file-type keyword the grammar accepts.
pub open spec fn file_type_name(k: Seq<char>) -> bool {
    ||| k == "SOURCE"@
    ||| k == "BINARY"@
    ||| k == "ARCHIVE"@
    ||| k == "APPLICATION"@
    ||| k == "AUDIO"@
    ||| k == "IMAGE"@
    ||| k == "TEXT"@
    ||| k == "VIDEO"@
    ||| k == "DOCUMENTATION"@
    ||| k == "SPDX"@
    ||| k == "OTHER"@
}

/// A relationship-type keyword the grammar accepts, in its\n/// canonical upper-case spelling.
pub open spec fn rel_type_name(k: Seq<char>) -> bool {
    ||| k == "DESCRIBES"@
    ||| k == "DESCRIBED_BY"@
    ||| k == "CONTAINS"@
    ||| k == "CONTAINED_BY"@
    ||| k == "DEPENDS_ON"@
    ||| k == "DEPENDENCY_OF"@
    ||| k == "DEPENDENCY_MANIFEST_OF"@
    ||| k == "BUILD_DEPENDENCY_OF"@
    ||| k == "DEV_DEPENDENCY_OF"@
    ||| k == "OPTIONAL_DEPENDENCY_OF"@
    ||| k == "PROVIDED_DEPENDENCY_OF"@
    ||| k == "TEST_DEPENDENCY_OF"@
    ||| k == "RUNTIME_DEPENDENCY_OF"@
    ||| k == "EXAMPLE_OF"@
    ||| k == "GENERATES"@
    ||| k == "GENERATED_FROM"@
    ||| k == "ANCESTOR_OF"@
    ||| k == "DESCENDANT_OF"@
    ||| k == "VARIANT_OF"@
    ||| k == "DISTRIBUTION_ARTIFACT"@
    ||| k == "PATCH_FOR"@
    ||| k == "PATCH_APPLIED"@
    ||| k == "COPY_OF"@
    ||| k == "FILE_ADDED"@
    ||| k == "FILE_DELETED"@
    ||| k == "FILE_MODIFIED"@
    ||| k == "EXPANDED_FROM_ARCHIVE"@
    ||| k == "DYNAMIC_LINK"@
    ||| k == "STATIC_LINK"@
    ||| k == "DATA_FILE_OF"@
    ||| k == "TEST_CASE_OF"@
    ||| k == "BUILD_TOOL_OF"@
    ||| k == "DEV_TOOL_OF"@
    ||| k == "TEST_OF"@
    ||| k == "TEST_TOOL_OF"@
    ||| k == "DOCUMENTATION_OF"@
    ||| k == "OPTIONAL_COMPONENT_OF"@
    ||| k == "METAFILE_OF"@
    ||| k == "PACKAGE_OF"@
    ||| k == "AMENDS"@
    ||| k == "PREREQUISITE_FOR"@
    ||| k == "HAS_PREREQUISITE"@
    ||| k == "SPECIFICATION_FOR"@
    ||| k == "REQUIREMENT_DESCRIPTION_FOR"@
    ||| k == "OTHER"@
}

/// An external-reference category keyword the grammar accepts.
pub open spec fn ext_ref_category(k: Seq<char>) -> bool {
    ||| k == "SECURITY"@
    ||| k == "PACKAGE-MANAGER"@
    ||| k == "PERSISTENT-ID"@
    ||| k == "OTHER"@
}

/// A checksum-algorithm keyword the grammar accepts.
pub open spec fn algorithm_name(k: Seq<char>) -> bool {
    ||| k == "SHA1"@
    ||| k == "SHA224"@
    ||| k == "SHA256"@
    ||| k == "SHA384"@
    ||| k == "SHA512"@
    ||| k == "MD2"@
    ||| k == "MD4"@
    ||| k == "MD5"@
    ||| k == "MD6"@
    ||| k == "SHA3-256"@
    ||| k == "SHA3-384"@
    ||| k == "SHA3-512"@
    ||| k == "BLAKE2b-256"@
    ||| k == "BLAKE2b-384"@
    ||| k == "BLAKE2b-512"@
    ||| k == "BLAKE3"@
    ||| k == "ADLER32"@
}

/// The key and value of every tag the tag-value reader tokenizes, in
/// order: a tag is an alphanumeric name, optional whitespace, a colon, and
/// a value that is either a text block or the rest of the line. A `#`
/// starts a comment; reading stops where no further tag parses, and the
/// rest of the input is ignored.
pub open spec fn scan_pairs(t: Seq<char>, i: int) -> Seq<(Seq<char>, Seq<char>)>
    decreases t.len() - i when 0 <= i <= t.len()
    via scan_pairs_dec
{
    let a = skip_sp_end(t, i);
    if a >= t.len() {
        Seq::empty()
    } else if t[a] == '#' {
        scan_pairs(t, line_end(t, skip_sp_end(t, a + 1)))
    } else {
        let ke = alnum_end(t, a);
        let c = skip_sp_end(t, ke);
        if c >= t.len() || t[c] != ':' {
            Seq::empty()
        } else {
            let vs = skip_sp_end(t, c + 1);
            if starts_with_at(t, vs, "<text>"@) && find_from(t, vs + "<text>"@.len() as int, "</text>"@) is Some {
                let q = find_from(t, vs + "<text>"@.len() as int, "</text>"@).unwrap();
                seq![(t.subrange(a, ke), t.subrange(vs + "<text>"@.len() as int, q))] + scan_pairs(
                    t,
                    q + "</text>"@.len() as int,
                )
            } else {
                seq![(t.subrange(a, ke), t.subrange(vs, line_end(t, vs)))] + scan_pairs(
                    t,
                    line_end(t, vs),
                )
            }
        }
    }
}

#[via_fn]
proof fn scan_pairs_dec(t: Seq<char>, i: int) {
    lemma_skip_sp_bounds(t, i);
    let a = skip_sp_end(t, i);
    if a < t.len() {
        if t[a] == '#' {
            lemma_skip_sp_bounds(t, a + 1);
            lemma_line_end_bounds(t, skip_sp_end(t, a + 1));
        } else {
            lemma_alnum_bounds(t, a);
            let ke = alnum_end(t, a);
            lemma_skip_sp_bounds(t, ke);
            let c = skip_sp_end(t, ke);
            if c < t.len() && t[c] == ':' {
                lemma_skip_sp_bounds(t, c + 1);
                let vs = skip_sp_end(t, c + 1);
                lemma_find_bounds(t, vs + "<text>"@.len() as int, "</text>"@);
                lemma_line_end_bounds(t, vs);
            }
        }
    }
}

/// The first whitespace-separated token of a value.
pub open spec fn first_token(v: Seq<char>) -> Seq<char> {
    let s = skip_sp_end(v, 0);
    v.subrange(s, nonuws_end(v, s))
}

/// The second whitespace-separated token of a value.
pub open spec fn second_token(v: Seq<char>) -> Seq<char> {
    let s0 = skip_sp_end(v, 0);
    let e1 = nonuws_end(v, s0);
    let s1 = skip_sp_end(v, e1);
    v.subrange(s1, nonuws_end(v, s1))
}

/// A checksum tail starting at `i` that the reader survives: either no
/// colon follows (the reader stops there), or the text before the first
/// colon is a known algorithm.
pub open spec fn checksum_ok_from(v: Seq<char>, i: int) -> bool {
    let a = skip_sp_end(v, i);
    match char_find(v, a, ':') {
        None => true,
        Some(c) => algorithm_name(v.subrange(a, c)),
    }
}

/// An external-document-reference value the reader survives: one that
/// does not open with the reference marker (the reader stops there), or
/// one whose embedded checksum is sound.
pub open spec fn ext_doc_ref_ok(v: Seq<char>) -> bool {
    if !starts_with_at(v, 0, "DocumentRef-"@) {
        true
    } else {
        let e1 = id_end(v, skip_sp_end(v, "DocumentRef-"@.len() as int));
        let s1 = skip_sp_end(v, e1);
        let e2 = nonuws_end(v, s1);
        checksum_ok_from(v, e2)
    }
}

/// One tokenized tag the reader survives: its name is known, and every
/// value the reader feeds to a partial lookup or to the license-expression
/// parser is acceptable there.
pub open spec fn pair_safe(k: Seq<char>, v: Seq<char>) -> bool {
    &&& known_tag(k)
    &&& ((k == "PackageLicenseConcluded"@ || k == "PackageLicenseDeclared"@ || k == "LicenseConcluded"@ || k == "LicenseInfoInFile"@ || k == "SnippetLicenseConcluded"@) ==> spdx_expr_ids_of(v) is Some)
    &&& (k == "AnnotationType"@ ==> (v == "REVIEW"@ || v == "OTHER"@))
    &&& (k == "FileType"@ ==> file_type_name(v))
    &&& (k == "Relationship"@ ==> rel_type_name(second_token(v)))
    &&& (k == "ExternalRef"@ ==> ext_ref_category(first_token(v)))
    &&& ((k == "PackageChecksum"@ || k == "FileChecksum"@) ==> checksum_ok_from(v, 0))
    &&& (k == "ExternalDocumentRef"@ ==> ext_doc_ref_ok(v))
}

/// Every tag of the text is one the tag-value reader survives.
pub open spec fn spdx_tag_input_safe(t: Seq<char>) -> bool {
    forall|j: int|
        0 <= j < scan_pairs(t, 0).len() ==> pair_safe(
            #[trigger] scan_pairs(t, 0)[j].0,
            scan_pairs(t, 0)[j].1,
        )
}

fn known_tag_exec(k: &str) -> (r: bool)
    ensures
        r == known_tag(k@),
{
    str_eq(k, "SPDXVersion") || str_eq(k, "DataLicense") || str_eq(k, "SPDXID") || str_eq(k, "DocumentName") || str_eq(k, "DocumentNamespace") || str_eq(k, "ExternalDocumentRef") || str_eq(k, "LicenseListVersion") || str_eq(k, "Creator") || str_eq(k, "Created") || str_eq(k, "CreatorComment") || str_eq(k, "DocumentComment") || str_eq(k, "PackageName") || str_eq(k, "PackageVersion") || str_eq(k, "PackageFileName") || str_eq(k, "PackageSupplier") || str_eq(k, "PackageOriginator") || str_eq(k, "PackageDownloadLocation") || str_eq(k, "FilesAnalyzed") || str_eq(k, "PackageVerificationCode") || str_eq(k, "PackageChecksum") || str_eq(k, "PackageHomePage") || str_eq(k, "PackageSourceInfo") || str_eq(k, "PackageLicenseConcluded") || str_eq(k, "PackageLicenseInfoFromFiles") || str_eq(k, "PackageLicenseDeclared") || str_eq(k, "PackageLicenseComments") || str_eq(k, "PackageCopyrightText") || str_eq(k, "PackageSummary") || str_eq(k, "PackageDescription") || str_eq(k, "PackageComment") || str_eq(k, "ExternalRef") || str_eq(k, "ExternalRefComment") || str_eq(k, "PackageAttributionText") || str_eq(k, "PrimaryPackagePurpose") || str_eq(k, "BuiltDate") || str_eq(k, "ReleaseDate") || str_eq(k, "ValidUntilDate") || str_eq(k, "FileName") || str_eq(k, "FileType") || str_eq(k, "FileChecksum") || str_eq(k, "LicenseConcluded") || str_eq(k, "LicenseInfoInFile") || str_eq(k, "LicenseComments") || str_eq(k, "FileCopyrightText") || str_eq(k, "FileComment") || str_eq(k, "FileNotice") || str_eq(k, "FileContributor") || str_eq(k, "FileAttributionText") || str_eq(k, "SnippetSPDXID") || str_eq(k, "SnippetFromFileSPDXID") || str_eq(k, "SnippetByteRange") || str_eq(k, "SnippetLineRange") || str_eq(k, "SnippetLicenseConcluded") || str_eq(k, "LicenseInfoInSnippet") || str_eq(k, "SnippetLicenseComments") || str_eq(k, "SnippetCopyrightText") || str_eq(k, "SnippetComment") || str_eq(k, "SnippetName") || str_eq(k, "SnippetAttributionText") || str_eq(k, "LicenseID") || str_eq(k, "ExtractedText") || str_eq(k, "LicenseName") || str_eq(k, "LicenseCrossReference") || str_eq(k, "LicenseComment") || str_eq(k, "Relationship") || str_eq(k, "RelationshipComment") || str_eq(k, "Annotator") || str_eq(k, "AnnotationDate") || str_eq(k, "AnnotationType") || str_eq(k, "SPDXREF") || str_eq(k, "AnnotationComment")
}

fn file_type_exec(k: &str) -> (r: bool)
    ensures
        r == file_type_name(k@),
{
    str_eq(k, "SOURCE") || str_eq(k, "BINARY") || str_eq(k, "ARCHIVE") || str_eq(k, "APPLICATION") || str_eq(k, "AUDIO") || str_eq(k, "IMAGE") || str_eq(k, "TEXT") || str_eq(k, "VIDEO") || str_eq(k, "DOCUMENTATION") || str_eq(k, "SPDX") || str_eq(k, "OTHER")
}

fn rel_type_exec(k: &str) -> (r: bool)
    ensures
        r == rel_type_name(k@),
{
    str_eq(k, "DESCRIBES") || str_eq(k, "DESCRIBED_BY") || str_eq(k, "CONTAINS") || str_eq(k, "CONTAINED_BY") || str_eq(k, "DEPENDS_ON") || str_eq(k, "DEPENDENCY_OF") || str_eq(k, "DEPENDENCY_MANIFEST_OF") || str_eq(k, "BUILD_DEPENDENCY_OF") || str_eq(k, "DEV_DEPENDENCY_OF") || str_eq(k, "OPTIONAL_DEPENDENCY_OF") || str_eq(k, "PROVIDED_DEPENDENCY_OF") || str_eq(k, "TEST_DEPENDENCY_OF") || str_eq(k, "RUNTIME_DEPENDENCY_OF") || str_eq(k, "EXAMPLE_OF") || str_eq(k, "GENERATES") || str_eq(k, "GENERATED_FROM") || str_eq(k, "ANCESTOR_OF") || str_eq(k, "DESCENDANT_OF") || str_eq(k, "VARIANT_OF") || str_eq(k, "DISTRIBUTION_ARTIFACT") || str_eq(k, "PATCH_FOR") || str_eq(k, "PATCH_APPLIED") || str_eq(k, "COPY_OF") || str_eq(k, "FILE_ADDED") || str_eq(k, "FILE_DELETED") || str_eq(k, "FILE_MODIFIED") || str_eq(k, "EXPANDED_FROM_ARCHIVE") || str_eq(k, "DYNAMIC_LINK") || str_eq(k, "STATIC_LINK") || str_eq(k, "DATA_FILE_OF") || str_eq(k, "TEST_CASE_OF") || str_eq(k, "BUILD_TOOL_OF") || str_eq(k, "DEV_TOOL_OF") || str_eq(k, "TEST_OF") || str_eq(k, "TEST_TOOL_OF") || str_eq(k, "DOCUMENTATION_OF") || str_eq(k, "OPTIONAL_COMPONENT_OF") || str_eq(k, "METAFILE_OF") || str_eq(k, "PACKAGE_OF") || str_eq(k, "AMENDS") || str_eq(k, "PREREQUISITE_FOR") || str_eq(k, "HAS_PREREQUISITE") || str_eq(k, "SPECIFICATION_FOR") || str_eq(k, "REQUIREMENT_DESCRIPTION_FOR") || str_eq(k, "OTHER")
}

fn ext_ref_cat_exec(k: &str) -> (r: bool)
    ensures
        r == ext_ref_category(k@),
{
    str_eq(k, "SECURITY") || str_eq(k, "PACKAGE-MANAGER") || str_eq(k, "PERSISTENT-ID") || str_eq(k, "OTHER")
}

fn algorithm_exec(k: &str) -> (r: bool)
    ensures
        r == algorithm_name(k@),
{
    str_eq(k, "SHA1") || str_eq(k, "SHA224") || str_eq(k, "SHA256") || str_eq(k, "SHA384") || str_eq(k, "SHA512") || str_eq(k, "MD2") || str_eq(k, "MD4") || str_eq(k, "MD5") || str_eq(k, "MD6") || str_eq(k, "SHA3-256") || str_eq(k, "SHA3-384") || str_eq(k, "SHA3-512") || str_eq(k, "BLAKE2b-256") || str_eq(k, "BLAKE2b-384") || str_eq(k, "BLAKE2b-512") || str_eq(k, "BLAKE3") || str_eq(k, "ADLER32")
}

/// Mirrors the ASCII whitespace skip.
fn e_skip_sp(s: &str, i: usize) -> (r: usize)
    requires
        i <= s@.len(),
    ensures
        r == skip_sp_end(s@, i as int),
        i <= r <= s@.len(),
{
    let n = s.unicode_len();
    let mut j = i;
    while j < n
        invariant
            i <= j <= n,
            n == s@.len(),
            skip_sp_end(s@, i as int) == skip_sp_end(s@, j as int),
        decreases n - j,
    {
        let c = s.get_char(j);
        if !(c == ' ' || c == '\t' || c == '\r' || c == '\n') {
            return j;
        }
        j = j + 1;
    }
    j
}

/// Mirrors the tag-name scan.
fn e_alnum_end(s: &str, i: usize) -> (r: usize)
    requires
        i <= s@.len(),
    ensures
        r == alnum_end(s@, i as int),
        i <= r <= s@.len(),
{
    let n = s.unicode_len();
    let mut j = i;
    while j < n
        invariant
            i <= j <= n,
            n == s@.len(),
            alnum_end(s@, i as int) == alnum_end(s@, j as int),
        decreases n - j,
    {
        let c = s.get_char(j);
        if !(('a' <= c && c <= 'z') || ('A' <= c && c <= 'Z') || ('0' <= c && c <= '9')) {
            return j;
        }
        j = j + 1;
    }
    j
}

/// Mirrors the scan to the end of the line.
fn e_line_end(s: &str, i: usize) -> (r: usize)
    requires
        i <= s@.len(),
    ensures
        r == line_end(s@, i as int),
        i <= r <= s@.len(),
{
    let n = s.unicode_len();
    let mut j = i;
    while j < n
        invariant
            i <= j <= n,
            n == s@.len(),
            line_end(s@, i as int) == line_end(s@, j as int),
        decreases n - j,
    {
        let c = s.get_char(j);
        if !(!(c == '\n' || c == '\r')) {
            return j;
        }
        j = j + 1;
    }
    j
}

/// Mirrors the token scan.
fn e_nonuws_end(s: &str, i: usize) -> (r: usize)
    requires
        i <= s@.len(),
    ensures
        r == nonuws_end(s@, i as int),
        i <= r <= s@.len(),
{
    let n = s.unicode_len();
    let mut j = i;
    while j < n
        invariant
            i <= j <= n,
            n == s@.len(),
            nonuws_end(s@, i as int) == nonuws_end(s@, j as int),
        decreases n - j,
    {
        let c = s.get_char(j);
        if !(!is_uws_exec(c)) {
            return j;
        }
        j = j + 1;
    }
    j
}

/// Mirrors the identifier scan.
fn e_id_end(s: &str, i: usize) -> (r: usize)
    requires
        i <= s@.len(),
    ensures
        r == id_end(s@, i as int),
        i <= r <= s@.len(),
{
    let n = s.unicode_len();
    let mut j = i;
    while j < n
        invariant
            i <= j <= n,
            n == s@.len(),
            id_end(s@, i as int) == id_end(s@, j as int),
        decreases n - j,
    {
        let c = s.get_char(j);
        if !(('a' <= c && c <= 'z') || ('A' <= c && c <= 'Z') || ('0' <= c && c <= '9') || c == '.' || c == '-' || c == '+') {
            return j;
        }
        j = j + 1;
    }
    j
}

/// Whether `c` is Unicode whitespace.
fn is_uws_exec(c: char) -> (r: bool)
    ensures
        r == is_uws(c),
{
    c == ' ' || c == '\t' || c == '\r' || c == '\n' || c == '\u{b}' || c == '\u{c}' || c
        == '\u{85}' || c == '\u{a0}' || c == '\u{1680}' || ('\u{2000}' <= c && c <= '\u{200a}')
        || c == '\u{2028}' || c == '\u{2029}' || c == '\u{202f}' || c == '\u{205f}' || c
        == '\u{3000}'
}

/// Whether `pat` occurs at position `i` of `s`.
fn e_starts_with(s: &str, i: usize, pat: &str) -> (r: bool)
    requires
        i <= s@.len(),
    ensures
        r == starts_with_at(s@, i as int, pat@),
{
    let n = s.unicode_len();
    let m = pat.unicode_len();
    if m > n - i {
        return false;
    }
    let mut j: usize = 0;
    while j < m
        invariant
            n == s@.len(),
            m == pat@.len(),
            i + m <= n,
            j <= m,
            forall|x: int| 0 <= x < j ==> s@[i + x] == pat@[x],
        decreases m - j,
    {
        if s.get_char(i + j) != pat.get_char(j) {
            proof {
                assert(s@.subrange(i as int, i + m)[j as int] == s@[i + j]);
            }
            return false;
        }
        j = j + 1;
    }
    proof {
        assert(s@.subrange(i as int, i + m) =~= pat@);
    }
    true
}

/// The first occurrence of `pat` at or after `i`.
fn e_find(s: &str, i: usize, pat: &str) -> (r: Option<usize>)
    requires
        i <= s@.len(),
    ensures
        match r {
            Some(q) => find_from(s@, i as int, pat@) == Some(q as int) && i <= q && q + pat@.len()
                <= s@.len(),
            None => find_from(s@, i as int, pat@) is None,
        },
{
    let n = s.unicode_len();
    let m = pat.unicode_len();
    if m > n {
        return None;
    }
    if m == 0 {
        proof {
            assert(s@.subrange(i as int, i as int) =~= pat@);
        }
        return Some(i);
    }
    let mut q = i;
    while q <= n - m
        invariant
            n == s@.len(),
            m == pat@.len(),
            1 <= m <= n,
            i <= q <= n,
            find_from(s@, i as int, pat@) == find_from(s@, q as int, pat@),
        decreases n - q,
    {
        if e_starts_with(s, q, pat) {
            return Some(q);
        }
        q = q + 1;
    }
    None
}

/// The first occurrence of the character `ch` at or after `i`.
fn e_char_find(s: &str, i: usize, ch: char) -> (r: Option<usize>)
    requires
        i <= s@.len(),
    ensures
        match r {
            Some(q) => char_find(s@, i as int, ch) == Some(q as int) && i <= q < s@.len(),
            None => char_find(s@, i as int, ch) is None,
        },
{
    let n = s.unicode_len();
    let mut q = i;
    while q < n
        invariant
            n == s@.len(),
            i <= q <= n,
            char_find(s@, i as int, ch) == char_find(s@, q as int, ch),
        decreases n - q,
    {
        if s.get_char(q) == ch {
            return Some(q);
        }
        q = q + 1;
    }
    None
}

/// Whether the reader survives a checksum tail starting at `i`.
fn e_checksum_ok(s: &str, i: usize) -> (r: bool)
    requires
        i <= s@.len(),
    ensures
        r == checksum_ok_from(s@, i as int),
{
    let a = e_skip_sp(s, i);
    match e_char_find(s, a, ':') {
        None => true,
        Some(c) => algorithm_exec(s.substring_char(a, c)),
    }
}

/// Whether the reader survives one tokenized tag.
fn e_pair_safe(k: &str, v: &str) -> (r: bool)
    ensures
        r == pair_safe(k@, v@),
{
    if !known_tag_exec(k) {
        return false;
    }
    if str_eq(k, "PackageLicenseConcluded") || str_eq(k, "PackageLicenseDeclared") || str_eq(k, "LicenseConcluded") || str_eq(k, "LicenseInfoInFile") || str_eq(k, "SnippetLicenseConcluded") {
        match parse_license_expression(v) {
            Ok(_) => {},
            Err(_) => {
                return false;
            },
        }
    }
    if str_eq(k, "AnnotationType") {
        if !(str_eq(v, "REVIEW") || str_eq(v, "OTHER")) {
            return false;
        }
    }
    if str_eq(k, "FileType") {
        if !file_type_exec(v) {
            return false;
        }
    }
    if str_eq(k, "Relationship") {
        let s0 = e_skip_sp(v, 0);
        let e1 = e_nonuws_end(v, s0);
        let s1 = e_skip_sp(v, e1);
        let e2 = e_nonuws_end(v, s1);
        if !rel_type_exec(v.substring_char(s1, e2)) {
            return false;
        }
    }
    if str_eq(k, "ExternalRef") {
        let s0 = e_skip_sp(v, 0);
        let e1 = e_nonuws_end(v, s0);
        if !ext_ref_cat_exec(v.substring_char(s0, e1)) {
            return false;
        }
    }
    if str_eq(k, "PackageChecksum") || str_eq(k, "FileChecksum") {
        if !e_checksum_ok(v, 0) {
            return false;
        }
    }
    if str_eq(k, "ExternalDocumentRef") {
        if e_starts_with(v, 0, "DocumentRef-") {
            let marker = "DocumentRef-".unicode_len();
            let e1 = e_id_end(v, e_skip_sp(v, marker));
            let s1 = e_skip_sp(v, e1);
            let e2 = e_nonuws_end(v, s1);
            if !e_checksum_ok(v, e2) {
                return false;
            }
        }
    }
    true
}

/// Whether the tag-value reader survives the whole text: every tag it
/// would tokenize is known and carries an acceptable value.
pub fn check_spdx_tag_input(text: &str) -> (r: bool)
    ensures
        r == spdx_tag_input_safe(text@),
{
    let ghost t = text@;
    let n = text.unicode_len();
    let mut i: usize = 0;
    let ghost mut done: Seq<(Seq<char>, Seq<char>)> = Seq::empty();
    proof {
        assert(scan_pairs(t, 0) =~= done + scan_pairs(t, 0));
    }
    while i <= n
        invariant
            n == t.len(),
            t == text@,
            i <= n,
            scan_pairs(t, 0) == done + scan_pairs(t, i as int),
            forall|j: int|
                0 <= j < done.len() ==> pair_safe(#[trigger] done[j].0, done[j].1),
        decreases n - i,
    {
        let a = e_skip_sp(text, i);
        if a >= n {
            proof {
                assert(scan_pairs(t, i as int).len() == 0);
                assert(scan_pairs(t, 0) =~= done);
            }
            return true;
        }
        if text.get_char(a) == '#' {
            let next = e_line_end(text, e_skip_sp(text, a + 1));
            proof {
                assert(scan_pairs(t, i as int) == scan_pairs(t, next as int));
            }
            i = next;
            continue;
        }
        let ke = e_alnum_end(text, a);
        let c = e_skip_sp(text, ke);
        if c >= n || text.get_char(c) != ':' {
            proof {
                assert(scan_pairs(t, i as int).len() == 0);
                assert(scan_pairs(t, 0) =~= done);
            }
            return true;
        }
        let vs = e_skip_sp(text, c + 1);
        let key = text.substring_char(a, ke);
        let tl = "<text>".unicode_len();
        let mut next: usize = 0;
        let mut is_text_block = false;
        let mut q: usize = 0;
        if e_starts_with(text, vs, "<text>") {
            match e_find(text, vs + tl, "</text>") {
                Some(found) => {
                    is_text_block = true;
                    q = found;
                },
                None => {},
            }
        }
        let value = if is_text_block {
            next = q + "</text>".unicode_len();
            text.substring_char(vs + tl, q)
        } else {
            next = e_line_end(text, vs);
            text.substring_char(vs, next)
        };
        proof {
            assert(scan_pairs(t, i as int) == seq![(key@, value@)] + scan_pairs(
                t,
                next as int,
            ));
        }
        if !e_pair_safe(key, value) {
            proof {
                let all = scan_pairs(t, 0);
                assert(all[done.len() as int] == (key@, value@));
                assert(!pair_safe(all[done.len() as int].0, all[done.len() as int].1));
            }
            return false;
        }
        proof {
            done = done.push((key@, value@));
            assert(scan_pairs(t, 0) =~= done + scan_pairs(t, next as int));
        }
        i = next;
    }
    proof {
        assert(scan_pairs(t, i as int).len() == 0);
        assert(scan_pairs(t, 0) =~= done);
    }
    true
}

} // verus!
