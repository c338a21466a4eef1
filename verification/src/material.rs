use vstd::prelude::*;
use vstd::multiset::Multiset;

use crate::cli::SourceType;
use crate::cyclonedx::{
    bom_matches_json, bom_matches_xml, json_bom_ok, load_json_file, load_xml_file, xml_bom_ok,
    Bom, Component, Components, LicenseChoice, Licenses,
};
use crate::error::Error;
use crate::json::json_tree_of;
use crate::spdx::{parse_license_expression, spdx_expr_ids_of};
use crate::xml::xml_tree_of;
use crate::spdx::{
    package_matches, packages_match, parse_spdx_json, parse_spdx_tag, spdx_json_doc_of,
    spdx_tag_doc_of, SpdxPackage,
};
use crate::strutil::{
    opt_view, spec_split, split_char, str_eq, table_views_of, utf8_str, utf8_view_of, views_of,
};
use crate::tagcheck::{check_spdx_tag_input, spdx_tag_input_safe};
use crate::tsv::{read_tsv_table, tsv_table_of};

verus! {

/// The canonical record for one inventory entry, whatever format it came
/// from. Licenses keep their source order, duplicates included; annotations
/// denote a string-to-string mapping with unique keys.
#[derive(Debug, Clone)]
pub struct Material {
    pub name: String,
    pub version: Option<String>,
    pub licenses: Vec<String>,
    pub annotations: Vec<(String, String)>,
}

/// The keys of an annotation list are pairwise distinct.
pub open spec fn keys_distinct(pairs: Seq<(String, String)>) -> bool {
    forall|i: int, j: int| 0 <= i < j < pairs.len() ==> pairs[i].0@ != pairs[j].0@
}

/// The mapping that a list of annotation pairs denotes; a later pair with
/// the same key overrides an earlier one.
pub open spec fn anno_map(pairs: Seq<(String, String)>) -> Map<Seq<char>, Seq<char>>
    decreases pairs.len(),
{
    if pairs.len() == 0 {
        Map::empty()
    } else {
        anno_map(pairs.drop_last()).insert(pairs.last().0@, pairs.last().1@)
    }
}

/// Replacing the pair at a position whose key already stands there denotes
/// the same mapping as inserting that key anew.
proof fn lemma_anno_update(pairs: Seq<(String, String)>, i: int, kv: (String, String))
    requires
        0 <= i < pairs.len(),
        keys_distinct(pairs),
        pairs[i].0@ == kv.0@,
    ensures
        anno_map(pairs.update(i, kv)) == anno_map(pairs).insert(kv.0@, kv.1@),
    decreases pairs.len(),
{
    let q = pairs.update(i, kv);
    if i == pairs.len() - 1 {
        assert(q.drop_last() =~= pairs.drop_last());
        assert(anno_map(pairs.drop_last()).insert(kv.0@, kv.1@) =~= anno_map(
            pairs.drop_last(),
        ).insert(pairs.last().0@, pairs.last().1@).insert(kv.0@, kv.1@));
    } else {
        assert(q.drop_last() =~= pairs.drop_last().update(i, kv));
        lemma_anno_update(pairs.drop_last(), i, kv);
        let lastk = pairs.last().0@;
        let lastv = pairs.last().1@;
        assert(pairs[i].0@ != lastk);
        assert(anno_map(pairs.drop_last()).insert(kv.0@, kv.1@).insert(lastk, lastv)
            =~= anno_map(pairs.drop_last()).insert(lastk, lastv).insert(kv.0@, kv.1@));
        assert(q.last() == pairs.last());
    }
}

/// Sets or replaces the annotation `key` in a well-formed pair list.
pub fn set_annotation(pairs: &mut Vec<(String, String)>, key: String, value: String)
    requires
        keys_distinct(old(pairs)@),
    ensures
        keys_distinct(final(pairs)@),
        anno_map(final(pairs)@) == anno_map(old(pairs)@).insert(key@, value@),
{
    let n = pairs.len();
    let mut i: usize = 0;
    while i < n
        invariant
            n == pairs@.len(),
            i <= n,
            keys_distinct(pairs@),
            pairs@ == old(pairs)@,
            forall|j: int| 0 <= j < i ==> pairs@[j].0@ != key@,
        decreases n - i,
    {
        if str_eq(pairs[i].0.as_str(), key.as_str()) {
            let ghost prev = pairs@;
            let ghost kv_view = key@;
            let _ = pairs.remove(i);
            pairs.insert(i, (key, value));
            proof {
                assert(pairs@ =~= prev.update(i as int, (pairs@[i as int].0, pairs@[
                    i as int].1)));
                assert(pairs@[i as int].0@ == kv_view);
                lemma_anno_update(prev, i as int, pairs@[i as int]);
                assert(keys_distinct(pairs@));
            }
            return ;
        }
        i = i + 1;
    }
    let ghost prev = pairs@;
    pairs.push((key, value));
    proof {
        assert(pairs@.drop_last() =~= prev);
        assert(keys_distinct(pairs@));
    }
}

impl Material {
    /// The annotation list denotes a well-formed mapping.
    pub open spec fn wf(&self) -> bool {
        keys_distinct(self.annotations@)
    }

    /// Sets or replaces one annotation; every other field is untouched.
    pub fn update_annotation(&mut self, key: String, value: String)
        requires
            old(self).wf(),
        ensures
            final(self).wf(),
            anno_map(final(self).annotations@) == anno_map(old(self).annotations@).insert(
                key@,
                value@,
            ),
            final(self).name == old(self).name,
            final(self).version == old(self).version,
            final(self).licenses == old(self).licenses,
    {
        set_annotation(&mut self.annotations, key, value)
    }
}

/// The position of the first header column named `key`.
pub open spec fn col_of(header: Seq<Seq<char>>, key: Seq<char>) -> Option<int> {
    header.index_of_first(key)
}

/// The header carries all four required columns.
pub open spec fn tsv_columns_ok(header: Seq<Seq<char>>) -> bool {
    &&& col_of(header, "name"@) is Some
    &&& col_of(header, "version"@) is Some
    &&& col_of(header, "licenses"@) is Some
    &&& col_of(header, "annotations"@) is Some
}

/// A loadable table: either no data rows at all, or a header with the four
/// required columns and rows that all match the header's width.
pub open spec fn tsv_table_ok(header: Seq<Seq<char>>, rows: Seq<Seq<Seq<char>>>) -> bool {
    rows.len() == 0 || (tsv_columns_ok(header) && forall|i: int|
        0 <= i < rows.len() ==> #[trigger] rows[i].len() == header.len())
}

/// The cell of `row` under the first header column named `key`.
pub open spec fn row_field(header: Seq<Seq<char>>, row: Seq<Seq<char>>, key: Seq<char>) -> Seq<
    char,
> {
    row[col_of(header, key).unwrap()]
}

/// The key of one `key=value` annotation token: everything before the first
/// equals sign, or the whole token when it has none.
pub open spec fn pair_key(t: Seq<char>) -> Seq<char> {
    match t.index_of_first('=') {
        Some(i) => t.take(i),
        None => t,
    }
}

/// The value of one annotation token: the token is split once on the first
/// equals sign, so everything after it is the value; a token without an
/// equals sign has an empty value.
pub open spec fn pair_val(t: Seq<char>) -> Seq<char> {
    match t.index_of_first('=') {
        Some(i) => t.skip(i + 1),
        None => Seq::empty(),
    }
}

/// Splits one annotation token once on its first equals sign.
fn split_pair(t: &str) -> (kv: (String, String))
    ensures
        kv.0@ == pair_key(t@),
        kv.1@ == pair_val(t@),
{
    let n = t.unicode_len();
    let mut i: usize = 0;
    while i < n
        invariant
            n == t@.len(),
            i <= n,
            forall|j: int| 0 <= j < i ==> t@[j] != '=',
        decreases n - i,
    {
        if t.get_char(i) == '=' {
            proof {
                t@.index_of_first_ensures('=');
                assert(t@.contains('=')) by {
                    assert(t@[i as int] == '=');
                }
                let x = t@.index_of_first('=').unwrap();
                assert(t@[x] == '=');
                if x < i {
                    assert(t@[x] != '=');
                } else if x > i {
                    assert(t@[i as int] == '=' && t@[i as int] != '=');
                }
                assert(x == i);
            }
            return (
                t.substring_char(0, i).to_owned(),
                t.substring_char(i + 1, n).to_owned(),
            );
        }
        i = i + 1;
    }
    proof {
        t@.index_of_first_ensures('=');
        if t@.index_of_first('=') is Some {
            let x = t@.index_of_first('=').unwrap();
            assert(t@[x] == '=');
            assert(false);
        }
    }
    (t.to_owned(), String::new())
}

/// The mapping denoted by a sequence of `key=value` tokens; empty tokens
/// are skipped and a later token with the same key wins.
pub open spec fn anno_map_of_tokens(toks: Seq<Seq<char>>) -> Map<Seq<char>, Seq<char>>
    decreases toks.len(),
{
    if toks.len() == 0 {
        Map::empty()
    } else {
        let m = anno_map_of_tokens(toks.drop_last());
        if toks.last().len() == 0 {
            m
        } else {
            m.insert(pair_key(toks.last()), pair_val(toks.last()))
        }
    }
}

/// The mapping denoted by one comma-separated annotations cell.
pub open spec fn spec_annotations(cell: Seq<char>) -> Map<Seq<char>, Seq<char>> {
    anno_map_of_tokens(spec_split(cell, ','))
}

/// One material extracted from one TSV row.
pub open spec fn tsv_material_ok(
    header: Seq<Seq<char>>,
    row: Seq<Seq<char>>,
    m: Material,
) -> bool {
    &&& m.wf()
    &&& m.name@ == row_field(header, row, "name"@)
    &&& m.version is Some
    &&& m.version->0@ == row_field(header, row, "version"@)
    &&& views_of(m.licenses@) == spec_split(row_field(header, row, "licenses"@), ',')
    &&& anno_map(m.annotations@) == spec_annotations(row_field(header, row, "annotations"@))
}

/// Finds the first header column named `key`.
fn find_col(header: &Vec<String>, key: &str) -> (r: Option<usize>)
    ensures
        match r {
            Some(i) => col_of(views_of(header@), key@) == Some(i as int) && i < header@.len(),
            None => col_of(views_of(header@), key@) is None,
        },
{
    let n = header.len();
    let mut i: usize = 0;
    while i < n
        invariant
            n == header@.len(),
            i <= n,
            forall|j: int| 0 <= j < i ==> views_of(header@)[j] != key@,
        decreases n - i,
    {
        if str_eq(header[i].as_str(), key) {
            proof {
                let vs = views_of(header@);
                vs.index_of_first_ensures(key@);
                assert(vs.contains(key@)) by {
                    assert(vs[i as int] == key@);
                }
                let x = vs.index_of_first(key@).unwrap();
                assert(vs[x] == key@);
                if x < i {
                    assert(vs[x] != key@);
                } else if x > i {
                    assert(vs[i as int] == key@ && vs[i as int] != key@);
                }
                assert(x == i);
            }
            return Some(i);
        }
        i = i + 1;
    }
    proof {
        let vs = views_of(header@);
        vs.index_of_first_ensures(key@);
        if vs.index_of_first(key@) is Some {
            let x = vs.index_of_first(key@).unwrap();
            assert(vs[x] == key@);
            assert(false);
        }
    }
    None
}

/// Parses one annotations cell into a well-formed pair list.
fn annotations_from_cell(cell: &str) -> (pairs: Vec<(String, String)>)
    ensures
        keys_distinct(pairs@),
        anno_map(pairs@) == spec_annotations(cell@),
{
    let toks = split_char(cell, ',');
    let ghost tv = views_of(toks@);
    let mut pairs: Vec<(String, String)> = Vec::new();
    let n = toks.len();
    let mut i: usize = 0;
    proof {
        assert(tv.take(0) =~= Seq::<Seq<char>>::empty());
    }
    while i < n
        invariant
            n == toks@.len(),
            i <= n,
            tv == views_of(toks@),
            tv == spec_split(cell@, ','),
            keys_distinct(pairs@),
            anno_map(pairs@) == anno_map_of_tokens(tv.take(i as int)),
        decreases n - i,
    {
        proof {
            assert(tv.take(i + 1).drop_last() =~= tv.take(i as int));
            assert(tv.take(i + 1).last() == tv[i as int]);
            assert(tv[i as int] == toks@[i as int]@);
        }
        let t = &toks[i];
        if !t.as_str().is_empty() {
            let (key, value) = split_pair(t.as_str());
            set_annotation(&mut pairs, key, value);
        }
        i = i + 1;
    }
    proof {
        assert(tv.take(n as int) =~= tv);
    }
    pairs
}

/// Turns a TSV table into the material sequence it denotes: one material
/// per data row, with the four required cells split as the format demands.
pub fn materials_from_tsv_table(header: &Vec<String>, rows: &Vec<Vec<String>>) -> (r: Result<
    Vec<Material>,
    Error,
>)
    ensures
        match r {
            Ok(ms) => {
                &&& tsv_table_ok(views_of(header@), table_views_of(rows@))
                &&& ms@.len() == rows@.len()
                &&& forall|i: int|
                    0 <= i < rows@.len() ==> tsv_material_ok(
                        views_of(header@),
                        table_views_of(rows@)[i],
                        #[trigger] ms@[i],
                    )
            },
            Err(e) => !tsv_table_ok(views_of(header@), table_views_of(rows@)) && e is Csv,
        },
{
    let ghost hv = views_of(header@);
    let ghost rv = table_views_of(rows@);
    if rows.len() == 0 {
        return Ok(Vec::new());
    }
    let c_name = match find_col(header, "name") {
        Some(c) => c,
        None => {
            return Err(Error::Csv("missing required column: name".to_owned()));
        },
    };
    let c_version = match find_col(header, "version") {
        Some(c) => c,
        None => {
            return Err(Error::Csv("missing required column: version".to_owned()));
        },
    };
    let c_licenses = match find_col(header, "licenses") {
        Some(c) => c,
        None => {
            return Err(Error::Csv("missing required column: licenses".to_owned()));
        },
    };
    let c_annotations = match find_col(header, "annotations") {
        Some(c) => c,
        None => {
            return Err(Error::Csv("missing required column: annotations".to_owned()));
        },
    };
    let n = rows.len();
    let mut ms: Vec<Material> = Vec::new();
    let mut i: usize = 0;
    while i < n
        invariant
            n == rows@.len(),
            n > 0,
            i <= n,
            hv == views_of(header@),
            rv == table_views_of(rows@),
            tsv_columns_ok(hv),
            col_of(hv, "name"@) == Some(c_name as int),
            col_of(hv, "version"@) == Some(c_version as int),
            col_of(hv, "licenses"@) == Some(c_licenses as int),
            col_of(hv, "annotations"@) == Some(c_annotations as int),
            c_name < header@.len(),
            c_version < header@.len(),
            c_licenses < header@.len(),
            c_annotations < header@.len(),
            ms@.len() == i,
            forall|j: int| 0 <= j < i ==> #[trigger] rv[j].len() == hv.len(),
            forall|j: int| 0 <= j < i ==> tsv_material_ok(hv, rv[j], #[trigger] ms@[j]),
        decreases n - i,
    {
        let row = &rows[i];
        proof {
            assert(rv[i as int] == views_of(rows@[i as int]@));
        }
        if row.len() != header.len() {
            proof {
                assert(rv[i as int].len() != hv.len());
            }
            return Err(Error::Csv("row width differs from the header".to_owned()));
        }
        let m = Material {
            name: row[c_name].clone(),
            version: Some(row[c_version].clone()),
            licenses: split_char(row[c_licenses].as_str(), ','),
            annotations: annotations_from_cell(row[c_annotations].as_str()),
        };
        proof {
            assert(views_of(rows@[i as int]@)[c_name as int] == rows@[i as int]@[c_name as int]@);
            assert(views_of(rows@[i as int]@)[c_version as int] == rows@[i as int]@[c_version as int]@);
            assert(views_of(rows@[i as int]@)[c_licenses as int] == rows@[i as int]@[c_licenses as int]@);
            assert(views_of(rows@[i as int]@)[c_annotations as int] == rows@[i as int]@[c_annotations as int]@);
            assert(tsv_material_ok(hv, rv[i as int], m));
        }
        ms.push(m);
        i = i + 1;
    }
    Ok(ms)
}

/// Whether `r` is the outcome that loading TSV bytes must produce: the
/// reader's table, when it parses, turned into materials row by row.
pub open spec fn tsv_load_ok(data: Seq<u8>, r: Result<Vec<Material>, Error>) -> bool {
    match tsv_table_of(data) {
        None => r matches Err(e) && e is Csv,
        Some(t) => match r {
            Ok(ms) => {
                &&& tsv_table_ok(t.0, t.1)
                &&& ms@.len() == t.1.len()
                &&& forall|i: int|
                    0 <= i < t.1.len() ==> tsv_material_ok(t.0, t.1[i], #[trigger] ms@[i])
            },
            Err(e) => !tsv_table_ok(t.0, t.1) && e is Csv,
        },
    }
}

/// Loads materials from a TSV byte stream.
pub fn load_materials_tsv(data: &[u8]) -> (r: Result<Vec<Material>, Error>)
    ensures
        tsv_load_ok(data@, r),
{
    match read_tsv_table(data) {
        Err(e) => Err(e),
        Ok((header, rows)) => materials_from_tsv_table(&header, &rows),
    }
}

/// The license list that one SPDX package yields. Only an empty concluded
/// list yields itself (trivially, the empty list); every non-empty
/// concluded list is overridden by the from-files list, whether or not it
/// is exactly the literal `NONE`.
pub open spec fn spec_spdx_licenses(p: SpdxPackage) -> Seq<Seq<char>> {
    if p.concluded@.len() == 1 && p.concluded@[0]@ == "NONE"@ {
        views_of(p.from_files@)
    } else if p.concluded@.len() == 0 {
        Seq::empty()
    } else {
        views_of(p.from_files@)
    }
}

/// One material extracted from one SPDX package.
pub open spec fn spdx_material_ok(p: SpdxPackage, m: Material) -> bool {
    &&& m.wf()
    &&& m.name@ == p.name@
    &&& opt_view(m.version) == opt_view(p.version)
    &&& views_of(m.licenses@) == spec_spdx_licenses(p)
    &&& m.annotations@.len() == 0
}

/// Clones a vector of strings element by element.
fn clone_strings(v: &Vec<String>) -> (r: Vec<String>)
    ensures
        views_of(r@) == views_of(v@),
{
    let n = v.len();
    let mut r: Vec<String> = Vec::new();
    let mut i: usize = 0;
    while i < n
        invariant
            n == v@.len(),
            i <= n,
            r@.len() == i,
            forall|j: int| 0 <= j < i ==> r@[j]@ == v@[j]@,
        decreases n - i,
    {
        r.push(v[i].clone());
        i = i + 1;
    }
    proof {
        assert(views_of(r@) =~= views_of(v@));
    }
    r
}

/// Turns SPDX packages into materials, package order preserved.
pub fn extract_spdx(packages: &Vec<SpdxPackage>) -> (ms: Vec<Material>)
    ensures
        ms@.len() == packages@.len(),
        forall|i: int| 0 <= i < packages@.len() ==> spdx_material_ok(packages@[i], #[trigger] ms@[i]),
{
    let n = packages.len();
    let mut ms: Vec<Material> = Vec::new();
    let mut i: usize = 0;
    while i < n
        invariant
            n == packages@.len(),
            i <= n,
            ms@.len() == i,
            forall|j: int| 0 <= j < i ==> spdx_material_ok(packages@[j], #[trigger] ms@[j]),
        decreases n - i,
    {
        let p = &packages[i];
        let licenses: Vec<String> = if p.concluded.len() == 1 && str_eq(
            p.concluded[0].as_str(),
            "NONE",
        ) {
            clone_strings(&p.from_files)
        } else if p.concluded.len() == 0 {
            Vec::new()
        } else {
            clone_strings(&p.from_files)
        };
        proof {
            assert(views_of(Seq::<String>::empty()) =~= Seq::<Seq<char>>::empty());
        }
        let version = match &p.version {
            Some(v) => Some(v.clone()),
            None => None,
        };
        let m = Material { name: p.name.clone(), version, licenses, annotations: Vec::new() };
        ms.push(m);
        i = i + 1;
    }
    ms
}

/// One material extracted from one abstract SPDX package.
pub open spec fn spdx_doc_material_ok(
    v: (Seq<char>, Option<Seq<char>>, Multiset<Seq<char>>, Seq<Seq<char>>),
    m: Material,
) -> bool {
    &&& m.wf()
    &&& m.name@ == v.0
    &&& opt_view(m.version) == v.1
    &&& views_of(m.licenses@) == (if v.2.len() == 0 {
        Seq::<Seq<char>>::empty()
    } else {
        v.3
    })
    &&& m.annotations@.len() == 0
}

/// The whole material list that an abstract SPDX document yields.
pub open spec fn spdx_materials_ok(
    vs: Seq<(Seq<char>, Option<Seq<char>>, Multiset<Seq<char>>, Seq<Seq<char>>)>,
    ms: Seq<Material>,
) -> bool {
    &&& ms.len() == vs.len()
    &&& forall|i: int| 0 <= i < vs.len() ==> spdx_doc_material_ok(vs[i], #[trigger] ms[i])
}

/// Packages whose views match an abstract document extract to materials
/// that match it as well: the selection branch only reads the length and
/// membership of the concluded list, which its multiset determines.
proof fn lemma_spdx_extract_matches(
    ps: Seq<SpdxPackage>,
    vs: Seq<(Seq<char>, Option<Seq<char>>, Multiset<Seq<char>>, Seq<Seq<char>>)>,
    ms: Seq<Material>,
)
    requires
        packages_match(ps, vs),
        ms.len() == ps.len(),
        forall|i: int| 0 <= i < ps.len() ==> spdx_material_ok(ps[i], #[trigger] ms[i]),
    ensures
        spdx_materials_ok(vs, ms),
{
    assert forall|i: int| 0 <= i < vs.len() implies spdx_doc_material_ok(vs[i], #[trigger] ms[i]) by {
        assert(package_matches(ps[i], vs[i]));
        views_of(ps[i].concluded@).to_multiset_ensures();
        assert(views_of(ps[i].concluded@).len() == ps[i].concluded@.len());
        assert(vs[i].2.len() == ps[i].concluded@.len());
    }
}

/// What loading an SPDX tag-value byte stream must yield: decode as
/// UTF-8; reject a text whose tokenized tags the tag-value reader does not
/// survive; parse the grammar; extract each package.
pub open spec fn spdx_tag_load_ok(data: Seq<u8>, r: Result<Vec<Material>, Error>) -> bool {
    match utf8_view_of(data) {
        None => r matches Err(e) && e is Io,
        Some(text) => {
            if !spdx_tag_input_safe(text) {
                r matches Err(e) && e is Spdx
            } else {
                match spdx_tag_doc_of(text) {
                    None => r matches Err(e) && e is Spdx,
                    Some(vs) => r matches Ok(ms) && spdx_materials_ok(vs, ms@),
                }
            }
        },
    }
}

/// Loads materials from an SPDX tag-value byte stream.
pub fn load_materials_spdx_tag(data: &[u8]) -> (r: Result<Vec<Material>, Error>)
    ensures
        spdx_tag_load_ok(data@, r),
{
    let text = match utf8_str(data) {
        Ok(t) => t,
        Err(e) => {
            return Err(e);
        },
    };
    if !check_spdx_tag_input(text) {
        return Err(
            Error::Spdx("a tag or value the tag-value reader does not accept".to_owned()),
        );
    }
    match parse_spdx_tag(text) {
        Ok(ps) => {
            let ms = extract_spdx(&ps);
            proof {
                let vs = spdx_tag_doc_of(text@).unwrap();
                lemma_spdx_extract_matches(ps@, vs, ms@);
            }
            Ok(ms)
        },
        Err(e) => Err(e),
    }
}

/// Loads materials from an SPDX JSON (or YAML, parsed identically) byte
/// stream.
pub fn load_materials_spdx_json(data: &[u8]) -> (r: Result<Vec<Material>, Error>)
    ensures
        match spdx_json_doc_of(data@) {
            None => r matches Err(e) && e is SerdeJson,
            Some(vs) => r matches Ok(ms) && spdx_materials_ok(vs, ms@),
        },
{
    match parse_spdx_json(data) {
        Ok(ps) => {
            let ms = extract_spdx(&ps);
            proof {
                let vs = spdx_json_doc_of(data@).unwrap();
                lemma_spdx_extract_matches(ps@, vs, ms@);
            }
            Ok(ms)
        },
        Err(e) => Err(e),
    }
}

/// What one license choice contributes to a component's license list: a
/// named license its id, else its name, else nothing; an expression some
/// enumeration of its identifier set.
pub open spec fn choice_licenses_ok(ch: LicenseChoice, out: Seq<Seq<char>>) -> bool {
    match ch {
        LicenseChoice::License(l) => match l.id {
            Some(id) => out == seq![id@],
            None => match l.name {
                Some(nm) => out == seq![nm@],
                None => out == Seq::<Seq<char>>::empty(),
            },
        },
        LicenseChoice::Expression(e) => spdx_expr_ids_of(e@) == Some(out.to_set()),
    }
}

/// The choice does not abort resolution: a named license always resolves,
/// an expression only when it parses.
pub open spec fn choice_resolvable(ch: LicenseChoice) -> bool {
    match ch {
        LicenseChoice::License(_) => true,
        LicenseChoice::Expression(e) => spdx_expr_ids_of(e@) is Some,
    }
}

/// Every choice of the list resolves.
pub open spec fn choices_resolvable(chs: Seq<LicenseChoice>) -> bool {
    forall|i: int| 0 <= i < chs.len() ==> choice_resolvable(#[trigger] chs[i])
}

/// One contribution per choice, position by position.
pub open spec fn segs_ok(chs: Seq<LicenseChoice>, segs: Seq<Seq<Seq<char>>>) -> bool {
    chs.len() == segs.len() && forall|i: int|
        0 <= i < chs.len() ==> choice_licenses_ok(#[trigger] chs[i], segs[i])
}

/// `out` is a resolution of the choice list: the concatenation, in choice
/// order, of one contribution per choice.
pub open spec fn resolved_licenses(chs: Seq<LicenseChoice>, out: Seq<Seq<char>>) -> bool {
    exists|segs: Seq<Seq<Seq<char>>>| #[trigger] segs_ok(chs, segs) && out == segs.flatten()
}

/// Resolves the license choices of one component into a flat list.
pub fn extract_cyclonedx_licenses(licenses: &Licenses) -> (r: Result<Vec<String>, Error>)
    ensures
        match r {
            Ok(out) => choices_resolvable(licenses.0@) && resolved_licenses(
                licenses.0@,
                views_of(out@),
            ),
            Err(e) => e is SpdxExpression && !choices_resolvable(licenses.0@),
        },
{
    let ghost chs = licenses.0@;
    let n = licenses.0.len();
    let mut out: Vec<String> = Vec::new();
    let ghost mut segs: Seq<Seq<Seq<char>>> = Seq::empty();
    let mut i: usize = 0;
    proof {
        assert(segs.flatten() =~= Seq::<Seq<char>>::empty());
        assert(views_of(out@) =~= Seq::<Seq<char>>::empty());
    }
    while i < n
        invariant
            n == chs.len(),
            chs == licenses.0@,
            i <= n,
            forall|j: int| 0 <= j < i ==> choice_resolvable(#[trigger] chs[j]),
            segs.len() == i,
            forall|j: int| 0 <= j < i ==> choice_licenses_ok(#[trigger] chs[j], segs[j]),
            views_of(out@) == segs.flatten(),
        decreases n - i,
    {
        let ghost prev = views_of(out@);
        let ghost prev_segs = segs;
        match &licenses.0[i] {
            LicenseChoice::License(l) => {
                match &l.id {
                    Some(id) => {
                        out.push(id.clone());
                        proof {
                            assert(views_of(out@) =~= prev.push(id@));
                            assert(views_of(out@) =~= prev + seq![id@]);
                            segs = segs.push(seq![id@]);
                        }
                    },
                    None => match &l.name {
                        Some(nm) => {
                            out.push(nm.clone());
                            proof {
                                assert(views_of(out@) =~= prev.push(nm@));
                                assert(views_of(out@) =~= prev + seq![nm@]);
                                segs = segs.push(seq![nm@]);
                            }
                        },
                        None => {
                            proof {
                                assert(views_of(out@) =~= prev + Seq::<Seq<char>>::empty());
                                segs = segs.push(Seq::empty());
                            }
                        },
                    },
                }
            },
            LicenseChoice::Expression(e) => {
                match parse_license_expression(e.as_str()) {
                    Ok(ids) => {
                        let ghost idv = views_of(ids@);
                        let mut ids_mut = ids;
                        out.append(&mut ids_mut);
                        proof {
                            assert(views_of(out@) =~= prev + idv);
                            segs = segs.push(idv);
                        }
                    },
                    Err(err) => {
                        proof {
                            assert(!choice_resolvable(chs[i as int]));
                        }
                        return Err(err);
                    },
                }
            },
        }
        proof {
            prev_segs.lemma_flatten_push(segs.last());
            assert(views_of(out@) == segs.flatten());
        }
        i = i + 1;
    }
    proof {
        assert(segs_ok(chs, segs));
    }
    Ok(out)
}

/// One material extracted from one component of the tree.
pub open spec fn component_material_ok(c: Component, m: Material) -> bool {
    &&& m.wf()
    &&& m.name@ == c.name@
    &&& opt_view(m.version) == opt_view(c.version)
    &&& m.annotations@.len() == 0
    &&& match c.licenses {
        None => m.licenses@.len() == 0,
        Some(l) => choices_resolvable(l.0@) && resolved_licenses(l.0@, views_of(m.licenses@)),
    }
}

/// The direct children of a component, an empty sequence when it has none.
pub open spec fn component_subs(c: Component) -> Seq<Component> {
    match c.components {
        Some(cs) => cs.0@,
        None => Seq::empty(),
    }
}

/// A component sequence decreases to its head's children.
proof fn lemma_comps_decrease(comps: Seq<Component>)
    requires
        comps.len() > 0,
    ensures
        decreases_to!(comps => component_subs(comps.first())),
{
    match comps.first().components {
        Some(cs) => {
            assert(decreases_to!(comps => comps[0]));
            assert(decreases_to!(comps[0] => comps[0].components));
            assert(decreases_to!(comps[0].components => cs));
            assert(decreases_to!(cs => cs.0));
            assert(decreases_to!(cs.0 => cs.0@));
            assert(decreases_to!(comps => cs.0@));
        },
        None => {
            assert(component_subs(comps.first()) =~= comps.subrange(0, 0));
            assert(decreases_to!(comps => comps.subrange(0, 0)));
        },
    }
}

/// The pre-order flattening of a component forest: each component stands
/// before its children, children before later siblings.
pub open spec fn flatten_components(comps: Seq<Component>) -> Seq<Component>
    decreases comps,
    via flatten_components_dec
{
    if comps.len() == 0 {
        Seq::empty()
    } else {
        seq![comps.first()] + flatten_components(component_subs(comps.first()))
            + flatten_components(comps.drop_first())
    }
}

#[via_fn]
proof fn flatten_components_dec(comps: Seq<Component>) {
    if comps.len() > 0 {
        lemma_comps_decrease(comps);
    }
}

/// The component's own license choices resolve.
pub open spec fn component_resolvable(c: Component) -> bool {
    match c.licenses {
        Some(l) => choices_resolvable(l.0@),
        None => true,
    }
}

/// Every license choice of the whole forest resolves.
pub open spec fn tree_resolvable(comps: Seq<Component>) -> bool {
    forall|i: int|
        0 <= i < flatten_components(comps).len() ==> component_resolvable(
            #[trigger] flatten_components(comps)[i],
        )
}

/// `ms` is the pre-order flattening of the forest: one material per
/// visited component, in visit order.
pub open spec fn flattened(comps: Seq<Component>, ms: Seq<Material>) -> bool {
    &&& ms.len() == flatten_components(comps).len()
    &&& forall|i: int|
        0 <= i < ms.len() ==> component_material_ok(
            flatten_components(comps)[i],
            #[trigger] ms[i],
        )
}

/// Walks the forest `list` from position `i` in pre-order, appending one
/// material per visited component.
fn walk_components(list: &Vec<Component>, i: usize, materials: &mut Vec<Material>) -> (r: Result<
    (),
    Error,
>)
    requires
        i <= list@.len(),
    ensures
        match r {
            Ok(_) => {
                &&& final(materials)@.len() >= old(materials)@.len()
                &&& final(materials)@.take(old(materials)@.len() as int) == old(materials)@
                &&& tree_resolvable(list@.skip(i as int))
                &&& flattened(
                    list@.skip(i as int),
                    final(materials)@.skip(old(materials)@.len() as int),
                )
            },
            Err(e) => e is SpdxExpression && !tree_resolvable(list@.skip(i as int)),
        },
    decreases list@, (list@.len() - i) as int,
{
    let ghost base = materials@;
    if i == list.len() {
        proof {
            assert(list@.skip(i as int).len() == 0);
            assert(materials@.take(base.len() as int) =~= base);
            assert(materials@.skip(base.len() as int) =~= Seq::<Material>::empty());
        }
        return Ok(());
    }
    let ghost rest = list@.skip(i as int);
    let ghost fc_rest = flatten_components(rest);
    let ghost subs = component_subs(rest.first());
    proof {
        assert(rest.first() == list@[i as int]);
        assert(rest.drop_first() =~= list@.skip(i + 1));
        assert(fc_rest == seq![rest.first()] + flatten_components(subs) + flatten_components(
            rest.drop_first(),
        ));
    }
    let c = &list[i];
    let licenses = match &c.licenses {
        Some(l) => match extract_cyclonedx_licenses(l) {
            Ok(v) => v,
            Err(e) => {
                proof {
                    assert(!component_resolvable(rest.first()));
                    assert(fc_rest[0] == rest.first());
                }
                return Err(e);
            },
        },
        None => Vec::new(),
    };
    let version = match &c.version {
        Some(v) => Some(v.clone()),
        None => None,
    };
    let m = Material { name: c.name.clone(), version, licenses, annotations: Vec::new() };
    proof {
        assert(views_of(Seq::<String>::empty()) =~= Seq::<Seq<char>>::empty());
        assert(component_material_ok(rest.first(), m));
    }
    materials.push(m);
    let ghost after_push = materials@;
    match &c.components {
        Some(cs) => {
            proof {
                assert(subs == cs.0@);
                assert(decreases_to!(list@ => list@[i as int]));
                assert(decreases_to!(list@[i as int] => list@[i as int].components));
                assert(decreases_to!(list@[i as int].components => *cs));
                assert(decreases_to!(*cs => cs.0));
                assert(decreases_to!(cs.0 => cs.0@));
                assert(decreases_to!(list@ => cs.0@));
            }
            match walk_components(&cs.0, 0, materials) {
                Ok(_) => {
                    proof {
                        assert(cs.0@.skip(0) =~= cs.0@);
                    }
                },
                Err(e) => {
                    proof {
                        assert(cs.0@.skip(0) =~= cs.0@);
                        let j = choose|j: int|
                            0 <= j < flatten_components(subs).len() && !component_resolvable(
                                #[trigger] flatten_components(subs)[j],
                            );
                        assert(fc_rest[1 + j] == flatten_components(subs)[j]);
                        assert(!tree_resolvable(rest));
                    }
                    return Err(e);
                },
            }
        },
        None => {
            proof {
                assert(subs =~= Seq::<Component>::empty());
                assert(flatten_components(subs) =~= Seq::<Component>::empty());
            }
        },
    }
    let ghost after_sub = materials@;
    let ghost sub_ms = after_sub.skip(after_push.len() as int);
    proof {
        assert(flattened(subs, sub_ms) && tree_resolvable(subs)) by {
            match list@[i as int].components {
                Some(_) => {},
                None => {
                    assert(after_sub == after_push);
                    assert(sub_ms =~= Seq::<Material>::empty());
                    assert(flatten_components(subs) =~= Seq::<Component>::empty());
                },
            }
        }
        assert(after_sub.take(after_push.len() as int) =~= after_push);
    }
    match walk_components(list, i + 1, materials) {
        Ok(_) => {},
        Err(e) => {
            proof {
                let j = choose|j: int|
                    0 <= j < flatten_components(list@.skip(i + 1)).len() && !component_resolvable(
                        #[trigger] flatten_components(list@.skip(i + 1))[j],
                    );
                assert(fc_rest[1 + flatten_components(subs).len() + j] == flatten_components(
                    list@.skip(i + 1),
                )[j]);
                assert(!tree_resolvable(rest));
            }
            return Err(e);
        },
    }
    let ghost fin = materials@;
    let ghost sib_ms = fin.skip(after_sub.len() as int);
    let ghost seg = fin.skip(base.len() as int);
    proof {
        assert(fin.take(after_sub.len() as int) =~= after_sub);
        assert(forall|j: int| 0 <= j < after_sub.len() ==> #[trigger] fin[j] == fin.take(
            after_sub.len() as int,
        )[j]);
        assert(forall|j: int| 0 <= j < after_push.len() ==> #[trigger] after_sub[j]
            == after_sub.take(after_push.len() as int)[j]);
        assert(after_push == base.push(m));
        assert(fin.take(base.len() as int) =~= base);
        let sublen = flatten_components(subs).len() as int;
        let siblen = flatten_components(rest.drop_first()).len() as int;
        assert(seg.len() == 1 + sub_ms.len() + sib_ms.len());
        assert(sub_ms.len() == sublen);
        assert(sib_ms.len() == siblen);
        assert(seg.first() == m);
        assert(seg.subrange(1, 1 + sublen) =~= sub_ms);
        assert(seg.skip(1 + sublen) =~= sib_ms);
        assert(fc_rest.len() == 1 + sublen + siblen);
        assert forall|k: int| 0 <= k < seg.len() implies component_material_ok(
            fc_rest[k],
            #[trigger] seg[k],
        ) by {
            if k == 0 {
                assert(fc_rest[0] == rest.first());
                assert(seg[0] == m);
            } else if k < 1 + sublen {
                assert(fc_rest[k] == flatten_components(subs)[k - 1]);
                assert(seg[k] == seg.subrange(1, 1 + sublen)[k - 1]);
                assert(component_material_ok(flatten_components(subs)[k - 1], sub_ms[k - 1]));
            } else {
                assert(fc_rest[k] == flatten_components(rest.drop_first())[k - 1 - sublen]);
                assert(seg[k] == seg.skip(1 + sublen)[k - 1 - sublen]);
                assert(component_material_ok(
                    flatten_components(rest.drop_first())[k - 1 - sublen],
                    sib_ms[k - 1 - sublen],
                ));
            }
        }
        assert forall|k: int| 0 <= k < fc_rest.len() implies component_resolvable(
            #[trigger] fc_rest[k],
        ) by {
            if k == 0 {
                assert(fc_rest[0] == rest.first());
            } else if k < 1 + sublen {
                assert(fc_rest[k] == flatten_components(subs)[k - 1]);
            } else {
                assert(fc_rest[k] == flatten_components(rest.drop_first())[k - 1 - sublen]);
            }
        }
        assert(flattened(rest, seg));
    }
    Ok(())
}

/// Walks a component list in pre-order, appending one material for each
/// visited component to `materials`.
pub fn extract_cyclonedx_components(components: &Components, materials: &mut Vec<Material>) -> (r:
    Result<(), Error>)
    ensures
        match r {
            Ok(_) => {
                &&& final(materials)@.len() >= old(materials)@.len()
                &&& final(materials)@.take(old(materials)@.len() as int) == old(materials)@
                &&& tree_resolvable(components.0@)
                &&& flattened(components.0@, final(materials)@.skip(old(materials)@.len() as int))
            },
            Err(e) => e is SpdxExpression && !tree_resolvable(components.0@),
        },
{
    proof {
        assert(components.0@.skip(0) =~= components.0@);
    }
    walk_components(&components.0, 0, materials)
}

/// What extracting a bill of materials must yield: the pre-order
/// flattening of its component forest, or nothing at all when some license
/// expression fails to parse.
pub open spec fn cdx_extract_ok(b: Bom, r: Result<Vec<Material>, Error>) -> bool {
    match b.components {
        None => r matches Ok(ms) && ms@.len() == 0,
        Some(cs) => {
            if tree_resolvable(cs.0@) {
                r matches Ok(ms) && flattened(cs.0@, ms@)
            } else {
                r matches Err(e) && e is SpdxExpression
            }
        },
    }
}

/// Flattens a bill of materials into its material sequence.
pub fn extract_cyclonedx(bom: &Bom) -> (r: Result<Vec<Material>, Error>)
    ensures
        cdx_extract_ok(*bom, r),
{
    let mut materials: Vec<Material> = Vec::new();
    match &bom.components {
        Some(cs) => match extract_cyclonedx_components(cs, &mut materials) {
            Ok(_) => {
                proof {
                    assert(materials@.skip(0) =~= materials@);
                }
                Ok(materials)
            },
            Err(e) => Err(e),
        },
        None => Ok(materials),
    }
}

/// Loads materials from CycloneDX JSON bytes.
pub fn load_materials_cyclonedx_json(data: &[u8]) -> (r: Result<Vec<Material>, Error>)
    ensures
        match json_tree_of(data@) {
            None => r matches Err(e) && e is SerdeJson,
            Some(tree) => {
                if json_bom_ok(tree) {
                    exists|b: Bom| #[trigger] bom_matches_json(tree, b) && cdx_extract_ok(b, r)
                } else {
                    r matches Err(e) && e is SerdeJson
                }
            },
        },
{
    match load_json_file(data) {
        Ok(bom) => {
            let r = extract_cyclonedx(&bom);
            proof {
                let tree = json_tree_of(data@).unwrap();
                assert(bom_matches_json(tree, bom) && cdx_extract_ok(bom, r));
            }
            r
        },
        Err(e) => Err(e),
    }
}

/// Loads materials from CycloneDX XML bytes.
pub fn load_materials_cyclonedx_xml(data: &[u8]) -> (r: Result<Vec<Material>, Error>)
    ensures
        match xml_tree_of(data@) {
            None => r matches Err(e) && e is Minidom,
            Some(root) => {
                if xml_bom_ok(root) {
                    exists|b: Bom| #[trigger] bom_matches_xml(root, b) && cdx_extract_ok(b, r)
                } else {
                    r matches Err(e) && e is ParseInt
                }
            },
        },
{
    match load_xml_file(data) {
        Ok(bom) => {
            let r = extract_cyclonedx(&bom);
            proof {
                let root = xml_tree_of(data@).unwrap();
                assert(bom_matches_xml(root, bom) && cdx_extract_ok(bom, r));
            }
            r
        },
        Err(e) => Err(e),
    }
}

/// Loads the material sequence of a source, parsed according to its
/// format; a YAML SPDX source is parsed by the JSON reader.
pub fn load_materials(data: &[u8], source_type: &SourceType) -> (r: Result<Vec<Material>, Error>)
    ensures
        match source_type {
            SourceType::Tsv => tsv_load_ok(data@, r),
            SourceType::SpdxTag => spdx_tag_load_ok(data@, r),
            SourceType::SpdxJson | SourceType::SpdxYaml => match spdx_json_doc_of(data@) {
                None => r matches Err(e) && e is SerdeJson,
                Some(vs) => r matches Ok(ms) && spdx_materials_ok(vs, ms@),
            },
            SourceType::CycloneDxJson => match json_tree_of(data@) {
                None => r matches Err(e) && e is SerdeJson,
                Some(tree) => {
                    if json_bom_ok(tree) {
                        exists|b: Bom| #[trigger] bom_matches_json(tree, b) && cdx_extract_ok(
                            b,
                            r,
                        )
                    } else {
                        r matches Err(e) && e is SerdeJson
                    }
                },
            },
            SourceType::CycloneDxXml => match xml_tree_of(data@) {
                None => r matches Err(e) && e is Minidom,
                Some(root) => {
                    if xml_bom_ok(root) {
                        exists|b: Bom| #[trigger] bom_matches_xml(root, b) && cdx_extract_ok(
                            b,
                            r,
                        )
                    } else {
                        r matches Err(e) && e is ParseInt
                    }
                },
            },
        },
{
    match source_type {
        SourceType::Tsv => load_materials_tsv(data),
        SourceType::SpdxTag => load_materials_spdx_tag(data),
        SourceType::SpdxJson => load_materials_spdx_json(data),
        SourceType::SpdxYaml => load_materials_spdx_json(data),
        SourceType::CycloneDxJson => load_materials_cyclonedx_json(data),
        SourceType::CycloneDxXml => load_materials_cyclonedx_xml(data),
    }
}

} // verus!
