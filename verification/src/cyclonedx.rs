use vstd::prelude::*;
use vstd::string::StrSliceExecFns;

use crate::error::Error;
use crate::json::{json_get, json_tree_of, lemma_json_get_member, obj_get, parse_json, JsonValue};
use crate::strutil::{opt_view, str_eq};
use crate::xml::{attr_get, node_attr, parse_xml, xml_tree_of, XmlNode};

verus! {

/// The format marker of a bill-of-materials document.
#[derive(Debug, Clone, PartialEq, Eq, Structural)]
pub enum BomFormat {
    CycloneDX,
}

/// A CycloneDX bill of materials, reduced to the fields this pipeline
/// consumes.
pub struct Bom {
    pub bom_format: BomFormat,
    pub spec_version: String,
    pub serial_number: Option<String>,
    pub version: u32,
    pub components: Option<Components>,
}

/// An ordered list of components.
pub struct Components(pub Vec<Component>);

/// One node of the recursive component tree.
pub struct Component {
    pub component_type: String,
    pub name: String,
    pub version: Option<String>,
    pub licenses: Option<Licenses>,
    pub components: Option<Components>,
}

/// An ordered list of license choices.
pub struct Licenses(pub Vec<LicenseChoice>);

/// Either a single named license or an SPDX license expression.
pub enum LicenseChoice {
    License(License),
    Expression(String),
}

/// A single license, named by identifier or by free-form name.
#[derive(Debug, Clone)]
pub struct License {
    pub id: Option<String>,
    pub name: Option<String>,
}

/// Every character of `t` is a decimal digit, and there is at least one.
pub open spec fn digits_ok(t: Seq<char>) -> bool {
    t.len() > 0 && forall|i: int| 0 <= i < t.len() ==> '0' <= #[trigger] t[i] && t[i] <= '9'
}

/// The value of a digit sequence read in base ten.
pub open spec fn digits_val(t: Seq<char>) -> int
    decreases t.len(),
{
    if t.len() == 0 {
        0
    } else {
        digits_val(t.drop_last()) * 10 + (t.last() as int - '0' as int)
    }
}

/// The digit part of an unsigned decimal literal: an optional leading plus
/// sign is dropped.
pub open spec fn u32_digits(s: Seq<char>) -> Seq<char> {
    if s.len() > 0 && s[0] == '+' {
        s.drop_first()
    } else {
        s
    }
}

/// What `str::parse::<u32>` yields: the base-ten value of the digits after
/// an optional plus sign, or nothing when a character is not a digit, no
/// digit is present, or the value overflows.
pub open spec fn spec_parse_u32(s: Seq<char>) -> Option<u32> {
    let t = u32_digits(s);
    if !digits_ok(t) {
        None
    } else if digits_val(t) > u32::MAX {
        None
    } else {
        Some(digits_val(t) as u32)
    }
}

/// A digit sequence has a non-negative value.
proof fn lemma_digits_val_nonneg(t: Seq<char>)
    requires
        forall|i: int| 0 <= i < t.len() ==> '0' <= #[trigger] t[i] && t[i] <= '9',
    ensures
        digits_val(t) >= 0,
    decreases t.len(),
{
    if t.len() > 0 {
        lemma_digits_val_nonneg(t.drop_last());
    }
}

/// Reading more digits never lowers the value.
proof fn lemma_digits_val_mono(t: Seq<char>, k: int)
    requires
        0 <= k <= t.len(),
        forall|i: int| 0 <= i < t.len() ==> '0' <= #[trigger] t[i] && t[i] <= '9',
    ensures
        digits_val(t) >= digits_val(t.take(k)),
    decreases t.len() - k,
{
    if k == t.len() {
        assert(t.take(k) =~= t);
    } else {
        lemma_digits_val_nonneg(t.drop_last());
        assert(t.drop_last().take(k) =~= t.take(k));
        lemma_digits_val_mono(t.drop_last(), k);
    }
}

/// Parses an unsigned 32-bit decimal literal as the standard library does.
pub fn parse_u32(s: &str) -> (r: Option<u32>)
    ensures
        r == spec_parse_u32(s@),
{
    let n = s.unicode_len();
    let start: usize = if n > 0 && s.get_char(0) == '+' {
        1
    } else {
        0
    };
    let ghost t = u32_digits(s@);
    proof {
        assert(t =~= s@.skip(start as int));
    }
    if n == start {
        return None;
    }
    let mut acc: u64 = 0;
    let mut i: usize = start;
    while i < n
        invariant
            n == s@.len(),
            start <= i <= n,
            start < n,
            t == u32_digits(s@),
            t =~= s@.skip(start as int),
            acc <= u32::MAX,
            forall|j: int| 0 <= j < i - start ==> '0' <= #[trigger] t[j] && t[j] <= '9',
            acc == digits_val(t.take(i - start)),
        decreases n - i,
    {
        let c = s.get_char(i);
        proof {
            assert(t[i - start] == s@[i as int]);
        }
        if !('0' <= c && c <= '9') {
            proof {
                assert(!digits_ok(t));
            }
            return None;
        }
        let d: u64 = (c as u32 - '0' as u32) as u64;
        proof {
            assert(t.take(i + 1 - start).drop_last() =~= t.take(i - start));
            assert(t.take(i + 1 - start).last() == t[i - start]);
        }
        acc = acc * 10 + d;
        if acc > u32::MAX as u64 {
            proof {
                if digits_ok(t) {
                    lemma_digits_val_mono(t, i + 1 - start);
                    assert(digits_val(t) > u32::MAX);
                }
            }
            return None;
        }
        i = i + 1;
    }
    proof {
        assert(t.take(n - start) =~= t);
        assert(digits_ok(t));
    }
    Some(acc as u32)
}

/// The member `key` holds the string `x`.
pub open spec fn req_str_matches(ms: Seq<(String, JsonValue)>, key: Seq<char>, x: Seq<char>) -> bool {
    match json_get(ms, key) {
        Some(JsonValue::Str(s)) => s@ == x,
        _ => false,
    }
}

/// The member `key` is present and holds a string.
pub open spec fn req_str_ok(ms: Seq<(String, JsonValue)>, key: Seq<char>) -> bool {
    json_get(ms, key) matches Some(JsonValue::Str(_))
}

/// The member `key` denotes the optional string `o`: an absent or null
/// member denotes `None`.
pub open spec fn opt_str_matches(
    ms: Seq<(String, JsonValue)>,
    key: Seq<char>,
    o: Option<Seq<char>>,
) -> bool {
    match json_get(ms, key) {
        None => o is None,
        Some(JsonValue::Null) => o is None,
        Some(JsonValue::Str(s)) => o == Some(s@),
        Some(_) => false,
    }
}

/// The member `key` is absent, null, or a string.
pub open spec fn opt_str_ok(ms: Seq<(String, JsonValue)>, key: Seq<char>) -> bool {
    match json_get(ms, key) {
        None => true,
        Some(JsonValue::Null) => true,
        Some(JsonValue::Str(_)) => true,
        Some(_) => false,
    }
}

/// The license that a JSON object denotes.
pub open spec fn license_matches_json(v: JsonValue, l: License) -> bool {
    match v {
        JsonValue::Obj(ms) => opt_str_matches(ms@, "id"@, opt_view(l.id)) && opt_str_matches(
            ms@,
            "name"@,
            opt_view(l.name),
        ),
        _ => false,
    }
}

/// The JSON value is a well-formed license object.
pub open spec fn json_license_ok(v: JsonValue) -> bool {
    match v {
        JsonValue::Obj(ms) => opt_str_ok(ms@, "id"@) && opt_str_ok(ms@, "name"@),
        _ => false,
    }
}

/// The license choice that a JSON object denotes: an object with exactly
/// one member, named either `license` or `expression`.
pub open spec fn choice_matches_json(v: JsonValue, ch: LicenseChoice) -> bool {
    match v {
        JsonValue::Obj(ms) => ms@.len() == 1 && (if ms@[0].0@ == "license"@ {
            ch matches LicenseChoice::License(l) && license_matches_json(ms@[0].1, l)
        } else if ms@[0].0@ == "expression"@ {
            ms@[0].1 matches JsonValue::Str(s) && ch matches LicenseChoice::Expression(e) && e@
                == s@
        } else {
            false
        }),
        _ => false,
    }
}

/// The JSON value is a well-formed license choice.
pub open spec fn json_choice_ok(v: JsonValue) -> bool {
    match v {
        JsonValue::Obj(ms) => ms@.len() == 1 && (ms@[0].0@ == "license"@ && json_license_ok(
            ms@[0].1,
        ) || ms@[0].0@ == "expression"@ && ms@[0].1 matches JsonValue::Str(_)),
        _ => false,
    }
}

/// Each JSON item denotes the license choice at the same position.
pub open spec fn choices_match_json(items: Seq<JsonValue>, chs: Seq<LicenseChoice>) -> bool
    decreases chs.len(),
{
    if items.len() != chs.len() {
        false
    } else if chs.len() == 0 {
        true
    } else {
        choices_match_json(items.drop_last(), chs.drop_last()) && choice_matches_json(
            items.last(),
            chs.last(),
        )
    }
}

/// Every JSON item is a well-formed license choice.
pub open spec fn json_choices_ok(items: Seq<JsonValue>) -> bool
    decreases items.len(),
{
    if items.len() == 0 {
        true
    } else {
        json_choices_ok(items.drop_last()) && json_choice_ok(items.last())
    }
}

/// The component that a JSON object denotes: required `type` and `name`
/// strings, an optional `version` string, and optional `licenses` and
/// `components` arrays; unknown members are ignored.
pub open spec fn component_matches_json(v: JsonValue, c: Component) -> bool
    decreases c, 1int,
    via component_matches_json_dec
{
    match v {
        JsonValue::Obj(ms) => {
            &&& req_str_matches(ms@, "type"@, c.component_type@)
            &&& req_str_matches(ms@, "name"@, c.name@)
            &&& opt_str_matches(ms@, "version"@, opt_view(c.version))
            &&& match json_get(ms@, "licenses"@) {
                None => c.licenses is None,
                Some(JsonValue::Null) => c.licenses is None,
                Some(JsonValue::Arr(items)) => c.licenses matches Some(ls) && choices_match_json(
                    items@,
                    ls.0@,
                ),
                Some(_) => false,
            }
            &&& match json_get(ms@, "components"@) {
                None => c.components is None,
                Some(JsonValue::Null) => c.components is None,
                Some(JsonValue::Arr(items)) => c.components matches Some(cs)
                    && components_match_json(items@, cs.0@),
                Some(_) => false,
            }
        },
        _ => false,
    }
}

#[via_fn]
proof fn component_matches_json_dec(v: JsonValue, c: Component) {
    match c.components {
        Some(cs) => {
            assert(decreases_to!(c => c.components));
            assert(decreases_to!(c.components => cs));
            assert(decreases_to!(cs => cs.0));
            assert(decreases_to!(cs.0 => cs.0@));
            assert(decreases_to!(c => cs.0@));
        },
        None => {},
    }
}

/// Each JSON item denotes the component at the same position.
pub open spec fn components_match_json(items: Seq<JsonValue>, cs: Seq<Component>) -> bool
    decreases cs, 0int,
{
    if items.len() != cs.len() {
        false
    } else if cs.len() == 0 {
        true
    } else {
        components_match_json(items.drop_last(), cs.drop_last()) && component_matches_json(
            items.last(),
            cs.last(),
        )
    }
}

/// The JSON value is a well-formed component object.
pub open spec fn json_component_ok(v: JsonValue) -> bool
    decreases v, 1int,
    via json_component_ok_dec
{
    match v {
        JsonValue::Obj(ms) => {
            &&& req_str_ok(ms@, "type"@)
            &&& req_str_ok(ms@, "name"@)
            &&& opt_str_ok(ms@, "version"@)
            &&& match json_get(ms@, "licenses"@) {
                None => true,
                Some(JsonValue::Null) => true,
                Some(JsonValue::Arr(items)) => json_choices_ok(items@),
                Some(_) => false,
            }
            &&& match json_get(ms@, "components"@) {
                None => true,
                Some(JsonValue::Null) => true,
                Some(JsonValue::Arr(items)) => json_components_ok(items@),
                Some(_) => false,
            }
        },
        _ => false,
    }
}

#[via_fn]
proof fn json_component_ok_dec(v: JsonValue) {
    match v {
        JsonValue::Obj(ms) => {
            lemma_json_get_member(ms@, "components"@);
            match json_get(ms@, "components"@) {
                Some(x) => match x {
                    JsonValue::Arr(items) => {
                        let j = choose|j: int| 0 <= j < ms@.len() && #[trigger] ms@[j].1 == x;
                        assert(decreases_to!(v => ms));
                        assert(decreases_to!(ms => ms@));
                        assert(decreases_to!(ms@ => ms@[j]));
                        assert(decreases_to!(ms@[j] => ms@[j].1));
                        assert(decreases_to!(ms@[j].1 => items));
                        assert(decreases_to!(items => items@));
                        assert(decreases_to!(v => items@));
                    },
                    _ => {},
                },
                None => {},
            }
        },
        _ => {},
    }
}

/// Every JSON item is a well-formed component object.
pub open spec fn json_components_ok(items: Seq<JsonValue>) -> bool
    decreases items, 0int,
{
    if items.len() == 0 {
        true
    } else {
        json_components_ok(items.drop_last()) && json_component_ok(items.last())
    }
}

/// The bill of materials that a JSON object denotes.
pub open spec fn bom_matches_json(v: JsonValue, b: Bom) -> bool {
    match v {
        JsonValue::Obj(ms) => {
            &&& b.bom_format == BomFormat::CycloneDX
            &&& req_str_matches(ms@, "bomFormat"@, "CycloneDX"@)
            &&& req_str_matches(ms@, "specVersion"@, b.spec_version@)
            &&& opt_str_matches(ms@, "serialNumber"@, opt_view(b.serial_number))
            &&& match json_get(ms@, "version"@) {
                Some(JsonValue::UInt(n)) => n == b.version as u64,
                _ => false,
            }
            &&& match json_get(ms@, "components"@) {
                None => b.components is None,
                Some(JsonValue::Null) => b.components is None,
                Some(JsonValue::Arr(items)) => b.components matches Some(cs)
                    && components_match_json(items@, cs.0@),
                Some(_) => false,
            }
        },
        _ => false,
    }
}

/// The JSON value is a well-formed bill of materials.
pub open spec fn json_bom_ok(v: JsonValue) -> bool {
    match v {
        JsonValue::Obj(ms) => {
            &&& req_str_matches(ms@, "bomFormat"@, "CycloneDX"@)
            &&& req_str_ok(ms@, "specVersion"@)
            &&& opt_str_ok(ms@, "serialNumber"@)
            &&& match json_get(ms@, "version"@) {
                Some(JsonValue::UInt(n)) => n <= u32::MAX,
                _ => false,
            }
            &&& match json_get(ms@, "components"@) {
                None => true,
                Some(JsonValue::Null) => true,
                Some(JsonValue::Arr(items)) => json_components_ok(items@),
                Some(_) => false,
            }
        },
        _ => false,
    }
}

/// Reads an optional string member: absent or null yields `None`.
fn opt_str_from_json(ms: &Vec<(String, JsonValue)>, key: &str) -> (r: Result<
    Option<String>,
    Error,
>)
    ensures
        match r {
            Ok(o) => opt_str_matches(ms@, key@, opt_view(o)) && opt_str_ok(ms@, key@),
            Err(e) => e is SerdeJson && !opt_str_ok(ms@, key@),
        },
{
    match obj_get(ms, key) {
        None => Ok(None),
        Some(x) => match x {
            JsonValue::Null => Ok(None),
            JsonValue::Str(s) => Ok(Some(s.clone())),
            _ => Err(Error::SerdeJson("a string member was expected".to_owned())),
        },
    }
}

/// Reads a required string member.
fn req_str_from_json(ms: &Vec<(String, JsonValue)>, key: &str) -> (r: Result<String, Error>)
    ensures
        match r {
            Ok(s) => req_str_matches(ms@, key@, s@) && req_str_ok(ms@, key@),
            Err(e) => e is SerdeJson && !req_str_ok(ms@, key@),
        },
{
    match obj_get(ms, key) {
        None => Err(Error::SerdeJson("a required member is missing".to_owned())),
        Some(x) => match x {
            JsonValue::Str(s) => Ok(s.clone()),
            _ => Err(Error::SerdeJson("a string member was expected".to_owned())),
        },
    }
}

/// Maps one JSON object to a license.
fn license_from_json(v: &JsonValue) -> (r: Result<License, Error>)
    ensures
        match r {
            Ok(l) => license_matches_json(*v, l) && json_license_ok(*v),
            Err(e) => e is SerdeJson && !json_license_ok(*v),
        },
{
    match v {
        JsonValue::Obj(ms) => {
            let id = match opt_str_from_json(ms, "id") {
                Ok(o) => o,
                Err(e) => {
                    return Err(e);
                },
            };
            let name = match opt_str_from_json(ms, "name") {
                Ok(o) => o,
                Err(e) => {
                    return Err(e);
                },
            };
            Ok(License { id, name })
        },
        _ => Err(Error::SerdeJson("a license must be an object".to_owned())),
    }
}

/// Maps one JSON object to a license choice.
fn choice_from_json(v: &JsonValue) -> (r: Result<LicenseChoice, Error>)
    ensures
        match r {
            Ok(ch) => choice_matches_json(*v, ch) && json_choice_ok(*v),
            Err(e) => e is SerdeJson && !json_choice_ok(*v),
        },
{
    proof {
        reveal_strlit("license");
        reveal_strlit("expression");
        assert("license"@.len() == 7);
        assert("expression"@.len() == 10);
        assert("license"@ != "expression"@);
    }
    match v {
        JsonValue::Obj(ms) => {
            if ms.len() != 1 {
                return Err(Error::SerdeJson("a license choice holds one member".to_owned()));
            }
            if str_eq(ms[0].0.as_str(), "license") {
                match license_from_json(&ms[0].1) {
                    Ok(l) => Ok(LicenseChoice::License(l)),
                    Err(e) => Err(e),
                }
            } else if str_eq(ms[0].0.as_str(), "expression") {
                match &ms[0].1 {
                    JsonValue::Str(s) => Ok(LicenseChoice::Expression(s.clone())),
                    _ => Err(Error::SerdeJson("an expression must be a string".to_owned())),
                }
            } else {
                Err(Error::SerdeJson("an unknown license choice variant".to_owned()))
            }
        },
        _ => Err(Error::SerdeJson("a license choice must be an object".to_owned())),
    }
}

/// Maps the first `n` JSON items to license choices.
fn choices_from_json(items: &Vec<JsonValue>, n: usize) -> (r: Result<Vec<LicenseChoice>, Error>)
    requires
        n <= items@.len(),
    ensures
        match r {
            Ok(chs) => choices_match_json(items@.take(n as int), chs@) && json_choices_ok(
                items@.take(n as int),
            ),
            Err(e) => e is SerdeJson && !json_choices_ok(items@.take(n as int)),
        },
    decreases n,
{
    if n == 0 {
        proof {
            assert(items@.take(0).len() == 0);
        }
        return Ok(Vec::new());
    }
    proof {
        assert(items@.take(n as int).drop_last() =~= items@.take(n - 1));
        assert(items@.take(n as int).last() == items@[n - 1]);
    }
    let mut chs = match choices_from_json(items, n - 1) {
        Ok(c) => c,
        Err(e) => {
            return Err(e);
        },
    };
    match choice_from_json(&items[n - 1]) {
        Ok(ch) => {
            let ghost prev = chs@;
            chs.push(ch);
            proof {
                assert(chs@.drop_last() =~= prev);
            }
            Ok(chs)
        },
        Err(e) => Err(e),
    }
}

/// Maps the first `n` JSON items to components.
fn components_from_json(items: &Vec<JsonValue>, n: usize) -> (r: Result<Vec<Component>, Error>)
    requires
        n <= items@.len(),
    ensures
        match r {
            Ok(cs) => components_match_json(items@.take(n as int), cs@) && json_components_ok(
                items@.take(n as int),
            ),
            Err(e) => e is SerdeJson && !json_components_ok(items@.take(n as int)),
        },
    decreases items@, n as int,
{
    if n == 0 {
        proof {
            assert(items@.take(0).len() == 0);
        }
        return Ok(Vec::new());
    }
    proof {
        assert(items@.take(n as int).drop_last() =~= items@.take(n - 1));
        assert(items@.take(n as int).last() == items@[n - 1]);
    }
    let mut cs = match components_from_json(items, n - 1) {
        Ok(c) => c,
        Err(e) => {
            return Err(e);
        },
    };
    proof {
        assert(decreases_to!(items@ => items@[n - 1]));
    }
    match component_from_json(&items[n - 1]) {
        Ok(c) => {
            let ghost prev = cs@;
            cs.push(c);
            proof {
                assert(cs@.drop_last() =~= prev);
            }
            Ok(cs)
        },
        Err(e) => Err(e),
    }
}

/// Maps one JSON object to a component of the tree.
fn component_from_json(v: &JsonValue) -> (r: Result<Component, Error>)
    ensures
        match r {
            Ok(c) => component_matches_json(*v, c) && json_component_ok(*v),
            Err(e) => e is SerdeJson && !json_component_ok(*v),
        },
    decreases *v, 1int,
{
    match v {
        JsonValue::Obj(ms) => {
            let component_type = match req_str_from_json(ms, "type") {
                Ok(s) => s,
                Err(e) => {
                    return Err(e);
                },
            };
            let name = match req_str_from_json(ms, "name") {
                Ok(s) => s,
                Err(e) => {
                    return Err(e);
                },
            };
            let version = match opt_str_from_json(ms, "version") {
                Ok(o) => o,
                Err(e) => {
                    return Err(e);
                },
            };
            let licenses = match obj_get(ms, "licenses") {
                None => None,
                Some(x) => match x {
                    JsonValue::Null => None,
                    JsonValue::Arr(items) => match choices_from_json(items, items.len()) {
                        Ok(chs) => {
                            proof {
                                assert(items@.take(items@.len() as int) =~= items@);
                            }
                            Some(Licenses(chs))
                        },
                        Err(e) => {
                            proof {
                                assert(items@.take(items@.len() as int) =~= items@);
                            }
                            return Err(e);
                        },
                    },
                    _ => {
                        return Err(Error::SerdeJson("licenses must be an array".to_owned()));
                    },
                },
            };
            let components = match obj_get(ms, "components") {
                None => None,
                Some(x) => match x {
                    JsonValue::Null => None,
                    JsonValue::Arr(items) => {
                        proof {
                            lemma_json_get_member(ms@, "components"@);
                            let j = choose|j: int|
                                0 <= j < ms@.len() && #[trigger] ms@[j].1 == *x;
                            assert(decreases_to!(*v => *ms));
                            assert(decreases_to!(*ms => ms@));
                            assert(decreases_to!(ms@ => ms@[j]));
                            assert(decreases_to!(ms@[j] => ms@[j].1));
                            assert(decreases_to!(ms@[j].1 => *items));
                            assert(decreases_to!(*items => items@));
                            assert(decreases_to!(*v => items@));
                        }
                        match components_from_json(items, items.len()) {
                            Ok(cs) => {
                                proof {
                                    assert(items@.take(items@.len() as int) =~= items@);
                                }
                                Some(Components(cs))
                            },
                            Err(e) => {
                                proof {
                                    assert(items@.take(items@.len() as int) =~= items@);
                                }
                                return Err(e);
                            },
                        }
                    },
                    _ => {
                        return Err(Error::SerdeJson("components must be an array".to_owned()));
                    },
                },
            };
            Ok(Component { component_type, name, version, licenses, components })
        },
        _ => Err(Error::SerdeJson("a component must be an object".to_owned())),
    }
}

/// Maps one JSON value to a bill of materials.
pub fn bom_from_json(v: &JsonValue) -> (r: Result<Bom, Error>)
    ensures
        match r {
            Ok(b) => bom_matches_json(*v, b) && json_bom_ok(*v),
            Err(e) => e is SerdeJson && !json_bom_ok(*v),
        },
{
    match v {
        JsonValue::Obj(ms) => {
            let format_name = match req_str_from_json(ms, "bomFormat") {
                Ok(s) => s,
                Err(e) => {
                    return Err(e);
                },
            };
            if !str_eq(format_name.as_str(), "CycloneDX") {
                return Err(Error::SerdeJson("an unknown bomFormat value".to_owned()));
            }
            let spec_version = match req_str_from_json(ms, "specVersion") {
                Ok(s) => s,
                Err(e) => {
                    return Err(e);
                },
            };
            let serial_number = match opt_str_from_json(ms, "serialNumber") {
                Ok(o) => o,
                Err(e) => {
                    return Err(e);
                },
            };
            let version: u32 = match obj_get(ms, "version") {
                Some(x) => match x {
                    JsonValue::UInt(n) => {
                        if *n <= u32::MAX as u64 {
                            *n as u32
                        } else {
                            return Err(Error::SerdeJson("version does not fit".to_owned()));
                        }
                    },
                    _ => {
                        return Err(Error::SerdeJson("version must be an integer".to_owned()));
                    },
                },
                None => {
                    return Err(Error::SerdeJson("a required member is missing".to_owned()));
                },
            };
            let components = match obj_get(ms, "components") {
                None => None,
                Some(x) => match x {
                    JsonValue::Null => None,
                    JsonValue::Arr(items) => match components_from_json(items, items.len()) {
                        Ok(cs) => {
                            proof {
                                assert(items@.take(items@.len() as int) =~= items@);
                            }
                            Some(Components(cs))
                        },
                        Err(e) => {
                            proof {
                                assert(items@.take(items@.len() as int) =~= items@);
                            }
                            return Err(e);
                        },
                    },
                    _ => {
                        return Err(Error::SerdeJson("components must be an array".to_owned()));
                    },
                },
            };
            Ok(
                Bom {
                    bom_format: BomFormat::CycloneDX,
                    spec_version,
                    serial_number,
                    version,
                    components,
                },
            )
        },
        _ => Err(Error::SerdeJson("a document must be an object".to_owned())),
    }
}

/// The last child element with the local name `name`, if any: a later
/// sibling overrides an earlier one, as the element walk assigns in order.
pub open spec fn xml_child_last(children: Seq<XmlNode>, name: Seq<char>) -> Option<XmlNode>
    decreases children.len(),
{
    if children.len() == 0 {
        None
    } else if children.last().name@ == name {
        Some(children.last())
    } else {
        xml_child_last(children.drop_last(), name)
    }
}

/// The first child element with the local name `name`, if any.
pub open spec fn xml_child_first(children: Seq<XmlNode>, name: Seq<char>) -> Option<XmlNode>
    decreases children.len(),
{
    if children.len() == 0 {
        None
    } else if children.first().name@ == name {
        Some(children.first())
    } else {
        xml_child_first(children.drop_first(), name)
    }
}

/// A child found by `xml_child_last` stands somewhere among the children.
proof fn lemma_xml_child_last_member(children: Seq<XmlNode>, name: Seq<char>)
    ensures
        xml_child_last(children, name) matches Some(c) ==> exists|j: int|
            0 <= j < children.len() && #[trigger] children[j] == c,
    decreases children.len(),
{
    if children.len() > 0 {
        if children.last().name@ == name {
            assert(children[children.len() - 1] == xml_child_last(children, name).unwrap());
        } else {
            lemma_xml_child_last_member(children.drop_last(), name);
            match xml_child_last(children, name) {
                Some(c) => {
                    let j = choose|j: int|
                        0 <= j < children.drop_last().len() && #[trigger] children.drop_last()[j]
                            == c;
                    assert(children[j] == c);
                },
                None => {},
            }
        }
    }
}

/// Finds the last child with the local name `name`.
fn node_child_last<'a>(children: &'a Vec<XmlNode>, name: &str) -> (r: Option<&'a XmlNode>)
    ensures
        match r {
            Some(c) => xml_child_last(children@, name@) == Some(*c),
            None => xml_child_last(children@, name@) is None,
        },
{
    let mut i = children.len();
    proof {
        assert(children@.take(children@.len() as int) =~= children@);
    }
    while i > 0
        invariant
            i <= children@.len(),
            xml_child_last(children@, name@) == xml_child_last(
                children@.take(i as int),
                name@,
            ),
        decreases i,
    {
        let c = &children[i - 1];
        proof {
            assert(children@.take(i as int).last() == children@[i - 1]);
            assert(children@.take(i as int).drop_last() =~= children@.take(i - 1));
        }
        if str_eq(c.name.as_str(), name) {
            return Some(c);
        }
        i = i - 1;
    }
    None
}

/// Finds the first child with the local name `name`.
fn node_child_first<'a>(children: &'a Vec<XmlNode>, name: &str) -> (r: Option<&'a XmlNode>)
    ensures
        match r {
            Some(c) => xml_child_first(children@, name@) == Some(*c),
            None => xml_child_first(children@, name@) is None,
        },
{
    let n = children.len();
    let mut i: usize = 0;
    proof {
        assert(children@.skip(0) =~= children@);
    }
    while i < n
        invariant
            n == children@.len(),
            i <= n,
            xml_child_first(children@, name@) == xml_child_first(
                children@.skip(i as int),
                name@,
            ),
        decreases n - i,
    {
        let c = &children[i];
        proof {
            assert(children@.skip(i as int).first() == children@[i as int]);
            assert(children@.skip(i as int).drop_first() =~= children@.skip(i + 1));
        }
        if str_eq(c.name.as_str(), name) {
            return Some(c);
        }
        i = i + 1;
    }
    None
}

/// The license that an XML `license` element denotes: the text of its
/// first `id` child and of its first `name` child, each optional.
pub open spec fn license_matches_xml(node: XmlNode, l: License) -> bool {
    &&& match xml_child_first(node.children@, "id"@) {
        Some(c) => opt_view(l.id) == Some(c.text@),
        None => l.id is None,
    }
    &&& match xml_child_first(node.children@, "name"@) {
        Some(c) => opt_view(l.name) == Some(c.text@),
        None => l.name is None,
    }
}

/// The license choice that an XML element denotes: a `license` element
/// maps to a named license, an `expression` element carries its text, and
/// any other element defensively maps to an empty expression.
pub open spec fn choice_matches_xml(node: XmlNode, ch: LicenseChoice) -> bool {
    if node.name@ == "license"@ {
        ch matches LicenseChoice::License(l) && license_matches_xml(node, l)
    } else if node.name@ == "expression"@ {
        ch matches LicenseChoice::Expression(e) && e@ == node.text@
    } else {
        ch matches LicenseChoice::Expression(e) && e@ == Seq::<char>::empty()
    }
}

/// Each XML element denotes the license choice at the same position.
pub open spec fn choices_match_xml(nodes: Seq<XmlNode>, chs: Seq<LicenseChoice>) -> bool
    decreases chs.len(),
{
    if nodes.len() != chs.len() {
        false
    } else if chs.len() == 0 {
        true
    } else {
        choices_match_xml(nodes.drop_last(), chs.drop_last()) && choice_matches_xml(
            nodes.last(),
            chs.last(),
        )
    }
}

/// The component that an XML element denotes, walking children by local
/// name; for each recognized field a later child overrides an earlier one,
/// and a missing child leaves the default.
pub open spec fn component_matches_xml(node: XmlNode, c: Component) -> bool
    decreases c, 1int,
    via component_matches_xml_dec
{
    &&& match attr_get(node.attrs@, "type"@) {
        Some(t) => c.component_type@ == t,
        None => c.component_type@ == Seq::<char>::empty(),
    }
    &&& match xml_child_last(node.children@, "name"@) {
        Some(nc) => c.name@ == nc.text@,
        None => c.name@ == Seq::<char>::empty(),
    }
    &&& match xml_child_last(node.children@, "version"@) {
        Some(vc) => opt_view(c.version) == Some(vc.text@),
        None => c.version is None,
    }
    &&& match xml_child_last(node.children@, "licenses"@) {
        Some(lc) => c.licenses matches Some(ls) && choices_match_xml(lc.children@, ls.0@),
        None => c.licenses is None,
    }
    &&& match xml_child_last(node.children@, "components"@) {
        Some(cc) => c.components matches Some(cs) && components_match_xml(cc.children@, cs.0@),
        None => c.components is None,
    }
}

#[via_fn]
proof fn component_matches_xml_dec(node: XmlNode, c: Component) {
    match c.components {
        Some(cs) => {
            assert(decreases_to!(c => c.components));
            assert(decreases_to!(c.components => cs));
            assert(decreases_to!(cs => cs.0));
            assert(decreases_to!(cs.0 => cs.0@));
            assert(decreases_to!(c => cs.0@));
        },
        None => {},
    }
}

/// Each XML element denotes the component at the same position.
pub open spec fn components_match_xml(nodes: Seq<XmlNode>, cs: Seq<Component>) -> bool
    decreases cs, 0int,
{
    if nodes.len() != cs.len() {
        false
    } else if cs.len() == 0 {
        true
    } else {
        components_match_xml(nodes.drop_last(), cs.drop_last()) && component_matches_xml(
            nodes.last(),
            cs.last(),
        )
    }
}

/// The bill of materials that an XML root element denotes: the two root
/// attributes, and the last `components` child walked recursively.
pub open spec fn bom_matches_xml(root: XmlNode, b: Bom) -> bool {
    &&& b.bom_format == BomFormat::CycloneDX
    &&& b.spec_version@ == Seq::<char>::empty()
    &&& match attr_get(root.attrs@, "serialNumber"@) {
        Some(sv) => opt_view(b.serial_number) == Some(sv),
        None => b.serial_number is None,
    }
    &&& match attr_get(root.attrs@, "version"@) {
        Some(vs) => spec_parse_u32(vs) == Some(b.version),
        None => b.version == 0,
    }
    &&& match xml_child_last(root.children@, "components"@) {
        Some(cc) => b.components matches Some(cs) && components_match_xml(cc.children@, cs.0@),
        None => b.components is None,
    }
}

/// The XML root is loadable: its `version` attribute, when present, is an
/// unsigned 32-bit decimal.
pub open spec fn xml_bom_ok(root: XmlNode) -> bool {
    match attr_get(root.attrs@, "version"@) {
        Some(vs) => spec_parse_u32(vs) is Some,
        None => true,
    }
}

/// Maps one XML `license` element to a license.
fn license_from_xml(node: &XmlNode) -> (l: License)
    ensures
        license_matches_xml(*node, l),
{
    let id = match node_child_first(&node.children, "id") {
        Some(c) => Some(c.text.clone()),
        None => None,
    };
    let name = match node_child_first(&node.children, "name") {
        Some(c) => Some(c.text.clone()),
        None => None,
    };
    License { id, name }
}

/// Maps one XML element to a license choice.
fn choice_from_xml(node: &XmlNode) -> (ch: LicenseChoice)
    ensures
        choice_matches_xml(*node, ch),
{
    if str_eq(node.name.as_str(), "license") {
        LicenseChoice::License(license_from_xml(node))
    } else if str_eq(node.name.as_str(), "expression") {
        LicenseChoice::Expression(node.text.clone())
    } else {
        LicenseChoice::Expression(String::new())
    }
}

/// Maps the first `n` XML elements to license choices.
fn choices_from_xml(nodes: &Vec<XmlNode>, n: usize) -> (chs: Vec<LicenseChoice>)
    requires
        n <= nodes@.len(),
    ensures
        choices_match_xml(nodes@.take(n as int), chs@),
    decreases n,
{
    if n == 0 {
        proof {
            assert(nodes@.take(0).len() == 0);
        }
        return Vec::new();
    }
    proof {
        assert(nodes@.take(n as int).drop_last() =~= nodes@.take(n - 1));
        assert(nodes@.take(n as int).last() == nodes@[n - 1]);
    }
    let mut chs = choices_from_xml(nodes, n - 1);
    let ch = choice_from_xml(&nodes[n - 1]);
    let ghost prev = chs@;
    chs.push(ch);
    proof {
        assert(chs@.drop_last() =~= prev);
    }
    chs
}

/// Maps the first `n` XML elements to components.
fn components_from_xml(nodes: &Vec<XmlNode>, n: usize) -> (cs: Vec<Component>)
    requires
        n <= nodes@.len(),
    ensures
        components_match_xml(nodes@.take(n as int), cs@),
    decreases nodes@, n as int,
{
    if n == 0 {
        proof {
            assert(nodes@.take(0).len() == 0);
        }
        return Vec::new();
    }
    proof {
        assert(nodes@.take(n as int).drop_last() =~= nodes@.take(n - 1));
        assert(nodes@.take(n as int).last() == nodes@[n - 1]);
    }
    let mut cs = components_from_xml(nodes, n - 1);
    proof {
        assert(decreases_to!(nodes@ => nodes@[n - 1]));
    }
    let c = component_from_xml(&nodes[n - 1]);
    let ghost prev = cs@;
    cs.push(c);
    proof {
        assert(cs@.drop_last() =~= prev);
    }
    cs
}

/// Maps one XML element to a component of the tree.
fn component_from_xml(node: &XmlNode) -> (c: Component)
    ensures
        component_matches_xml(*node, c),
    decreases *node, 1int,
{
    let component_type = match node_attr(node, "type") {
        Some(v) => v.clone(),
        None => String::new(),
    };
    let name = match node_child_last(&node.children, "name") {
        Some(nc) => nc.text.clone(),
        None => String::new(),
    };
    let version = match node_child_last(&node.children, "version") {
        Some(vc) => Some(vc.text.clone()),
        None => None,
    };
    let licenses = match node_child_last(&node.children, "licenses") {
        Some(lc) => {
            let chs = choices_from_xml(&lc.children, lc.children.len());
            proof {
                assert(lc.children@.take(lc.children@.len() as int) =~= lc.children@);
            }
            Some(Licenses(chs))
        },
        None => None,
    };
    let components = match node_child_last(&node.children, "components") {
        Some(cc) => {
            proof {
                lemma_xml_child_last_member(node.children@, "components"@);
                let j = choose|j: int|
                    0 <= j < node.children@.len() && #[trigger] node.children@[j] == *cc;
                assert(decreases_to!(*node => node.children));
                assert(decreases_to!(node.children => node.children@));
                assert(decreases_to!(node.children@ => node.children@[j]));
                assert(decreases_to!(node.children@[j] => node.children@[j].children));
                assert(decreases_to!(node.children@[j].children => node.children@[j].children@));
                assert(decreases_to!(*node => cc.children@));
            }
            let cs = components_from_xml(&cc.children, cc.children.len());
            proof {
                assert(cc.children@.take(cc.children@.len() as int) =~= cc.children@);
            }
            Some(Components(cs))
        },
        None => None,
    };
    Component { component_type, name, version, licenses, components }
}

/// Maps an XML root element to a bill of materials; only a malformed
/// `version` attribute is an error.
pub fn bom_from_xml(root: &XmlNode) -> (r: Result<Bom, Error>)
    ensures
        match r {
            Ok(b) => bom_matches_xml(*root, b) && xml_bom_ok(*root),
            Err(e) => e is ParseInt && !xml_bom_ok(*root),
        },
{
    let serial_number = match node_attr(root, "serialNumber") {
        Some(v) => Some(v.clone()),
        None => None,
    };
    let version: u32 = match node_attr(root, "version") {
        Some(vs) => match parse_u32(vs.as_str()) {
            Some(v) => v,
            None => {
                return Err(
                    Error::ParseInt("the version attribute is not an unsigned integer".to_owned()),
                );
            },
        },
        None => 0,
    };
    let components = match node_child_last(&root.children, "components") {
        Some(cc) => {
            let cs = components_from_xml(&cc.children, cc.children.len());
            proof {
                assert(cc.children@.take(cc.children@.len() as int) =~= cc.children@);
            }
            Some(Components(cs))
        },
        None => None,
    };
    Ok(
        Bom {
            bom_format: BomFormat::CycloneDX,
            spec_version: String::new(),
            serial_number,
            version,
            components,
        },
    )
}

/// Loads a bill of materials from XML bytes.
pub fn load_xml_file(data: &[u8]) -> (r: Result<Bom, Error>)
    ensures
        match xml_tree_of(data@) {
            None => r matches Err(e) && e is Minidom,
            Some(root) => match r {
                Ok(b) => bom_matches_xml(root, b) && xml_bom_ok(root),
                Err(e) => e is ParseInt && !xml_bom_ok(root),
            },
        },
{
    match parse_xml(data) {
        Ok(root) => bom_from_xml(&root),
        Err(e) => Err(e),
    }
}

/// Loads a bill of materials from JSON bytes.
pub fn load_json_file(data: &[u8]) -> (r: Result<Bom, Error>)
    ensures
        match json_tree_of(data@) {
            None => r matches Err(e) && e is SerdeJson,
            Some(tree) => match r {
                Ok(b) => bom_matches_json(tree, b) && json_bom_ok(tree),
                Err(e) => e is SerdeJson && !json_bom_ok(tree),
            },
        },
{
    match parse_json(data) {
        Ok(tree) => bom_from_json(&tree),
        Err(e) => Err(e),
    }
}

} // verus!
