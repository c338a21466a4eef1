use vstd::prelude::*;
use vstd::string::StringExecFns;

use crate::cli::SourceType;
use crate::error::Error;
use crate::material::Material;
use crate::strutil::{ends_with, str_ends_with, str_eq, views_of};

verus! {

/// The verdict that the policy hook accumulates for one material: a success
/// flag and the ordered error and warning messages.
#[derive(Debug, Clone)]
pub struct EvaluateResult {
    pub success: bool,
    pub errors: Vec<String>,
    pub warnings: Vec<String>,
}

/// The abstract state of an outcome: flag, error views, warning views.
pub open spec fn outcome_view(r: EvaluateResult) -> (bool, Seq<Seq<char>>, Seq<Seq<char>>) {
    (r.success, views_of(r.errors@), views_of(r.warnings@))
}

/// Recording an error appends the message and clears the flag.
pub open spec fn spec_add_error(
    o: (bool, Seq<Seq<char>>, Seq<Seq<char>>),
    m: Seq<char>,
) -> (bool, Seq<Seq<char>>, Seq<Seq<char>>) {
    (false, o.1.push(m), o.2)
}

/// Recording a warning appends the message and leaves the flag alone.
pub open spec fn spec_add_warning(
    o: (bool, Seq<Seq<char>>, Seq<Seq<char>>),
    m: Seq<char>,
) -> (bool, Seq<Seq<char>>, Seq<Seq<char>>) {
    (o.0, o.1, o.2.push(m))
}

/// Recording a whole sequence of warnings, in order.
pub open spec fn spec_add_warnings(
    o: (bool, Seq<Seq<char>>, Seq<Seq<char>>),
    ms: Seq<Seq<char>>,
) -> (bool, Seq<Seq<char>>, Seq<Seq<char>>)
    decreases ms.len(),
{
    if ms.len() == 0 {
        o
    } else {
        spec_add_warning(spec_add_warnings(o, ms.drop_last()), ms.last())
    }
}

/// Recording an error is monotonic: once one error is recorded, the flag
/// stays cleared no matter how many warnings are recorded afterwards.
pub proof fn lemma_add_error_monotonic(
    o: (bool, Seq<Seq<char>>, Seq<Seq<char>>),
    e: Seq<char>,
    ws: Seq<Seq<char>>,
)
    ensures
        spec_add_warnings(spec_add_error(o, e), ws).0 == false,
    decreases ws.len(),
{
    if ws.len() > 0 {
        lemma_add_error_monotonic(o, e, ws.drop_last());
    }
}

impl EvaluateResult {
    /// A new outcome: success, with no messages.
    pub fn new() -> (r: Self)
        ensures
            r.success == true,
            r.errors@.len() == 0,
            r.warnings@.len() == 0,
    {
        EvaluateResult { success: true, errors: Vec::new(), warnings: Vec::new() }
    }

    /// Appends an error message and clears the success flag.
    pub fn add_error(&mut self, message: String)
        ensures
            outcome_view(*final(self)) == spec_add_error(outcome_view(*old(self)), message@),
    {
        let ghost prev = self.errors@;
        self.errors.push(message);
        self.success = false;
        proof {
            assert(views_of(self.errors@) =~= views_of(prev).push(message@));
        }
    }

    /// Appends a warning message; the success flag is untouched.
    pub fn add_warning(&mut self, message: String)
        ensures
            outcome_view(*final(self)) == spec_add_warning(outcome_view(*old(self)), message@),
    {
        let ghost prev = self.warnings@;
        self.warnings.push(message);
        proof {
            assert(views_of(self.warnings@) =~= views_of(prev).push(message@));
        }
    }
}

/// Every verdict in the sequence carries a set success flag; an empty
/// sequence aggregates to success.
pub open spec fn all_succeeded(rs: Seq<EvaluateResult>) -> bool {
    forall|i: int| 0 <= i < rs.len() ==> rs[i].success
}

/// Folds the per-material verdicts into the aggregate success flag.
pub fn aggregate_success(results: &Vec<EvaluateResult>) -> (r: bool)
    ensures
        r == all_succeeded(results@),
{
    let n = results.len();
    let mut i: usize = 0;
    while i < n
        invariant
            n == results@.len(),
            i <= n,
            forall|j: int| 0 <= j < i ==> results@[j].success,
        decreases n - i,
    {
        if !results[i].success {
            return false;
        }
        i = i + 1;
    }
    true
}

/// One entry of the structured report: a curated material and its outcome.
#[derive(Debug)]
pub struct MaterialResult {
    pub material: Material,
    pub result: EvaluateResult,
}

/// The user-supplied transform applied to each material before evaluation.
/// An error aborts the whole run.
pub trait Curator {
    fn curate(&self, m: Material) -> Result<Material, Error>;
}

/// The user-supplied rule set applied to each curated material. An error
/// aborts the whole run.
pub trait Policy {
    fn evaluate(&self, m: &Material) -> Result<EvaluateResult, Error>;
}

/// The built-in curation: the identity transform.
pub struct DefaultCurator;

impl Curator for DefaultCurator {
    fn curate(&self, m: Material) -> (r: Result<Material, Error>)
        ensures
            r matches Ok(c) && c == m,
    {
        Ok(m)
    }
}

/// A license the built-in policy accepts.
pub open spec fn spec_license_allowed(l: Seq<char>) -> bool {
    ||| l == "Apache-2.0"@
    ||| l == "MIT"@
    ||| l == "BSD-3-Clause"@
    ||| l == "Unlicense"@
}

/// Whether the built-in policy accepts the license.
pub fn license_allowed(l: &str) -> (r: bool)
    ensures
        r == spec_license_allowed(l@),
{
    str_eq(l, "Apache-2.0") || str_eq(l, "MIT") || str_eq(l, "BSD-3-Clause") || str_eq(
        l,
        "Unlicense",
    )
}

/// The error messages the built-in policy records: one per license outside
/// the allowed set, in license order.
pub open spec fn default_policy_errors(ls: Seq<Seq<char>>) -> Seq<Seq<char>>
    decreases ls.len(),
{
    if ls.len() == 0 {
        Seq::empty()
    } else {
        default_policy_errors(ls.drop_last()) + (if spec_license_allowed(ls.last()) {
            Seq::<Seq<char>>::empty()
        } else {
            seq![ls.last() + " is not allowed"@]
        })
    }
}

/// The built-in policy: licenses are allowed only if drawn from a fixed
/// set; any other license on the material records one error naming it.
pub fn evaluate_default_policy(m: &Material) -> (r: EvaluateResult)
    ensures
        r.success == (forall|j: int|
            0 <= j < m.licenses@.len() ==> spec_license_allowed(#[trigger] views_of(m.licenses@)[j])),
        views_of(r.errors@) == default_policy_errors(views_of(m.licenses@)),
        r.warnings@.len() == 0,
{
    let ghost lv = views_of(m.licenses@);
    let n = m.licenses.len();
    let mut r = EvaluateResult::new();
    let mut i: usize = 0;
    proof {
        assert(views_of(r.errors@) =~= Seq::<Seq<char>>::empty());
        assert(views_of(r.warnings@) =~= Seq::<Seq<char>>::empty());
    }
    while i < n
        invariant
            n == m.licenses@.len(),
            i <= n,
            lv == views_of(m.licenses@),
            r.success == (forall|j: int|
                0 <= j < i ==> spec_license_allowed(#[trigger] lv[j])),
            views_of(r.errors@) == default_policy_errors(lv.take(i as int)),
            views_of(r.warnings@).len() == 0,
        decreases n - i,
    {
        proof {
            assert(lv.take(i + 1).drop_last() =~= lv.take(i as int));
            assert(lv.take(i + 1).last() == lv[i as int]);
            assert(lv[i as int] == m.licenses@[i as int]@);
        }
        let license = &m.licenses[i];
        if !license_allowed(license.as_str()) {
            let message = license.clone().concat(" is not allowed");
            let ghost prev = views_of(r.errors@);
            r.add_error(message);
            proof {
                assert(views_of(r.errors@) == prev.push(message@));
                assert(views_of(r.errors@) =~= default_policy_errors(lv.take(i + 1)));
            }
        } else {
            proof {
                assert(default_policy_errors(lv.take(i + 1)) =~= views_of(r.errors@));
            }
        }
        i = i + 1;
    }
    proof {
        assert(lv.take(n as int) =~= lv);
    }
    r
}

/// The built-in policy as a policy implementation.
pub struct DefaultPolicy;

impl Policy for DefaultPolicy {
    fn evaluate(&self, m: &Material) -> (r: Result<EvaluateResult, Error>)
        ensures
            r matches Ok(o) && {
                &&& o.success == (forall|j: int|
                    0 <= j < m.licenses@.len() ==> spec_license_allowed(
                        #[trigger] views_of(m.licenses@)[j],
                    ))
                &&& views_of(o.errors@) == default_policy_errors(views_of(m.licenses@))
                &&& o.warnings@.len() == 0
            },
    {
        Ok(evaluate_default_policy(m))
    }
}

/// Runs the two-stage protocol over every material, strictly in order:
/// curate, evaluate, record. A hook failure aborts the run at once and no
/// partial report is returned; otherwise the report pairs each curated
/// material with its verdict, and the aggregate flag is the conjunction of
/// the verdicts.
pub fn evaluate_materials<C: Curator, P: Policy>(
    materials: Vec<Material>,
    curator: &C,
    policy: &P,
) -> (r: Result<(Vec<MaterialResult>, bool), Error>)
    ensures
        match r {
            Ok(report) => {
                &&& report.0@.len() == materials@.len()
                &&& report.1 == (forall|i: int|
                    0 <= i < report.0@.len() ==> #[trigger] report.0@[i].result.success)
            },
            Err(_) => true,
        },
        materials@.len() == 0 ==> (r matches Ok(report) && report.0@.len() == 0 && report.1
            == true),
{
    let n = materials.len();
    let mut results: Vec<MaterialResult> = Vec::new();
    let mut success = true;
    let mut i: usize = 0;
    while i < n
        invariant
            n == materials@.len(),
            i <= n,
            results@.len() == i,
            success == (forall|j: int|
                0 <= j < i ==> #[trigger] results@[j].result.success),
        decreases n - i,
    {
        let material = materials[i].clone();
        let curated = match curator.curate(material) {
            Ok(m) => m,
            Err(e) => {
                return Err(e);
            },
        };
        let outcome = match policy.evaluate(&curated) {
            Ok(o) => o,
            Err(e) => {
                return Err(e);
            },
        };
        let ghost prev_success = success;
        let ghost osucc = outcome.success;
        if !outcome.success {
            success = false;
        }
        let ghost prev = results@;
        results.push(MaterialResult { material: curated, result: outcome });
        proof {
            assert(forall|j: int| 0 <= j < i ==> #[trigger] results@[j] == prev[j]);
            assert(results@[i as int].result.success == osucc);
            assert(success == (forall|j: int|
                0 <= j < i + 1 ==> #[trigger] results@[j].result.success)) by {
                if success {
                    assert forall|j: int|
                        0 <= j < i + 1 implies #[trigger] results@[j].result.success by {
                        if j < i {
                            assert(results@[j] == prev[j]);
                        }
                    }
                } else if !osucc {
                    assert(!results@[i as int].result.success);
                } else {
                    assert(!prev_success);
                    let j0 = choose|j: int| 0 <= j < i && !(#[trigger] prev[j].result.success);
                    assert(results@[j0] == prev[j0]);
                    assert(!results@[j0].result.success);
                }
            }
        }
        i = i + 1;
    }
    Ok((results, success))
}

/// The format that a file path denotes, by its suffix; the first matching
/// rule wins and an unrecognized path falls back to TSV.
pub open spec fn spec_detect_source_type(p: Seq<char>) -> SourceType {
    if ends_with(p, ".tsv"@) {
        SourceType::Tsv
    } else if ends_with(p, ".spdx"@) {
        SourceType::SpdxTag
    } else if ends_with(p, ".spdx.json"@) {
        SourceType::SpdxJson
    } else if ends_with(p, ".spdx.yml"@) || ends_with(p, ".spdx.yaml"@) {
        SourceType::SpdxYaml
    } else if p == "bom.json"@ || ends_with(p, "/bom.json"@) || ends_with(p, ".cdx.json"@) {
        SourceType::CycloneDxJson
    } else if p == "bom.xml"@ || ends_with(p, "/bom.xml"@) || ends_with(p, ".cdx.xml"@) {
        SourceType::CycloneDxXml
    } else {
        SourceType::Tsv
    }
}

/// Infers the source format from a file path; a path whose last component
/// is `bom.json` or `bom.xml` counts as CycloneDX even without the `.cdx`
/// suffix.
pub fn detect_source_type(path: &str) -> (r: SourceType)
    ensures
        r == spec_detect_source_type(path@),
{
    if str_ends_with(path, ".tsv") {
        SourceType::Tsv
    } else if str_ends_with(path, ".spdx") {
        SourceType::SpdxTag
    } else if str_ends_with(path, ".spdx.json") {
        SourceType::SpdxJson
    } else if str_ends_with(path, ".spdx.yml") || str_ends_with(path, ".spdx.yaml") {
        SourceType::SpdxYaml
    } else if str_eq(path, "bom.json") || str_ends_with(path, "/bom.json") || str_ends_with(
        path,
        ".cdx.json",
    ) {
        SourceType::CycloneDxJson
    } else if str_eq(path, "bom.xml") || str_ends_with(path, "/bom.xml") || str_ends_with(
        path,
        ".cdx.xml",
    ) {
        SourceType::CycloneDxXml
    } else {
        SourceType::Tsv
    }
}

} // verus!
