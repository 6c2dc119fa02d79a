//! `skillctl inspect` and `describe`: what an installed skill bundles and
//! how risky invoking it is.

use vstd::prelude::*;
use crate::order::{is_sorted_order, sorted_order};
use crate::skill::{BinaryReq, Requires};
use crate::text::{ascii_lower_seq, ends_with_str, has_suffix, lower_chars, push_str, str_eq, string_from, views};

verus! {

/// The arguments of `skillctl inspect`.
pub struct Args {
    /// A full id or a short name.
    pub id: String,
}

/// A file of a skill's directory that counts as one of its resources:
/// anything but the `SKILL.md` and `meta.json`.
pub open spec fn is_resource(rel: Seq<char>) -> bool {
    rel != "SKILL.md"@ && rel != "meta.json"@
}

/// The resources among `files`, in order.
pub open spec fn resources_of(files: Seq<Seq<char>>) -> Seq<Seq<char>>
    decreases files.len(),
{
    if files.len() == 0 {
        Seq::empty()
    } else if is_resource(files.last()) {
        resources_of(files.drop_last()).push(files.last())
    } else {
        resources_of(files.drop_last())
    }
}

/// The resources of a skill directory, sorted: `files` are the relative
/// paths of its files.
pub fn listed_resources(files: &Vec<String>) -> (r: Vec<String>)
    ensures
        exists|ord: Seq<usize>|
            #![trigger is_sorted_order(resources_of(views(files@)), ord)]
            is_sorted_order(resources_of(views(files@)), ord) && views(r@) == Seq::new(
                ord.len(),
                |k: int| resources_of(views(files@))[ord[k] as int],
            ),
{
    let mut kept: Vec<String> = Vec::new();
    let mut i: usize = 0;
    while i < files.len()
        invariant
            0 <= i <= files@.len(),
            views(kept@) == resources_of(views(files@).take(i as int)),
        decreases files@.len() - i,
    {
        proof {
            assert(views(files@).take(i + 1).drop_last() =~= views(files@).take(i as int));
            assert(views(files@).take(i + 1).last() == files@[i as int]@);
        }
        let f = files[i].as_str();
        if !(str_eq(f, "SKILL.md") || str_eq(f, "meta.json")) {
            let ghost before = kept@;
            kept.push(f.to_owned());
            proof {
                assert(views(kept@) =~= views(before).push(f@));
            }
        }
        i = i + 1;
    }
    proof {
        assert(views(files@).take(i as int) =~= views(files@));
    }
    let ord = sorted_order(&kept);
    let mut r: Vec<String> = Vec::new();
    let mut k: usize = 0;
    while k < ord.len()
        invariant
            0 <= k <= ord@.len(),
            is_sorted_order(views(kept@), ord@),
            views(r@) == Seq::new(k as nat, |j: int| views(kept@)[ord@[j] as int]),
        decreases ord@.len() - k,
    {
        let ghost before = r@;
        proof {
            assert(ord@[k as int] < views(kept@).len());
        }
        r.push(kept[ord[k]].clone());
        proof {
            assert(views(r@) =~= views(before).push(kept@[ord@[k as int] as int]@));
            assert(views(r@) =~= Seq::new((k + 1) as nat, |j: int| views(kept@)[ord@[j] as int]));
        }
        k = k + 1;
    }
    r
}

/// A file name that counts as a script: it ends in `.sh`, `.py`, `.js` or
/// `.ts`, in any case.
pub open spec fn script_name(rel: Seq<char>) -> bool {
    let l = ascii_lower_seq(rel);
    has_suffix(l, ".sh"@) || has_suffix(l, ".py"@) || has_suffix(l, ".js"@) || has_suffix(l, ".ts"@)
}

/// Whether a file counts as a script.
pub fn is_script(rel: &str) -> (b: bool)
    ensures
        b == script_name(rel@),
{
    let l = string_from(lower_chars(rel).as_slice());
    ends_with_str(l.as_str(), ".sh") || ends_with_str(l.as_str(), ".py") || ends_with_str(
        l.as_str(),
        ".js",
    ) || ends_with_str(l.as_str(), ".ts")
}

/// One finding of an audit.
#[derive(Debug)]
pub struct Finding {
    /// `info` or `warn`.
    pub severity: String,
    /// `binary_dep`, `env_dep` or `scripts_present`.
    pub kind: String,
    pub detail: String,
}

/// The outcome of an audit.
#[derive(Debug)]
pub struct Audit {
    /// `script`, `secret-dependent`, `binary-dependent` or `instruction-only`.
    pub risk_class: String,
    pub findings: Vec<Finding>,
    pub resources: Vec<String>,
}

/// The detail of a binary dependency: its name, and its version
/// requirement after a space when it has one.
pub open spec fn binary_detail(b: BinaryReq) -> Seq<char> {
    b.name@ + match b.version {
        Some(v) => " "@ + v@,
        None => Seq::empty(),
    }
}

/// `f` has the given severity, kind and detail.
pub open spec fn finding_is(f: Finding, severity: Seq<char>, kind: Seq<char>, detail: Seq<char>) -> bool {
    f.severity@ == severity && f.kind@ == kind && f.detail@ == detail
}

/// The risk class: scripts weigh most, then environment variables (which
/// may hold secrets), then binaries.
pub open spec fn risk_class_of(scripts: bool, env: bool, binaries: bool) -> Seq<char> {
    if scripts {
        "script"@
    } else if env {
        "secret-dependent"@
    } else if binaries {
        "binary-dependent"@
    } else {
        "instruction-only"@
    }
}

/// Audits a skill: its declared requirements and the files of its
/// directory (`files`, relative paths). The findings list each binary
/// dependency, then each environment variable, then the presence of
/// scripts among the resources.
pub fn audit(reqs: &Requires, files: &Vec<String>) -> (a: Audit)
    ensures
        ({
            let res = resources_of(views(files@));
            let scripts = exists|k: int| 0 <= k < res.len() && #[trigger] script_name(res[k]);
            let nb = reqs.binaries@.len() as int;
            let ne = reqs.env@.len() as int;
            &&& a.risk_class@ == risk_class_of(scripts, ne > 0, nb > 0)
            &&& a.findings@.len() == nb + ne + (if scripts {
                1int
            } else {
                0
            })
            &&& forall|k: int|
                0 <= k < nb ==> finding_is(
                    #[trigger] a.findings@[k],
                    "info"@,
                    "binary_dep"@,
                    binary_detail(reqs.binaries@[k]),
                )
            &&& forall|k: int|
                0 <= k < ne ==> finding_is(
                    #[trigger] a.findings@[nb + k],
                    "warn"@,
                    "env_dep"@,
                    "requires env var: "@ + reqs.env@[k]@,
                )
            &&& scripts ==> finding_is(
                a.findings@[nb + ne],
                "warn"@,
                "scripts_present"@,
                "skill bundle includes executable scripts; review before invoking"@,
            )
            &&& exists|ord: Seq<usize>|
                #![trigger is_sorted_order(res, ord)]
                is_sorted_order(res, ord) && views(a.resources@) == Seq::new(
                    ord.len(),
                    |k: int| res[ord[k] as int],
                )
        }),
{
    let resources = listed_resources(files);
    let ghost res = resources_of(views(files@));
    let mut scripts = false;
    let mut i: usize = 0;
    while i < resources.len()
        invariant
            0 <= i <= resources@.len(),
            exists|ord: Seq<usize>|
                #![trigger is_sorted_order(res, ord)]
                is_sorted_order(res, ord) && views(resources@) == Seq::new(
                    ord.len(),
                    |k: int| res[ord[k] as int],
                ),
            scripts == exists|k: int| 0 <= k < i && #[trigger] script_name(resources@[k]@),
        decreases resources@.len() - i,
    {
        if is_script(resources[i].as_str()) {
            scripts = true;
        }
        i = i + 1;
    }
    proof {
        let ord = choose|ord: Seq<usize>|
            #![trigger is_sorted_order(res, ord)]
            is_sorted_order(res, ord) && views(resources@) == Seq::new(
                ord.len(),
                |k: int| res[ord[k] as int],
            );
        crate::order::lemma_sorted_order_permutes(res, ord);
        if scripts {
            let k = choose|k: int| 0 <= k < i && #[trigger] script_name(resources@[k]@);
            assert(k < views(resources@).len());
            assert(views(resources@)[k] == res[ord[k] as int]);
            assert(script_name(res[ord[k] as int]));
        }
        if exists|k: int| 0 <= k < res.len() && #[trigger] script_name(res[k]) {
            let k = choose|k: int| 0 <= k < res.len() && #[trigger] script_name(res[k]);
            assert(ord.contains(k as usize));
            let j = choose|j: int| 0 <= j < ord.len() && ord[j] == k as usize;
            assert(views(resources@)[j] == res[k]);
            assert(script_name(resources@[j]@));
        }
    }
    let mut findings: Vec<Finding> = Vec::new();
    let nb = reqs.binaries.len();
    let mut k: usize = 0;
    while k < nb
        invariant
            0 <= k <= nb,
            nb == reqs.binaries@.len(),
            findings@.len() == k,
            forall|j: int|
                0 <= j < k ==> finding_is(
                    #[trigger] findings@[j],
                    "info"@,
                    "binary_dep"@,
                    binary_detail(reqs.binaries@[j]),
                ),
        decreases nb - k,
    {
        let b = &reqs.binaries[k];
        let mut detail = b.name.clone();
        if let Some(v) = &b.version {
            push_str(&mut detail, " ");
            push_str(&mut detail, v.as_str());
            proof {
                assert(detail@ =~= b.name@ + (" "@ + v@));
            }
        } else {
            proof {
                assert(detail@ =~= b.name@ + Seq::<char>::empty());
            }
        }
        proof {
            assert(detail@ == binary_detail(*b));
        }
        findings.push(
            Finding { severity: "info".to_owned(), kind: "binary_dep".to_owned(), detail },
        );
        k = k + 1;
    }
    let ne = reqs.env.len();
    let mut k: usize = 0;
    while k < ne
        invariant
            0 <= k <= ne,
            nb == reqs.binaries@.len(),
            ne == reqs.env@.len(),
            findings@.len() == nb + k,
            forall|j: int|
                0 <= j < nb ==> finding_is(
                    #[trigger] findings@[j],
                    "info"@,
                    "binary_dep"@,
                    binary_detail(reqs.binaries@[j]),
                ),
            forall|j: int|
                0 <= j < k ==> finding_is(
                    #[trigger] findings@[nb + j],
                    "warn"@,
                    "env_dep"@,
                    "requires env var: "@ + reqs.env@[j]@,
                ),
        decreases ne - k,
    {
        let mut detail = "requires env var: ".to_owned();
        push_str(&mut detail, reqs.env[k].as_str());
        findings.push(Finding { severity: "warn".to_owned(), kind: "env_dep".to_owned(), detail });
        k = k + 1;
    }
    if scripts {
        findings.push(
            Finding {
                severity: "warn".to_owned(),
                kind: "scripts_present".to_owned(),
                detail: "skill bundle includes executable scripts; review before invoking".to_owned(),
            },
        );
    }
    let risk_class = if scripts {
        "script"
    } else if ne > 0 {
        "secret-dependent"
    } else if nb > 0 {
        "binary-dependent"
    } else {
        "instruction-only"
    };
    Audit { risk_class: risk_class.to_owned(), findings, resources }
}

} // verus!
