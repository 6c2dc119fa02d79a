//! `skillctl remove`: deleting an installed skill from the global library.

use vstd::prelude::*;
use crate::error::Error;
use crate::id::SkillId;
use crate::store::{joined, parent_of, parent_path, GlobalStore};
use crate::text::{chars_of, concat, find_in, find_seq, lemma_find_seq, push_str, str_eq, substring};

verus! {

/// The arguments of `skillctl remove`.
pub struct Args {
    /// A full id or a short name, optionally followed by `@version`.
    pub id: String,
    /// Remove every installed version.
    pub all_versions: bool,
    /// Remove even when projects still use it.
    pub force: bool,
}

/// The id part and the version of `id[@version]`, split at the first `@`.
pub open spec fn split_version_of(s: Seq<char>) -> (Seq<char>, Option<Seq<char>>) {
    match find_seq(s, seq!['@']) {
        Some(k) => (s.take(k), Some(s.skip(k + 1))),
        None => (s, None),
    }
}

/// Splits `id[@version]`.
pub fn split_version(arg: &str) -> (r: (String, Option<String>))
    ensures
        r.0@ == split_version_of(arg@).0,
        match split_version_of(arg@).1 {
            Some(v) => r.1 matches Some(s) && s@ == v,
            None => r.1 is None,
        },
{
    let cs = chars_of(arg);
    let n = cs.len();
    let at: [char; 1] = ['@'];
    proof {
        assert(at@ == seq!['@']);
        lemma_find_seq(arg@, seq!['@']);
    }
    match find_in(cs.as_slice(), &at, 0) {
        Some(k) => {
            proof {
                assert(crate::text::occurs_at(arg@, seq!['@'], k as int));
                assert(k < n);
            }
            (substring(cs.as_slice(), 0, k), Some(substring(cs.as_slice(), k + 1, n)))
        },
        None => (arg.to_owned(), None),
    }
}

/// Checks the version an argument asks to remove against the installed
/// one.
pub fn check_version(id_str: &str, installed: &str, wanted: Option<&str>) -> (r: Result<(), Error>)
    ensures
        match wanted {
            Some(v) => if installed@ == v@ {
                r is Ok
            } else {
                r matches Err(Error::SkillNotFound(m)) && m@ == id_str@ + "@"@ + v@
            },
            None => r is Ok,
        },
{
    match wanted {
        Some(v) => if str_eq(installed, v) {
            Ok(())
        } else {
            let mut m = concat(id_str, "@");
            push_str(&mut m, v);
            Err(Error::SkillNotFound(m))
        },
        None => Ok(()),
    }
}

/// The directory that removing deletes: the installed version's, or with
/// `--all-versions` the skill's directory holding every version.
pub fn removal_dir(store: &GlobalStore, id: &SkillId, version: &str, all_versions: bool) -> (r: Result<String, Error>)
    ensures
        !all_versions ==> (r matches Ok(d) && d@ == joined(
            joined(joined(joined(store.root@, "skills"@), id.namespace@), id.name@),
            version@,
        )),
        all_versions ==> match parent_of(
            joined(joined(joined(joined(store.root@, "skills"@), id.namespace@), id.name@), ""@),
        ) {
            Some(p) => r matches Ok(d) && d@ == p,
            None => r matches Err(Error::Other(m)) && m@ == "invalid skill dir"@,
        },
{
    if all_versions {
        let d = store.skill_dir(id, "");
        match parent_path(d.as_str()) {
            Some(p) => Ok(p),
            None => Err(Error::Other("invalid skill dir".to_owned())),
        }
    } else {
        Ok(store.skill_dir(id, version))
    }
}

} // verus!
