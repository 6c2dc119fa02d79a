//! Small shared types.

use vstd::prelude::*;

verus! {

/// How a skill is loaded (the protocol's `tier` field).
#[derive(Clone, Copy, Debug, PartialEq, Eq, Structural)]
pub enum Tier {
    /// Present from the start: the Agent treats it as loaded.
    Core,
    /// Listed in the catalog and loaded on demand.
    Extra,
}

/// The scope of a query.
#[derive(Clone, Copy, Debug, PartialEq, Eq, Structural)]
pub enum Scope {
    Global,
    Project,
}

/// The protocol's name for a tier.
pub fn tier_label(t: Tier) -> (r: &'static str)
    ensures
        r@ == (match t {
            Tier::Core => "core"@,
            Tier::Extra => "extra"@,
        }),
{
    match t {
        Tier::Core => "core",
        Tier::Extra => "extra",
    }
}

/// A copy of each string of `v`.
pub fn clone_strings(v: &Vec<String>) -> (r: Vec<String>)
    ensures
        r@ == v@,
{
    let mut r: Vec<String> = Vec::new();
    let mut i: usize = 0;
    while i < v.len()
        invariant
            0 <= i <= v@.len(),
            r@ == v@.take(i as int),
        decreases v@.len() - i,
    {
        r.push(v[i].clone());
        proof {
            assert(v@.take(i + 1) =~= v@.take(i as int).push(v@[i as int]));
        }
        i = i + 1;
    }
    proof {
        assert(v@.take(v@.len() as int) =~= v@);
    }
    r
}

/// A copy of an optional string.
pub fn clone_opt(o: &Option<String>) -> (r: Option<String>)
    ensures
        r == *o,
{
    match o {
        Some(s) => Some(s.clone()),
        None => None,
    }
}

} // verus!
