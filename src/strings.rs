//! Small steps for building argument lists of strings.
use vstd::prelude::*;

use crate::path::views;

verus! {

pub(crate) fn push_string(v: &mut Vec<String>, s: String)
    ensures
        views(final(v)@) == views(old(v)@).push(s@),
{
    let ghost before = views(v@);
    v.push(s);
    assert(views(v@) =~= before.push(s@));
}

pub(crate) fn append_strings(v: &mut Vec<String>, other: Vec<String>)
    ensures
        views(final(v)@) == views(old(v)@) + views(other@),
{
    let ghost before = views(v@);
    let mut o = other;
    v.append(&mut o);
    assert(views(v@) =~= before + views(other@));
}

/// `prefix` followed by `s`.
pub(crate) fn prefixed(prefix: &str, s: &str) -> (r: String)
    ensures
        r@ == prefix@ + s@,
{
    let mut r = String::from_str(prefix);
    r.append(s);
    r
}

} // verus!
