//! Sets of domains.

use dashmap::DashSet;
use vstd::prelude::*;

verus! {

#[verifier::external_type_specification]
#[verifier::external_body]
#[verifier::reject_recursive_types(K)]
#[verifier::reject_recursive_types(S)]
pub struct ExDashSet<K, S>(dashmap::DashSet<K, S>);

/// The texts that a set holds.
pub uninterp spec fn members(s: DashSet<String>) -> Set<Seq<char>>;

/// `DashSet::new`: a set that holds nothing.
#[verifier::external_body]
pub(crate) fn new_set() -> (r: DashSet<String>)
    ensures
        members(r) == Set::<Seq<char>>::empty(),
{
    DashSet::new()
}

/// `DashSet::insert`: the text is in the set afterwards; the result says whether it was not there
/// before. The set is borrowed for the change, so that nobody else sees it meanwhile.
#[verifier::external_body]
pub(crate) fn insert(s: &mut DashSet<String>, text: String) -> (added: bool)
    ensures
        added == !members(*old(s)).contains(text@),
        members(*final(s)) == members(*old(s)).insert(text@),
{
    s.insert(text)
}

/// `DashSet::remove`: the text is not in the set afterwards; the result says whether it was there
/// before.
#[verifier::external_body]
pub(crate) fn remove(s: &mut DashSet<String>, text: &str) -> (removed: bool)
    ensures
        removed == members(*old(s)).contains(text@),
        members(*final(s)) == members(*old(s)).remove(text@),
{
    s.remove(text).is_some()
}

/// `DashSet::contains`.
#[verifier::external_body]
pub(crate) fn contains(s: &DashSet<String>, text: &str) -> (r: bool)
    ensures
        r == members(*s).contains(text@),
{
    s.contains(text)
}

/// `DashSet::len`: how many texts the set holds.
#[verifier::external_body]
pub(crate) fn len(s: &DashSet<String>) -> (r: usize)
    ensures
        r == members(*s).len(),
{
    s.len()
}

} // verus!
