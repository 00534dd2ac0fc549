use ahash::AHashSet;
use vstd::prelude::*;

verus! {

#[verifier::external_type_specification]
#[verifier::external_body]
#[verifier::reject_recursive_types(T)]
#[verifier::reject_recursive_types(S)]
pub struct ExAHashSet<T, S>(AHashSet<T, S>);

#[verifier::external_type_specification]
#[verifier::external_body]
pub struct ExRandomState(ahash::RandomState);

/// The names a set of module names holds.
pub uninterp spec fn name_set_contents(s: AHashSet<String>) -> Set<Seq<char>>;

/// Relies on `AHashSet::new`: the set starts empty.
#[verifier::external_body]
pub(crate) fn name_set_new() -> (r: AHashSet<String>)
    ensures
        name_set_contents(r) == Set::<Seq<char>>::empty(),
{
    AHashSet::new()
}

/// Relies on `HashSet::insert`, reached through `AHashSet`'s `DerefMut`: the name is added.
#[verifier::external_body]
pub(crate) fn name_set_insert(s: &mut AHashSet<String>, name: String)
    ensures
        name_set_contents(*final(s)) == name_set_contents(*old(s)).insert(name@),
{
    s.insert(name);
}

/// Relies on `HashSet::contains`, reached through `AHashSet`'s `Deref`: membership.
#[verifier::external_body]
pub(crate) fn name_set_contains(s: &AHashSet<String>, name: &str) -> (r: bool)
    ensures
        r == name_set_contents(*s).contains(name@),
{
    s.contains(name)
}

} // verus!
