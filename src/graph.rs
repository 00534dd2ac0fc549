use crate::deps::{count_true, lemma_count_true_le, lemma_count_true_set};
use crate::text::same_text;
use vstd::prelude::*;

verus! {

/// A package and the names of the packages it depends on.
pub struct PackageDeps {
    pub name: String,
    pub dependencies: Vec<String>,
}

/// Why a package graph cannot be built.
pub enum PackageGraphError {
    /// A package depends on a name that no package has.
    UnresolvedPackage(String),
    /// Packages depend on each other in a cycle.
    CycleInPackageGraph,
}

/// No two packages share a name.
pub open spec fn names_unique(pkgs: Seq<PackageDeps>) -> bool {
    forall|i: int, j: int|
        0 <= i < pkgs.len() && 0 <= j < pkgs.len() && i != j ==> #[trigger] pkgs[i].name@
            != #[trigger] pkgs[j].name@
}

/// Some package has the name `d`.
pub open spec fn resolves(pkgs: Seq<PackageDeps>, d: Seq<char>) -> bool {
    exists|j: int| 0 <= j < pkgs.len() && #[trigger] pkgs[j].name@ == d
}

/// Every dependency names a package.
pub open spec fn all_resolved(pkgs: Seq<PackageDeps>) -> bool {
    forall|i: int, k: int|
        0 <= i < pkgs.len() && 0 <= k < pkgs[i].dependencies@.len() ==> resolves(
            pkgs,
            #[trigger] pkgs[i].dependencies@[k]@,
        )
}

/// Package `i` depends directly on package `j`.
pub open spec fn depends(pkgs: Seq<PackageDeps>, i: int, j: int) -> bool {
    exists|k: int|
        0 <= k < pkgs[i].dependencies@.len() && #[trigger] pkgs[i].dependencies@[k]@ == pkgs[j].name@
}

/// Package `i` stands in `order`.
pub open spec fn in_order(order: Seq<usize>, i: int) -> bool {
    exists|p: int| 0 <= p < order.len() && #[trigger] order[p] as int == i
}

/// `order` lists every package once, each after all the packages it depends on.
pub open spec fn is_build_order(pkgs: Seq<PackageDeps>, order: Seq<usize>) -> bool {
    &&& order.no_duplicates()
    &&& forall|p: int| 0 <= p < order.len() ==> #[trigger] order[p] < pkgs.len()
    &&& forall|i: int| 0 <= i < pkgs.len() ==> #[trigger] in_order(order, i)
    &&& forall|p: int, j: int|
        0 <= p < order.len() && 0 <= j < pkgs.len() && #[trigger] depends(pkgs, order[p] as int, j)
            ==> exists|q: int| 0 <= q < p && #[trigger] order[q] == j
}

/// A non-empty set of packages each of which depends on one of the set: a cycle runs
/// through them.
pub open spec fn cyclic_set(pkgs: Seq<PackageDeps>, s: Set<int>) -> bool {
    &&& exists|i: int| #[trigger] s.contains(i)
    &&& forall|i: int| #[trigger] s.contains(i) ==> 0 <= i < pkgs.len()
    &&& forall|i: int|
        #[trigger] s.contains(i) ==> exists|j: int| s.contains(j) && #[trigger] depends(pkgs, i, j)
}

/// A graph with a cyclic set has no build order.
pub proof fn lemma_cycle_has_no_order(pkgs: Seq<PackageDeps>, s: Set<int>, order: Seq<usize>)
    requires
        cyclic_set(pkgs, s),
    ensures
        !is_build_order(pkgs, order),
{
    if is_build_order(pkgs, order) {
        let i0 = choose|i: int| #[trigger] s.contains(i);
        assert(in_order(order, i0));
        let p = choose|p: int| 0 <= p < order.len() && #[trigger] order[p] as int == i0;
        lemma_no_first_member(pkgs, s, order, p);
    }
}

/// In a build order no member of a cyclic set can stand at any position: each would need
/// another member before it.
proof fn lemma_no_first_member(pkgs: Seq<PackageDeps>, s: Set<int>, order: Seq<usize>, p: int)
    requires
        cyclic_set(pkgs, s),
        0 <= p < order.len(),
        s.contains(order[p] as int),
    ensures
        !is_build_order(pkgs, order),
    decreases p,
{
    if is_build_order(pkgs, order) {
        let i = order[p] as int;
        let j = choose|j: int| s.contains(j) && #[trigger] depends(pkgs, i, j);
        assert(0 <= j < pkgs.len());
        let q = choose|q: int| 0 <= q < p && #[trigger] order[q] == j;
        lemma_no_first_member(pkgs, s, order, q);
    }
}

/// The position of the package named `name`.
fn find_package(pkgs: &Vec<PackageDeps>, name: &str) -> (r: Option<usize>)
    ensures
        r matches Some(j) ==> j < pkgs@.len() && pkgs@[j as int].name@ == name@,
        r is None ==> !resolves(pkgs@, name@),
{
    let mut j: usize = 0;
    while j < pkgs.len()
        invariant
            j <= pkgs@.len(),
            forall|l: int| 0 <= l < j ==> #[trigger] pkgs@[l].name@ != name@,
        decreases pkgs@.len() - j,
    {
        if same_text(pkgs[j].name.as_str(), name) {
            return Some(j);
        }
        j = j + 1;
    }
    None
}

/// `idx` gives, for each dependency of each package, the position of the package it names.
pub open spec fn resolution(pkgs: Seq<PackageDeps>, idx: Seq<Vec<usize>>, upto: int) -> bool {
    &&& idx.len() == upto
    &&& forall|i: int| 0 <= i < upto ==> #[trigger] idx[i]@.len() == pkgs[i].dependencies@.len()
    &&& forall|i: int, k: int|
        0 <= i < upto && 0 <= k < idx[i]@.len() ==> #[trigger] idx[i]@[k] < pkgs.len()
            && pkgs[idx[i]@[k] as int].name@ == pkgs[i].dependencies@[k]@
}

/// When no unplaced package has all its dependencies placed, the unplaced packages form a
/// cyclic set.
proof fn lemma_unplaced_cyclic(pkgs: Seq<PackageDeps>, idx: Seq<Vec<usize>>, placed: Seq<bool>, i: int)
    requires
        resolution(pkgs, idx, pkgs.len() as int),
        placed.len() == pkgs.len(),
        0 <= i < pkgs.len(),
        !placed[i],
        forall|j: int|
            0 <= j < pkgs.len() && !#[trigger] placed[j] ==> exists|k: int|
                0 <= k < idx[j]@.len() && !placed[#[trigger] idx[j]@[k] as int],
    ensures
        exists|s: Set<int>| cyclic_set(pkgs, s),
{
    let s = Set::new(|j: int| 0 <= j < pkgs.len() && !placed[j]);
    assert(s.contains(i));
    assert forall|j: int| #[trigger] s.contains(j) implies exists|l: int|
        s.contains(l) && #[trigger] depends(pkgs, j, l) by {
        let k = choose|k: int| 0 <= k < idx[j]@.len() && !placed[#[trigger] idx[j]@[k] as int];
        let l = idx[j]@[k] as int;
        assert(pkgs[l].name@ == pkgs[j].dependencies@[k]@);
        assert(depends(pkgs, j, l));
        assert(s.contains(l));
    }
    assert(cyclic_set(pkgs, s));
}

/// Whether every dependency of package `i` is placed.
fn deps_placed(idx: &Vec<usize>, placed: &Vec<bool>) -> (r: bool)
    requires
        forall|k: int| 0 <= k < idx@.len() ==> #[trigger] idx@[k] < placed@.len(),
    ensures
        r == forall|k: int| 0 <= k < idx@.len() ==> placed@[#[trigger] idx@[k] as int],
{
    let mut k: usize = 0;
    while k < idx.len()
        invariant
            k <= idx@.len(),
            forall|l: int| 0 <= l < idx@.len() ==> #[trigger] idx@[l] < placed@.len(),
            forall|l: int| 0 <= l < k ==> placed@[#[trigger] idx@[l] as int],
        decreases idx@.len() - k,
    {
        if !placed[idx[k]] {
            return false;
        }
        k = k + 1;
    }
    true
}

/// Checks that every dependency names a package and that the packages can be built in some
/// order; returns such an order: each package after all it depends on.
pub fn validate_packages_dependencies(packages: &Vec<PackageDeps>) -> (r: Result<
    Vec<usize>,
    PackageGraphError,
>)
    requires
        names_unique(packages@),
    ensures
        (r matches Err(PackageGraphError::UnresolvedPackage(_))) <==> !all_resolved(packages@),
        r matches Err(PackageGraphError::UnresolvedPackage(d)) ==> !resolves(packages@, d@)
            && exists|i: int, k: int|
            0 <= i < packages@.len() && 0 <= k < packages@[i].dependencies@.len()
                && #[trigger] packages@[i].dependencies@[k]@ == d@,
        r matches Ok(order) ==> is_build_order(packages@, order@),
        r matches Err(PackageGraphError::CycleInPackageGraph) ==> exists|s: Set<int>|
            cyclic_set(packages@, s),
{
    let n = packages.len();
    let mut idx: Vec<Vec<usize>> = Vec::new();
    let mut i: usize = 0;
    while i < n
        invariant
            n == packages@.len(),
            i <= n,
            resolution(packages@, idx@, i as int),
        decreases n - i,
    {
        let deps = &packages[i].dependencies;
        let mut row: Vec<usize> = Vec::new();
        let mut k: usize = 0;
        while k < deps.len()
            invariant
                n == packages@.len(),
                i < n,
                *deps == packages@[i as int].dependencies,
                k <= deps@.len(),
                row@.len() == k,
                forall|l: int|
                    0 <= l < k ==> #[trigger] row@[l] < n && packages@[row@[l] as int].name@
                        == deps@[l]@,
            decreases deps@.len() - k,
        {
            match find_package(packages, deps[k].as_str()) {
                Some(j) => {
                    row.push(j);
                },
                None => {
                    proof {
                        assert(!all_resolved(packages@)) by {
                            assert(!resolves(packages@, packages@[i as int].dependencies@[k as int]@));
                        }
                    }
                    return Err(PackageGraphError::UnresolvedPackage(deps[k].clone()));
                },
            }
            k = k + 1;
        }
        idx.push(row);
        proof {
            assert forall|a: int, b: int|
                0 <= a < i + 1 && 0 <= b < idx@[a]@.len() implies #[trigger] idx@[a]@[b] < packages@.len()
                && packages@[idx@[a]@[b] as int].name@ == packages@[a].dependencies@[b]@ by {
                if a < i {
                } else {
                }
            }
        }
        i = i + 1;
    }
    proof {
        assert forall|a: int, b: int|
            0 <= a < packages@.len() && 0 <= b < packages@[a].dependencies@.len() implies resolves(
            packages@,
            #[trigger] packages@[a].dependencies@[b]@,
        ) by {
            assert(idx@[a]@[b] < packages@.len());
            assert(packages@[idx@[a]@[b] as int].name@ == packages@[a].dependencies@[b]@);
        }
    }
    let mut placed: Vec<bool> = Vec::new();
    let mut i: usize = 0;
    while i < n
        invariant
            i <= n,
            placed@.len() == i,
            forall|j: int| 0 <= j < i ==> !placed@[j],
            count_true(placed@) == 0,
        decreases n - i,
    {
        let ghost before = placed@;
        placed.push(false);
        assert(placed@.drop_last() =~= before);
        i = i + 1;
    }
    let mut order: Vec<usize> = Vec::new();
    let mut nplaced: usize = 0;
    let mut progress = true;
    while progress
        invariant
            n == packages@.len(),
            names_unique(packages@),
            resolution(packages@, idx@, n as int),
            all_resolved(packages@),
            placed@.len() == n,
            nplaced == count_true(placed@),
            nplaced <= n,
            order@.no_duplicates(),
            forall|p: int| 0 <= p < order@.len() ==> #[trigger] order@[p] < n,
            forall|j: int| 0 <= j < n ==> (placed@[j] <==> #[trigger] in_order(order@, j)),
            forall|p: int, j: int|
                0 <= p < order@.len() && 0 <= j < n && #[trigger] depends(packages@, order@[p] as int, j)
                    ==> exists|q: int| 0 <= q < p && #[trigger] order@[q] == j,
            !progress ==> forall|j: int|
                0 <= j < n && !#[trigger] placed@[j] ==> exists|k: int|
                    0 <= k < idx@[j]@.len() && !placed@[#[trigger] idx@[j]@[k] as int],
        decreases n - nplaced + if progress { 1int } else { 0int },
    {
        proof {
            lemma_count_true_le(placed@);
        }
        let ghost start_count = nplaced;
        progress = false;
        let mut i: usize = 0;
        while i < n
            invariant
                n == packages@.len(),
                names_unique(packages@),
                resolution(packages@, idx@, n as int),
                all_resolved(packages@),
                placed@.len() == n,
                i <= n,
                nplaced == count_true(placed@),
                nplaced <= n,
                start_count <= nplaced,
                progress ==> start_count < nplaced,
                !progress ==> nplaced == start_count,
                order@.no_duplicates(),
                forall|p: int| 0 <= p < order@.len() ==> #[trigger] order@[p] < n,
                forall|j: int| 0 <= j < n ==> (placed@[j] <==> #[trigger] in_order(order@, j)),
                forall|p: int, j: int|
                    0 <= p < order@.len() && 0 <= j < n && #[trigger] depends(
                        packages@,
                        order@[p] as int,
                        j,
                    ) ==> exists|q: int| 0 <= q < p && #[trigger] order@[q] == j,
                !progress ==> forall|j: int|
                    0 <= j < i && !#[trigger] placed@[j] ==> exists|k: int|
                        0 <= k < idx@[j]@.len() && !placed@[#[trigger] idx@[j]@[k] as int],
            decreases n - i,
        {
            if !placed[i] {
                proof {
                    assert forall|k: int| 0 <= k < idx@[i as int]@.len() implies #[trigger] idx@[i as int]@[k]
                        < placed@.len() by {}
                }
                if deps_placed(&idx[i], &placed) {
                    let ghost old_order = order@;
                    let ghost old_placed = placed@;
                    proof {
                        lemma_count_true_set(placed@, i as int);
                        lemma_count_true_le(placed@.update(i as int, true));
                        assert(!in_order(order@, i as int));
                    }
                    placed.set(i, true);
                    order.push(i);
                    nplaced = nplaced + 1;
                    progress = true;
                    proof {
                        assert(order@.no_duplicates()) by {
                            assert forall|a: int, b: int|
                                0 <= a < order@.len() && 0 <= b < order@.len() && a != b implies order@[a]
                                != order@[b] by {
                                if a == old_order.len() && b < old_order.len() {
                                    assert(in_order(old_order, old_order[b] as int));
                                } else if b == old_order.len() && a < old_order.len() {
                                    assert(in_order(old_order, old_order[a] as int));
                                }
                            }
                        }
                        assert forall|j: int| 0 <= j < n implies (placed@[j] <==> #[trigger] in_order(
                            order@,
                            j,
                        )) by {
                            if j == i {
                                assert(order@[old_order.len() as int] as int == j);
                            } else {
                                if in_order(old_order, j) {
                                    let p = choose|p: int| 0 <= p < old_order.len() && #[trigger] old_order[p] as int == j;
                                    assert(order@[p] as int == j);
                                }
                                if in_order(order@, j) {
                                    let p = choose|p: int| 0 <= p < order@.len() && #[trigger] order@[p] as int == j;
                                    assert(p < old_order.len());
                                    assert(old_order[p] as int == j);
                                }
                            }
                        }
                        assert forall|p: int, j: int|
                            0 <= p < order@.len() && 0 <= j < n && #[trigger] depends(
                                packages@,
                                order@[p] as int,
                                j,
                            ) implies exists|q: int| 0 <= q < p && #[trigger] order@[q] == j by {
                            if p < old_order.len() {
                                let q = choose|q: int| 0 <= q < p && #[trigger] old_order[q] == j;
                                assert(order@[q] == j);
                            } else {
                                let k = choose|k: int|
                                    0 <= k < packages@[i as int].dependencies@.len()
                                        && #[trigger] packages@[i as int].dependencies@[k]@ == packages@[j].name@;
                                let d = idx@[i as int]@[k] as int;
                                assert(packages@[d].name@ == packages@[j].name@);
                                assert(d == j);
                                assert(old_placed[d]);
                                assert(in_order(old_order, d));
                                let q = choose|q: int| 0 <= q < old_order.len() && #[trigger] old_order[q] as int == d;
                                assert(order@[q] == j);
                            }
                        }
                    }
                }
            }
            i = i + 1;
        }
    }
    let mut i: usize = 0;
    while i < n
        invariant
            n == packages@.len(),
            placed@.len() == n,
            i <= n,
            forall|j: int| 0 <= j < i ==> placed@[j],
            resolution(packages@, idx@, n as int),
            all_resolved(packages@),
            order@.no_duplicates(),
            forall|p: int| 0 <= p < order@.len() ==> #[trigger] order@[p] < n,
            forall|j: int| 0 <= j < n ==> (placed@[j] <==> #[trigger] in_order(order@, j)),
            forall|p: int, j: int|
                0 <= p < order@.len() && 0 <= j < n && #[trigger] depends(packages@, order@[p] as int, j)
                    ==> exists|q: int| 0 <= q < p && #[trigger] order@[q] == j,
            forall|j: int|
                0 <= j < n && !#[trigger] placed@[j] ==> exists|k: int|
                    0 <= k < idx@[j]@.len() && !placed@[#[trigger] idx@[j]@[k] as int],
        decreases n - i,
    {
        if !placed[i] {
            proof {
                lemma_unplaced_cyclic(packages@, idx@, placed@, i as int);
            }
            return Err(PackageGraphError::CycleInPackageGraph);
        }
        i = i + 1;
    }
    proof {
        assert forall|j: int| 0 <= j < n implies #[trigger] in_order(order@, j) by {
            assert(placed@[j]);
        }
    }
    Ok(order)
}

} // verus!
