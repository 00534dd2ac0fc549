use crate::build_types::{Module, SourceType};
use crate::clean::{CompileAssetsState, is_iast_path, orphan_removals};
use crate::deps::{reaches, reaches_seed};
use crate::helpers::{asset_basename_of, ast_path_of, has_file_name, iast_path_of, stem_of};
use crate::packages::Namespace;
use crate::parse::{ParseOutcome, parse_job, parse_jobs_upto, parsed};
use vstd::prelude::*;

verus! {

proof fn lemma_removals_keep(assets: CompileAssetsState, root: Seq<char>, k: int, m: int, p: Seq<char>)
    requires
        0 <= k < m <= assets.ast_modules@.len(),
        assets.is_orphan(k),
        orphan_removals(assets.ast_modules@[k], root).contains(p),
    ensures
        assets.removals_upto(root, m).contains(p),
    decreases m - k,
{
    if m == k + 1 {
        let before = assets.removals_upto(root, k);
        let own = orphan_removals(assets.ast_modules@[k], root);
        let j = choose|j: int| 0 <= j < own.len() && own[j] == p;
        assert(assets.removals_upto(root, m)[before.len() + j] == p);
    } else {
        lemma_removals_keep(assets, root, k, m - 1, p);
        let before = assets.removals_upto(root, m - 1);
        let j = choose|j: int| 0 <= j < before.len() && before[j] == p;
        assert(assets.removals_upto(root, m)[j] == p);
    }
}

/// Once the previous build is reconciled, nothing it left for a source file that is gone is
/// kept: its `.ast` and `.iast`, its compile artifacts in both build directories and its
/// JavaScript output are all among the files to delete.
pub proof fn lemma_orphan_asts_removed(assets: CompileAssetsState, root: Seq<char>, k: int)
    requires
        0 <= k < assets.ast_modules@.len(),
        assets.is_orphan(k),
        has_file_name(assets.ast_modules@[k].source_file@),
    ensures
        ({
            let a = assets.ast_modules@[k];
            let all = assets.removals_upto(root, assets.ast_modules@.len() as int);
            &&& all.contains(ast_path_of(a.source_file@, a.package_name@, root, a.is_root))
            &&& all.contains(iast_path_of(a.source_file@, a.package_name@, root, a.is_root))
            &&& forall|p: Seq<char>| orphan_removals(a, root).contains(p) ==> #[trigger] all.contains(p)
        }),
{
    let a = assets.ast_modules@[k];
    let own = orphan_removals(a, root);
    let n = assets.ast_modules@.len() as int;
    assert(own[own.len() - 1] == ast_path_of(a.source_file@, a.package_name@, root, a.is_root));
    assert(own[own.len() - 2] == iast_path_of(a.source_file@, a.package_name@, root, a.is_root));
    assert forall|p: Seq<char>| orphan_removals(a, root).contains(p) implies #[trigger] assets.removals_upto(
        root,
        n,
    ).contains(p) by {
        lemma_removals_keep(assets, root, k, n, p);
    }
}

/// When a module is to be compiled again, so is every module that depends on it.
pub proof fn lemma_dependent_recompiled(modules: Seq<Module>, seed: Seq<bool>, a: int, b: int, j: int)
    requires
        0 <= b < modules.len(),
        0 <= j < modules[b].deps@.len(),
        modules[b].deps@[j] == a,
        reaches_seed(modules, seed, a),
    ensures
        reaches_seed(modules, seed, b),
{
    let k = choose|k: nat| #[trigger] reaches(modules, seed, a, k);
    assert(reaches(modules, seed, b, k + 1));
}

proof fn lemma_no_seed_unreached(modules: Seq<Module>, seed: Seq<bool>, i: int, k: nat)
    requires
        forall|j: int| 0 <= j < seed.len() ==> !seed[j],
        seed.len() == modules.len(),
        crate::build_types::deps_in_range(modules),
        0 <= i < modules.len(),
    ensures
        !reaches(modules, seed, i, k),
    decreases k,
{
    if k > 0 {
        assert forall|j: int| 0 <= j < modules[i].deps@.len() implies !reaches(
            modules,
            seed,
            #[trigger] modules[i].deps@[j] as int,
            (k - 1) as nat,
        ) by {
            lemma_no_seed_unreached(modules, seed, modules[i].deps@[j] as int, (k - 1) as nat);
        }
    }
}

/// With nothing to compile and nothing deleted, the cascade marks no module.
pub proof fn lemma_no_seed_no_cascade(modules: Seq<Module>, seed: Seq<bool>, i: int)
    requires
        forall|j: int| 0 <= j < seed.len() ==> !seed[j],
        seed.len() == modules.len(),
        crate::build_types::deps_in_range(modules),
        0 <= i < modules.len(),
    ensures
        !reaches_seed(modules, seed, i),
{
    assert forall|k: nat| !#[trigger] reaches(modules, seed, i, k) by {
        lemma_no_seed_unreached(modules, seed, i, k);
    }
}

/// A module whose ASTs are newer than its files, whose `.cmi` is newer than its AST, and whose
/// interface was not deleted comes out of reconciliation with nothing to parse or compile:
/// a build right after a successful one does no work for it.
pub proof fn lemma_rebuild_is_noop(assets: CompileAssetsState, m: Module, r: Module)
    requires
        assets.reconciled(m, r),
        assets.compile_clean(m.name@),
        match m.source_type {
            SourceType::SourceFile(sf) => {
                &&& assets.ast_current(m.name@, false, sf.implementation.last_modified)
                &&& sf.interface matches Some(i) ==> assets.ast_current(
                    m.name@,
                    true,
                    i.last_modified,
                )
            },
            SourceType::MlMap(_) => true,
        },
    ensures
        !r.compile_dirty,
        !r.impl_dirty(),
        !r.iface_dirty(),
{
}

/// With no artifacts left by a previous build, as after `clean`, reconciliation leaves every
/// module as a fresh build has it and deletes nothing.
pub proof fn lemma_clean_then_build(assets: CompileAssetsState, root: Seq<char>, m: Module, r: Module)
    requires
        assets.ast_modules@.len() == 0,
        assets.cmi_modules@.len() == 0,
        assets.cmt_modules@.len() == 0,
        assets.reconciled(m, r),
    ensures
        r == m,
        assets.removals_upto(root, 0) == Seq::<Seq<char>>::empty(),
{
    match (m.source_type, r.source_type) {
        (SourceType::SourceFile(a), SourceType::SourceFile(b)) => {
            assert(b.implementation == a.implementation);
            match (a.interface, b.interface) {
                (Some(x), Some(y)) => {
                    assert(y == x);
                },
                _ => {},
            }
            assert(b == a);
        },
        _ => {},
    }
}

/// A module that no previous AST belongs to, such as one just added, keeps its files to parse
/// and stays to be compiled.
pub proof fn lemma_new_module_built(assets: CompileAssetsState, m: Module, r: Module)
    requires
        forall|k: int|
            0 <= k < assets.ast_modules@.len() ==> #[trigger] assets.ast_modules@[k].module_name@
                != m.name@,
        assets.reconciled(m, r),
    ensures
        r.compile_dirty == m.compile_dirty,
        r.impl_dirty() == m.impl_dirty(),
        r.iface_dirty() == m.iface_dirty(),
{
}

/// A module whose interface file was deleted is compiled again, and its implementation keeps
/// whatever it had to parse.
pub proof fn lemma_deleted_interface_recompiles(
    assets: CompileAssetsState,
    k: int,
    m: Module,
    r: Module,
)
    requires
        0 <= k < assets.ast_modules@.len(),
        assets.is_orphan(k),
        is_iast_path(assets.ast_modules@[k].ast_file_path@),
        assets.ast_modules@[k].module_name@ == m.name@,
        m.compile_dirty,
        assets.reconciled(m, r),
    ensures
        r.compile_dirty,
        r.impl_dirty() == m.impl_dirty(),
{
    assert(assets.deleted_interfaces().contains(m.name@));
}

/// The module at a namespace's entry position names its artifacts without the namespace
/// suffix; any other module of the namespace carries it.
pub proof fn lemma_entry_module_unsuffixed(path: Seq<char>, namespace: String, entry: String)
    ensures
        entry@ == stem_of(path) ==> asset_basename_of(
            path,
            Namespace::NamespaceWithEntry { namespace, entry },
        ) == stem_of(path),
        entry@ != stem_of(path) ==> asset_basename_of(
            path,
            Namespace::NamespaceWithEntry { namespace, entry },
        ) == stem_of(path) + "-"@ + namespace@,
{
}

/// Reconciliation keeps a module from being compiled only where a `.cmi` is newer than one of
/// its surviving ASTs, and keeps a file from being parsed only where its AST is newer than it:
/// what it leaves clean satisfies source time < AST time < `.cmi` time as the artifacts record.
pub proof fn lemma_cleared_flags_follow_timestamps(assets: CompileAssetsState, m: Module, r: Module)
    requires
        assets.reconciled(m, r),
    ensures
        m.compile_dirty && !r.compile_dirty ==> exists|k: int|
            0 <= k < assets.ast_modules@.len() && !assets.is_orphan(k)
                && #[trigger] assets.ast_modules@[k].module_name@ == m.name@ && (crate::clean::time_of(
                assets.cmi_modules@,
                m.name@,
            ) matches Some(c) && c > assets.ast_modules@[k].last_modified),
        m.source_type matches SourceType::SourceFile(sf) ==> (sf.implementation.dirty
            && !r.impl_dirty() ==> assets.ast_current(
            m.name@,
            false,
            sf.implementation.last_modified,
        )),
{
}

/// The parse phase runs the parser on the files of exactly the source modules with a dirty
/// implementation or interface.
pub proof fn lemma_parse_jobs_exact(modules: Seq<Module>, k: int, i: int)
    requires
        0 <= i < k <= modules.len(),
        modules.len() <= usize::MAX,
    ensures
        parse_jobs_upto(modules, k).contains(i as usize) <==> parse_job(modules[i]),
    decreases k,
{
    let prev = parse_jobs_upto(modules, k - 1);
    let cur = parse_jobs_upto(modules, k);
    lemma_parse_jobs_below(modules, k - 1);
    if i < k - 1 {
        lemma_parse_jobs_exact(modules, k - 1, i);
        if prev.contains(i as usize) {
            let j = choose|j: int| 0 <= j < prev.len() && prev[j] == i as usize;
            assert(cur[j] == i as usize);
        }
        if cur.contains(i as usize) {
            let j = choose|j: int| 0 <= j < cur.len() && cur[j] == i as usize;
            if j >= prev.len() {
                assert(parse_job(modules[k - 1]));
                assert(cur[j] == (k - 1) as usize);
                assert(false);
            } else {
                assert(prev[j] == i as usize);
            }
        }
    } else {
        if parse_job(modules[i]) {
            assert(cur[prev.len() as int] == i as usize);
        } else {
            assert(cur =~= prev);
            if cur.contains(i as usize) {
                let j = choose|j: int| 0 <= j < cur.len() && cur[j] == i as usize;
                assert(prev[j] < k - 1);
            }
        }
    }
}

proof fn lemma_parse_jobs_below(modules: Seq<Module>, k: int)
    ensures
        forall|j: int| 0 <= j < parse_jobs_upto(modules, k).len() ==> #[trigger] parse_jobs_upto(
            modules,
            k,
        )[j] < k,
    decreases k,
{
    if k > 0 {
        lemma_parse_jobs_below(modules, k - 1);
        let prev = parse_jobs_upto(modules, k - 1);
        assert forall|j: int| 0 <= j < parse_jobs_upto(modules, k).len() implies #[trigger] parse_jobs_upto(
            modules,
            k,
        )[j] < k by {
            if j < prev.len() {
                assert(parse_jobs_upto(modules, k)[j] == prev[j]);
            }
        }
    }
}

/// With no dirty source file, as on a tree unchanged since a successful build, the parser runs
/// on nothing.
pub proof fn lemma_clean_tree_parses_nothing(modules: Seq<Module>, k: int)
    requires
        0 <= k <= modules.len(),
        forall|i: int| 0 <= i < modules.len() ==> !parse_job(#[trigger] modules[i]),
    ensures
        parse_jobs_upto(modules, k) == Seq::<usize>::empty(),
    decreases k,
{
    if k > 0 {
        lemma_clean_tree_parses_nothing(modules, k - 1);
        assert(parse_jobs_upto(modules, k) =~= Seq::<usize>::empty());
    }
}

/// Recording a parse never takes a module off the compile list, and a module whose files were
/// parsed because they changed goes on it; the cascade then carries it to its dependents.
pub proof fn lemma_parse_marks_for_compile(m: Module, r: Module, o: ParseOutcome, shown: bool)
    requires
        parsed(m, r, o, shown),
    ensures
        m.compile_dirty ==> r.compile_dirty,
        o.dirty ==> r.compile_dirty,
{
}

} // verus!
