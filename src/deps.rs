use crate::build_types::{BuildState, Module, deps_in_range};
use crate::name_set::{name_set_contains, name_set_contents};
use crate::text::views;
use vstd::string::*;
use ahash::AHashSet;
use vstd::prelude::*;

verus! {

/// The modules that start the cascade: those already to be compiled, and those named as
/// deleted.
pub open spec fn seeds(modules: Seq<Module>, deleted: Set<Seq<char>>) -> Seq<bool> {
    Seq::new(modules.len(), |i: int| modules[i].compile_dirty || deleted.contains(modules[i].name@))
}

/// Module `i` is a seed, or reaches one through at most `k` dependency edges.
pub open spec fn reaches(modules: Seq<Module>, seed: Seq<bool>, i: int, k: nat) -> bool
    decreases k,
{
    seed[i] || (k > 0 && exists|j: int|
        0 <= j < modules[i].deps@.len() && reaches(
            modules,
            seed,
            #[trigger] modules[i].deps@[j] as int,
            (k - 1) as nat,
        ))
}

/// Module `i` is a seed or depends, directly or not, on one.
pub open spec fn reaches_seed(modules: Seq<Module>, seed: Seq<bool>, i: int) -> bool {
    exists|k: nat| #[trigger] reaches(modules, seed, i, k)
}

/// The position of the module with the given name.
pub open spec fn index_of(modules: Seq<Module>, name: Seq<char>) -> Option<int> {
    if exists|i: int| 0 <= i < modules.len() && #[trigger] modules[i].name@ == name {
        Some(choose|i: int| 0 <= i < modules.len() && #[trigger] modules[i].name@ == name)
    } else {
        None
    }
}

/// The positions of the first `k` names that are modules of the build, in order.
pub open spec fn resolved(modules: Seq<Module>, names: Seq<String>, k: int) -> Seq<usize>
    decreases k,
{
    if k <= 0 {
        Seq::empty()
    } else {
        resolved(modules, names, k - 1) + match index_of(modules, names[k - 1]@) {
            Some(j) => seq![j as usize],
            None => Seq::empty(),
        }
    }
}

pub open spec fn count_true(s: Seq<bool>) -> nat
    decreases s.len(),
{
    if s.len() == 0 {
        0
    } else {
        count_true(s.drop_last()) + if s.last() {
            1nat
        } else {
            0nat
        }
    }
}

pub proof fn lemma_count_true_le(s: Seq<bool>)
    ensures
        count_true(s) <= s.len(),
    decreases s.len(),
{
    if s.len() > 0 {
        lemma_count_true_le(s.drop_last());
    }
}

pub proof fn lemma_count_true_set(s: Seq<bool>, i: int)
    requires
        0 <= i < s.len(),
        !s[i],
    ensures
        count_true(s.update(i, true)) == count_true(s) + 1,
    decreases s.len(),
{
    let t = s.update(i, true);
    if i == s.len() - 1 {
        assert(t.drop_last() =~= s.drop_last());
    } else {
        assert(t.drop_last() =~= s.drop_last().update(i, true));
        lemma_count_true_set(s.drop_last(), i);
    }
}

/// Every module with a dirty dependency is dirty itself.
pub open spec fn closed(modules: Seq<Module>, dirty: Seq<bool>) -> bool {
    forall|i: int, j: int|
        0 <= i < modules.len() && 0 <= j < modules[i].deps@.len() && dirty[#[trigger] modules[i].deps@[j] as int]
            ==> dirty[i]
}

proof fn lemma_closed_complete(modules: Seq<Module>, seed: Seq<bool>, dirty: Seq<bool>, i: int, k: nat)
    requires
        deps_in_range(modules),
        seed.len() == modules.len(),
        dirty.len() == modules.len(),
        0 <= i < modules.len(),
        forall|j: int| 0 <= j < modules.len() && #[trigger] seed[j] ==> dirty[j],
        closed(modules, dirty),
        reaches(modules, seed, i, k),
    ensures
        dirty[i],
    decreases k,
{
    if !seed[i] {
        let j = choose|j: int|
            0 <= j < modules[i].deps@.len() && reaches(
                modules,
                seed,
                #[trigger] modules[i].deps@[j] as int,
                (k - 1) as nat,
            );
        let d = modules[i].deps@[j] as int;
        lemma_closed_complete(modules, seed, dirty, d, (k - 1) as nat);
    }
}

/// Whether one of module `i`'s dependencies is marked in `dirty`.
fn any_dep_dirty(m: &Module, dirty: &Vec<bool>) -> (r: bool)
    requires
        forall|j: int| 0 <= j < m.deps@.len() ==> #[trigger] m.deps@[j] < dirty@.len(),
    ensures
        r == exists|j: int| 0 <= j < m.deps@.len() && dirty@[#[trigger] m.deps@[j] as int],
{
    let mut j: usize = 0;
    while j < m.deps.len()
        invariant
            j <= m.deps@.len(),
            forall|l: int| 0 <= l < m.deps@.len() ==> #[trigger] m.deps@[l] < dirty@.len(),
            forall|l: int| 0 <= l < j ==> !dirty@[#[trigger] m.deps@[l] as int],
        decreases m.deps@.len() - j,
    {
        if dirty[m.deps[j]] {
            return true;
        }
        j = j + 1;
    }
    false
}

/// Marks for compiling every module that is to be compiled already, is named in
/// `deleted_module_names`, or depends, directly or not, on such a module.
pub fn cascade_dirty(build_state: &mut BuildState, deleted_module_names: &AHashSet<String>)
    requires
        old(build_state).wf(),
    ensures
        final(build_state).wf(),
        final(build_state).project_root == old(build_state).project_root,
        final(build_state).root_config_name == old(build_state).root_config_name,
        final(build_state).packages == old(build_state).packages,
        final(build_state).modules@.len() == old(build_state).modules@.len(),
        forall|i: int|
            0 <= i < old(build_state).modules@.len() ==> {
                let m = old(build_state).modules@[i];
                let r = #[trigger] final(build_state).modules@[i];
                &&& r.compile_dirty == reaches_seed(
                    old(build_state).modules@,
                    seeds(old(build_state).modules@, name_set_contents(*deleted_module_names)),
                    i,
                )
                &&& r.name == m.name && r.package_name == m.package_name && r.deps == m.deps
                &&& r.source_type == m.source_type
                &&& r.last_compiled_cmi == m.last_compiled_cmi
                &&& r.last_compiled_cmt == m.last_compiled_cmt
            },
{
    let ghost modules = build_state.modules@;
    let ghost seed = seeds(modules, name_set_contents(*deleted_module_names));
    let n = build_state.modules.len();
    let mut dirty: Vec<bool> = Vec::new();
    let mut ndirty: usize = 0;
    let mut i: usize = 0;
    while i < n
        invariant
            n == modules.len(),
            build_state.modules@ == modules,
            seed == seeds(modules, name_set_contents(*deleted_module_names)),
            i <= n,
            dirty@.len() == i,
            forall|j: int| 0 <= j < i ==> dirty@[j] == seed[j],
            ndirty == count_true(dirty@),
            ndirty <= i,
        decreases n - i,
    {
        let m = &build_state.modules[i];
        let s = m.compile_dirty || name_set_contains(deleted_module_names, m.name.as_str());
        let ghost before = dirty@;
        dirty.push(s);
        assert(dirty@.drop_last() =~= before);
        if s {
            ndirty = ndirty + 1;
        }
        i = i + 1;
    }
    proof {
        assert forall|j: int| 0 <= j < n && #[trigger] dirty@[j] implies reaches_seed(modules, seed, j) by {
            assert(reaches(modules, seed, j, 0));
        }
    }
    let mut changed = true;
    while changed
        invariant
            n == modules.len(),
            build_state.modules@ == modules,
            deps_in_range(modules),
            dirty@.len() == n,
            seed.len() == n,
            ndirty == count_true(dirty@),
            ndirty <= n,
            forall|j: int| 0 <= j < n && #[trigger] seed[j] ==> dirty@[j],
            forall|j: int| 0 <= j < n && #[trigger] dirty@[j] ==> reaches_seed(modules, seed, j),
            !changed ==> closed(modules, dirty@),
        decreases n - ndirty + if changed { 1int } else { 0int },
    {
        proof {
            lemma_count_true_le(dirty@);
        }
        let ghost start = dirty@;
        let ghost start_count = ndirty;
        changed = false;
        let mut i: usize = 0;
        while i < n
            invariant
                n == modules.len(),
                build_state.modules@ == modules,
                deps_in_range(modules),
                dirty@.len() == n,
                i <= n,
                ndirty == count_true(dirty@),
                seed.len() == n,
                ndirty <= n,
                start_count <= ndirty,
                changed ==> start_count < ndirty,
                forall|j: int| 0 <= j < n && #[trigger] seed[j] ==> dirty@[j],
                forall|j: int| 0 <= j < n && #[trigger] dirty@[j] ==> reaches_seed(modules, seed, j),
                !changed ==> dirty@ == start,
                !changed ==> forall|a: int, b: int|
                    0 <= a < i && 0 <= b < modules[a].deps@.len() && dirty@[#[trigger] modules[a].deps@[b] as int]
                        ==> dirty@[a],
            decreases n - i,
        {
            if !dirty[i] {
                let m = &build_state.modules[i];
                proof {
                    assert forall|j: int| 0 <= j < m.deps@.len() implies #[trigger] m.deps@[j] < dirty@.len() by {
                        assert(modules[i as int].deps@[j] < modules.len());
                    }
                }
                if any_dep_dirty(m, &dirty) {
                    proof {
                        let j = choose|j: int| 0 <= j < m.deps@.len() && dirty@[#[trigger] m.deps@[j] as int];
                        let d = m.deps@[j] as int;
                        assert(reaches_seed(modules, seed, d));
                        let k = choose|k: nat| #[trigger] reaches(modules, seed, d, k);
                        assert(reaches(modules, seed, i as int, k + 1));
                        lemma_count_true_set(dirty@, i as int);
                        lemma_count_true_le(dirty@.update(i as int, true));
                    }
                    dirty.set(i, true);
                    ndirty = ndirty + 1;
                    changed = true;
                }
            }
            i = i + 1;
        }
    }
    proof {
        assert forall|j: int| 0 <= j < n implies dirty@[j] == reaches_seed(modules, seed, j) by {
            if reaches_seed(modules, seed, j) {
                let k = choose|k: nat| #[trigger] reaches(modules, seed, j, k);
                lemma_closed_complete(modules, seed, dirty@, j, k);
            }
        }
    }
    let ghost old_state = *build_state;
    let mut i: usize = 0;
    while i < n
        invariant
            n == modules.len(),
            dirty@.len() == n,
            old_state.modules@ == modules,
            old_state.wf(),
            build_state.modules@.len() == n,
            build_state.project_root == old_state.project_root,
            build_state.root_config_name == old_state.root_config_name,
            build_state.packages == old_state.packages,
            forall|j: int| 0 <= j < n ==> dirty@[j] == reaches_seed(modules, seed, j),
            forall|j: int|
                0 <= j < n ==> {
                    let m = modules[j];
                    let r = #[trigger] build_state.modules@[j];
                    &&& r.compile_dirty == if j < i { dirty@[j] } else { m.compile_dirty }
                    &&& r.name == m.name && r.package_name == m.package_name && r.deps == m.deps
                    &&& r.source_type == m.source_type
                    &&& r.last_compiled_cmi == m.last_compiled_cmi
                    &&& r.last_compiled_cmt == m.last_compiled_cmt
                },
        decreases n - i,
    {
        build_state.modules[i].compile_dirty = dirty[i];
        i = i + 1;
    }
    proof {
        assert forall|a: int, b: int|
            0 <= a < build_state.modules@.len() && 0 <= b < build_state.modules@[a].deps@.len()
            implies #[trigger] build_state.modules@[a].deps@[b] < build_state.modules@.len() by {
            assert(build_state.modules@[a].deps == modules[a].deps);
        }
        assert forall|a: int, b: int|
            0 <= a < build_state.modules@.len() && 0 <= b < build_state.modules@.len() && a != b
            implies #[trigger] build_state.modules@[a].name@ != #[trigger] build_state.modules@[b].name@ by {
            assert(build_state.modules@[a].name == modules[a].name);
            assert(build_state.modules@[b].name == modules[b].name);
        }
    }
}

/// Records what module `i` depends on, from the module names its AST refers to: names of
/// modules in the build become dependency edges, in order; other names are external and
/// dropped. A module that refers to a deleted module must be compiled again.
pub fn set_module_deps(
    build_state: &mut BuildState,
    i: usize,
    names: &Vec<String>,
    deleted_module_names: &AHashSet<String>,
)
    requires
        old(build_state).wf(),
        i < old(build_state).modules@.len(),
    ensures
        final(build_state).wf(),
        final(build_state).project_root == old(build_state).project_root,
        final(build_state).root_config_name == old(build_state).root_config_name,
        final(build_state).packages == old(build_state).packages,
        final(build_state).modules@.len() == old(build_state).modules@.len(),
        forall|j: int|
            0 <= j < old(build_state).modules@.len() && j != i ==> #[trigger] final(build_state).modules@[j]
                == old(build_state).modules@[j],
        ({
            let m = old(build_state).modules@[i as int];
            let r = final(build_state).modules@[i as int];
            &&& r.deps@ == resolved(old(build_state).modules@, names@, names@.len() as int)
            &&& r.compile_dirty == (m.compile_dirty || exists|k: int|
                0 <= k < names@.len() && name_set_contents(*deleted_module_names).contains(
                    #[trigger] names@[k]@,
                ))
            &&& r.name == m.name && r.package_name == m.package_name
            &&& r.source_type == m.source_type
            &&& r.last_compiled_cmi == m.last_compiled_cmi
            &&& r.last_compiled_cmt == m.last_compiled_cmt
        }),
{
    let ghost modules = build_state.modules@;
    let mut deps: Vec<usize> = Vec::new();
    let mut refers_deleted = false;
    let mut k: usize = 0;
    while k < names.len()
        invariant
            build_state.modules@ == modules,
            build_state.wf(),
            k <= names@.len(),
            deps@ == resolved(modules, names@, k as int),
            forall|l: int| 0 <= l < deps@.len() ==> #[trigger] deps@[l] < modules.len(),
            refers_deleted == exists|l: int|
                0 <= l < k && name_set_contents(*deleted_module_names).contains(
                    #[trigger] names@[l]@,
                ),
        decreases names@.len() - k,
    {
        let ghost before = deps@;
        match build_state.module_index(names[k].as_str()) {
            Some(j) => {
                proof {
                    let c = choose|c: int|
                        0 <= c < modules.len() && #[trigger] modules[c].name@ == names@[k as int]@;
                    assert(modules[j as int].name@ == names@[k as int]@);
                    assert(c == j);
                }
                deps.push(j);
            },
            None => {
                assert(deps@ =~= before + Seq::<usize>::empty());
            },
        }
        if name_set_contains(deleted_module_names, names[k].as_str()) {
            refers_deleted = true;
        }
        k = k + 1;
    }
    build_state.modules[i].deps = deps;
    if refers_deleted {
        build_state.modules[i].compile_dirty = true;
    }
    proof {
        assert forall|a: int, b: int|
            0 <= a < build_state.modules@.len() && 0 <= b < build_state.modules@[a].deps@.len()
            implies #[trigger] build_state.modules@[a].deps@[b] < build_state.modules@.len() by {
            if a != i {
                assert(build_state.modules@[a] == modules[a]);
            }
        }
        assert forall|a: int, b: int|
            0 <= a < build_state.modules@.len() && 0 <= b < build_state.modules@.len() && a != b
            implies #[trigger] build_state.modules@[a].name@ != #[trigger] build_state.modules@[b].name@ by {
            assert(build_state.modules@[a].name == modules[a].name);
            assert(build_state.modules@[b].name == modules[b].name);
        }
    }
}

/// A header line that starts with `/`: the source path, after which the AST proper begins.
pub open spec fn is_path_line(line: Seq<char>) -> bool {
    line.len() > 0 && line[0] == '/'
}

/// The first line at or after `k` that is a path line, or the number of lines.
pub open spec fn path_line_from(lines: Seq<Seq<char>>, k: nat) -> nat
    decreases lines.len() - k,
{
    if k >= lines.len() {
        lines.len()
    } else if is_path_line(lines[k as int]) {
        k
    } else {
        path_line_from(lines, k + 1)
    }
}

/// Where an AST header's dependency section ends: the path line after the first line.
pub open spec fn header_end(lines: Seq<Seq<char>>) -> nat {
    path_line_from(lines, 1)
}

/// The non-empty lines among lines `1` up to `k`.
pub open spec fn nonempty_upto(lines: Seq<Seq<char>>, k: int) -> Seq<Seq<char>>
    decreases k,
{
    if k <= 1 {
        Seq::empty()
    } else {
        nonempty_upto(lines, k - 1) + if lines[k - 1].len() > 0 {
            seq![lines[k - 1]]
        } else {
            Seq::empty()
        }
    }
}

proof fn lemma_path_line_from_range(lines: Seq<Seq<char>>, k: nat)
    ensures
        k <= lines.len() ==> k <= path_line_from(lines, k) <= lines.len(),
        k > lines.len() ==> path_line_from(lines, k) == lines.len(),
    decreases lines.len() - k,
{
    if k < lines.len() {
        lemma_path_line_from_range(lines, k + 1);
    }
}

/// The module names an AST's header refers to: after its first line, each non-empty line up
/// to the line that holds the source path.
pub fn ast_header_dependencies(lines: &Vec<String>) -> (r: Vec<String>)
    ensures
        views(r@) == nonempty_upto(views(lines@), header_end(views(lines@)) as int),
{
    let ghost ls = views(lines@);
    let mut r: Vec<String> = Vec::new();
    let mut k: usize = 1;
    proof {
        lemma_path_line_from_range(ls, 1);
        assert(views(r@) =~= nonempty_upto(ls, 1));
    }
    while k < lines.len()
        invariant
            ls == views(lines@),
            1 <= k,
            k <= lines@.len() || k == 1,
            path_line_from(ls, k as nat) == header_end(ls),
            views(r@) == nonempty_upto(ls, k as int),
        decreases lines@.len() - k,
    {
        let line = lines[k].as_str();
        let n = line.unicode_len();
        assert(ls[k as int] == line@);
        if n > 0 && line.get_char(0) == '/' {
            return r;
        }
        let ghost before = views(r@);
        if n > 0 {
            r.push(lines[k].clone());
            assert(views(r@) =~= before.push(line@));
        } else {
            assert(views(r@) =~= before + Seq::<Seq<char>>::empty());
        }
        k = k + 1;
    }
    proof {
        if lines@.len() == 0 {
            assert(nonempty_upto(ls, 0) =~= nonempty_upto(ls, 1));
        }
    }
    r
}

/// The source path an AST's header records, if it has one.
pub fn ast_header_source(lines: &Vec<String>) -> (r: Option<String>)
    ensures
        header_end(views(lines@)) < lines@.len() ==> (r matches Some(p) && p@ == lines@[header_end(
            views(lines@),
        ) as int]@),
        header_end(views(lines@)) >= lines@.len() ==> r is None,
{
    let ghost ls = views(lines@);
    let mut k: usize = 1;
    proof {
        lemma_path_line_from_range(ls, 1);
    }
    while k < lines.len()
        invariant
            ls == views(lines@),
            1 <= k,
            path_line_from(ls, k as nat) == header_end(ls),
        decreases lines@.len() - k,
    {
        let line = lines[k].as_str();
        assert(ls[k as int] == line@);
        if line.unicode_len() > 0 && line.get_char(0) == '/' {
            return Some(lines[k].clone());
        }
        k = k + 1;
    }
    None
}

} // verus!
