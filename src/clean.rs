use crate::build_types::{
    BuildState, CompileState, Module, Package, ParseState, SourceType, package_of,
};
use crate::helpers::{
    ast_path_of, bs_compiler_asset_of, change_extension, compiler_asset_of, contains_char,
    file_name_present, get_ast_path, get_bs_compiler_asset, get_compiler_asset, get_iast_path,
    get_package_path, has_file_name, package_path_of, iast_path_of, is_interface_ast_file, with_extension_of,
};
use crate::name_set::{name_set_contains, name_set_contents, name_set_insert, name_set_new};
use crate::packages::Namespace;
use crate::text::{after_first, join3, same_text, slice, take_until, views};
use ahash::AHashSet;
use vstd::prelude::*;
use vstd::string::*;

verus! {

/// An AST file found in a previous build's output.
pub struct AstModule {
    pub module_name: String,
    pub package_name: String,
    pub namespace: Namespace,
    pub last_modified: u64,
    pub ast_file_path: String,
    pub is_root: bool,
    /// The package's output suffix (such as `.mjs`), where it sets one.
    pub suffix: Option<String>,
    /// The source file the AST was parsed from, as the AST records it.
    pub source_file: String,
}

/// What a previous build left on disk, read before this build starts.
pub struct CompileAssetsState {
    pub ast_modules: Vec<AstModule>,
    /// Module name and modification time of each `.cmi` file.
    pub cmi_modules: Vec<(String, u64)>,
    /// Module name and modification time of each `.cmt` file.
    pub cmt_modules: Vec<(String, u64)>,
    /// The source files the project holds now.
    pub rescript_file_locations: Vec<String>,
}

/// What the reconciliation found, and the files it asks to delete.
pub struct CleanupReport {
    /// How many previous ASTs belong to source files that are gone.
    pub orphan_count: usize,
    /// How many previous ASTs there were.
    pub total_sources: usize,
    /// Modules (or, for a namespaced module, its namespace) that no longer exist.
    pub deleted_module_names: AHashSet<String>,
    /// Artifact and output files to delete, missing ones being no error.
    pub removals: Vec<String>,
}

pub open spec fn listed(l: Seq<String>, s: Seq<char>) -> bool {
    exists|i: int| 0 <= i < l.len() && #[trigger] l[i]@ == s
}

pub open spec fn is_iast_path(p: Seq<char>) -> bool {
    5 <= p.len() && p.subrange(p.len() - 5, p.len() as int) == ".iast"@
}

/// No two entries share a name.
pub open spec fn unique_names(l: Seq<(String, u64)>) -> bool {
    forall|i: int, j: int|
        0 <= i < l.len() && 0 <= j < l.len() && i != j ==> #[trigger] l[i].0@ != #[trigger] l[j].0@
}

/// The time recorded for `name`, if any.
pub open spec fn time_of(l: Seq<(String, u64)>, name: Seq<char>) -> Option<u64> {
    if exists|j: int| 0 <= j < l.len() && #[trigger] l[j].0@ == name {
        let j = choose|j: int| 0 <= j < l.len() && #[trigger] l[j].0@ == name;
        Some(l[j].1)
    } else {
        None
    }
}

/// The extension of the JavaScript output for a package's suffix.
pub open spec fn js_extension_of(suffix: Option<String>) -> Seq<char> {
    match suffix {
        None => "mjs"@,
        Some(s) => if s@.len() > 0 && s@[0] == '.' {
            s@.drop_first()
        } else {
            s@
        },
    }
}

/// The compile artifacts of a source file, in both build directories.
pub open spec fn compile_asset_paths(
    src: Seq<char>,
    pkg: Seq<char>,
    ns: Namespace,
    root: Seq<char>,
    is_root: bool,
) -> Seq<Seq<char>> {
    seq![
        compiler_asset_of(src, pkg, ns, root, "cmj"@, is_root),
        bs_compiler_asset_of(src, pkg, ns, root, "cmj"@, is_root),
        compiler_asset_of(src, pkg, ns, root, "cmi"@, is_root),
        bs_compiler_asset_of(src, pkg, ns, root, "cmi"@, is_root),
        compiler_asset_of(src, pkg, ns, root, "cmt"@, is_root),
        bs_compiler_asset_of(src, pkg, ns, root, "cmt"@, is_root),
        compiler_asset_of(src, pkg, ns, root, "cmti"@, is_root),
        bs_compiler_asset_of(src, pkg, ns, root, "cmti"@, is_root),
    ]
}

/// The JavaScript output of a source file, where it can be named.
pub open spec fn js_output_paths(src: Seq<char>, suffix: Option<String>) -> Seq<Seq<char>> {
    if js_extension_of(suffix).contains('/') {
        Seq::empty()
    } else {
        seq![with_extension_of(src, js_extension_of(suffix))]
    }
}

/// Everything to delete for a previous AST whose source is gone.
pub open spec fn orphan_removals(a: AstModule, root: Seq<char>) -> Seq<Seq<char>> {
    let src = a.source_file@;
    if !has_file_name(src) {
        Seq::empty()
    } else {
        compile_asset_paths(src, a.package_name@, a.namespace, root, a.is_root) + js_output_paths(
            src,
            a.suffix,
        ) + seq![
            iast_path_of(src, a.package_name@, root, a.is_root),
            ast_path_of(src, a.package_name@, root, a.is_root),
        ]
    }
}

/// The name reported for a deleted module: its namespace, where its name carries one.
pub open spec fn deleted_name(module_name: Seq<char>) -> Seq<char> {
    match after_first(module_name, '-') {
        Some(rest) => take_until(rest, '-'),
        None => module_name,
    }
}

impl CompileAssetsState {
    /// Keys are unique, as in the maps the scanner fills.
    pub open spec fn wf(&self) -> bool {
        &&& forall|i: int, j: int|
            0 <= i < self.ast_modules@.len() && 0 <= j < self.ast_modules@.len() && i != j
                ==> #[trigger] self.ast_modules@[i].source_file@
                != #[trigger] self.ast_modules@[j].source_file@
        &&& unique_names(self.cmi_modules@)
        &&& unique_names(self.cmt_modules@)
    }

    /// The source of the `k`-th previous AST is gone.
    pub open spec fn is_orphan(&self, k: int) -> bool {
        !listed(self.rescript_file_locations@, self.ast_modules@[k].source_file@)
    }

    /// Modules whose interface was deleted, among the first `k` previous ASTs.
    pub open spec fn deleted_interfaces_upto(&self, k: int) -> Set<Seq<char>> {
        Set::new(
            |n: Seq<char>|
                exists|j: int|
                    0 <= j < k && self.is_orphan(j) && is_iast_path(
                        #[trigger] self.ast_modules@[j].ast_file_path@,
                    ) && self.ast_modules@[j].module_name@ == n,
        )
    }

    /// Modules whose interface file was deleted since the previous build.
    pub open spec fn deleted_interfaces(&self) -> Set<Seq<char>> {
        self.deleted_interfaces_upto(self.ast_modules@.len() as int)
    }

    /// The module's `.cmi` is newer than one of its surviving ASTs, and no interface of it
    /// was deleted: it need not be compiled again.
    pub open spec fn compile_clean(&self, name: Seq<char>) -> bool {
        &&& !self.deleted_interfaces().contains(name)
        &&& exists|k: int|
            0 <= k < self.ast_modules@.len() && !self.is_orphan(k)
                && #[trigger] self.ast_modules@[k].module_name@ == name && (time_of(
                self.cmi_modules@,
                name,
            ) matches Some(c) && c > self.ast_modules@[k].last_modified)
    }

    /// A surviving AST of the module (of its interface when `iface`) is newer than `t`.
    pub open spec fn ast_current(&self, name: Seq<char>, iface: bool, t: u64) -> bool {
        exists|k: int|
            0 <= k < self.ast_modules@.len() && !self.is_orphan(k)
                && #[trigger] self.ast_modules@[k].module_name@ == name && is_iast_path(
                self.ast_modules@[k].ast_file_path@,
            ) == iface && self.ast_modules@[k].last_modified > t
    }

    /// How many of the first `k` previous ASTs are orphans.
    pub open spec fn orphan_count_upto(&self, k: int) -> nat
        decreases k,
    {
        if k <= 0 {
            0
        } else {
            self.orphan_count_upto(k - 1) + if self.is_orphan(k - 1) {
                1nat
            } else {
                0nat
            }
        }
    }

    /// The files to delete for the orphans among the first `k` previous ASTs.
    pub open spec fn removals_upto(&self, root: Seq<char>, k: int) -> Seq<Seq<char>>
        decreases k,
    {
        if k <= 0 {
            Seq::empty()
        } else {
            self.removals_upto(root, k - 1) + if self.is_orphan(k - 1) {
                orphan_removals(self.ast_modules@[k - 1], root)
            } else {
                Seq::empty()
            }
        }
    }

    /// Deleted modules among the first `k` previous ASTs.
    pub open spec fn deleted_modules_upto(&self, modules: Seq<Module>, k: int) -> Set<Seq<char>> {
        Set::new(
            |d: Seq<char>|
                exists|j: int|
                    0 <= j < k && !is_iast_path(#[trigger] self.ast_modules@[j].ast_file_path@)
                        && (forall|i: int|
                        0 <= i < modules.len() ==> modules[i].name@
                            != self.ast_modules@[j].module_name@) && deleted_name(
                        self.ast_modules@[j].module_name@,
                    ) == d,
        )
    }

    /// Names of modules that had an implementation AST and are no longer in the build.
    pub open spec fn deleted_modules(&self, modules: Seq<Module>) -> Set<Seq<char>> {
        self.deleted_modules_upto(modules, self.ast_modules@.len() as int)
    }

    /// How module `m` stands once the previous build has been taken into account.
    pub open spec fn reconciled(&self, m: Module, r: Module) -> bool {
        let name = m.name@;
        &&& r.name == m.name
        &&& r.package_name == m.package_name
        &&& r.deps == m.deps
        &&& r.compile_dirty == (m.compile_dirty && !self.compile_clean(name))
        &&& r.last_compiled_cmi == match time_of(self.cmi_modules@, name) {
            Some(t) => Some(t),
            None => m.last_compiled_cmi,
        }
        &&& r.last_compiled_cmt == match time_of(self.cmt_modules@, name) {
            Some(t) => Some(t),
            None => m.last_compiled_cmt,
        }
        &&& match (m.source_type, r.source_type) {
            (SourceType::SourceFile(a), SourceType::SourceFile(b)) => {
                let ai = a.implementation;
                let bi = b.implementation;
                &&& bi.path == ai.path && bi.last_modified == ai.last_modified
                &&& bi.parse_state == ai.parse_state && bi.compile_state == ai.compile_state
                &&& bi.dirty == (ai.dirty && !(self.ast_current(name, false, ai.last_modified)
                    && !self.deleted_interfaces().contains(name)))
                &&& match (a.interface, b.interface) {
                    (None, None) => true,
                    (Some(x), Some(y)) => {
                        &&& y.path == x.path && y.last_modified == x.last_modified
                        &&& y.parse_state == x.parse_state && y.compile_state == x.compile_state
                        &&& y.dirty == (x.dirty && !self.ast_current(name, true, x.last_modified))
                    },
                    _ => false,
                }
            },
            (SourceType::MlMap(a), SourceType::MlMap(b)) => a == b,
            _ => false,
        }
    }
}

/// The paths of a source file's compile artifacts, in both build directories.
pub fn remove_compile_assets(
    source_file: &str,
    package_name: &str,
    namespace: &Namespace,
    root_path: &str,
    is_root: bool,
) -> (r: Vec<String>)
    requires
        has_file_name(source_file@),
    ensures
        views(r@) == compile_asset_paths(
            source_file@,
            package_name@,
            *namespace,
            root_path@,
            is_root,
        ),
{
    let mut r: Vec<String> = Vec::new();
    r.push(get_compiler_asset(source_file, package_name, namespace, root_path, "cmj", is_root));
    r.push(get_bs_compiler_asset(source_file, package_name, namespace, root_path, "cmj", is_root));
    r.push(get_compiler_asset(source_file, package_name, namespace, root_path, "cmi", is_root));
    r.push(get_bs_compiler_asset(source_file, package_name, namespace, root_path, "cmi", is_root));
    r.push(get_compiler_asset(source_file, package_name, namespace, root_path, "cmt", is_root));
    r.push(get_bs_compiler_asset(source_file, package_name, namespace, root_path, "cmt", is_root));
    r.push(get_compiler_asset(source_file, package_name, namespace, root_path, "cmti", is_root));
    r.push(
        get_bs_compiler_asset(source_file, package_name, namespace, root_path, "cmti", is_root),
    );
    assert(views(r@) =~= compile_asset_paths(
        source_file@,
        package_name@,
        *namespace,
        root_path@,
        is_root,
    ));
    r
}

/// The extension of the JavaScript output for a package's suffix.
fn js_extension(suffix: &Option<String>) -> (r: String)
    ensures
        r@ == js_extension_of(*suffix),
{
    match suffix {
        None => String::from_str("mjs"),
        Some(s) => {
            let n = s.as_str().unicode_len();
            if n > 0 && s.as_str().get_char(0) == '.' {
                let t = slice(s.as_str(), 1, n);
                assert(t@ =~= s@.drop_first());
                t
            } else {
                s.clone()
            }
        },
    }
}

/// The JavaScript output of a source file.
pub fn remove_mjs_file(source_file: &str, suffix: &Option<String>) -> (r: Vec<String>)
    requires
        has_file_name(source_file@),
    ensures
        views(r@) == js_output_paths(source_file@, *suffix),
{
    let ext = js_extension(suffix);
    let mut r: Vec<String> = Vec::new();
    if !contains_char(ext.as_str(), '/') {
        r.push(change_extension(source_file, ext.as_str()));
    }
    assert(views(r@) =~= js_output_paths(source_file@, *suffix));
    r
}

/// Everything to delete for one previous AST whose source is gone.
fn orphan_paths(a: &AstModule, root_path: &str) -> (r: Vec<String>)
    ensures
        views(r@) == orphan_removals(*a, root_path@),
{
    let src = a.source_file.as_str();
    if !file_name_present(src) {
        return Vec::new();
    }
    let pkg = a.package_name.as_str();
    let mut r = remove_compile_assets(src, pkg, &a.namespace, root_path, a.is_root);
    let mut js = remove_mjs_file(src, &a.suffix);
    let ghost r0 = views(r@);
    let ghost j0 = views(js@);
    r.append(&mut js);
    assert(views(r@) =~= r0 + j0);
    r.push(get_iast_path(src, pkg, root_path, a.is_root));
    r.push(get_ast_path(src, pkg, root_path, a.is_root));
    assert(views(r@) =~= orphan_removals(*a, root_path@));
    r
}

/// Whether `s` is one of `l`.
fn is_listed(l: &Vec<String>, s: &str) -> (r: bool)
    ensures
        r == listed(l@, s@),
{
    let mut i: usize = 0;
    while i < l.len()
        invariant
            i <= l@.len(),
            forall|j: int| 0 <= j < i ==> #[trigger] l@[j]@ != s@,
        decreases l@.len() - i,
    {
        if same_text(l[i].as_str(), s) {
            return true;
        }
        i = i + 1;
    }
    false
}

/// The time recorded for `name`.
fn lookup_time(l: &Vec<(String, u64)>, name: &str) -> (r: Option<u64>)
    requires
        unique_names(l@),
    ensures
        r == time_of(l@, name@),
{
    let mut i: usize = 0;
    while i < l.len()
        invariant
            i <= l@.len(),
            unique_names(l@),
            forall|j: int| 0 <= j < i ==> #[trigger] l@[j].0@ != name@,
        decreases l@.len() - i,
    {
        if same_text(l[i].0.as_str(), name) {
            assert(l@[i as int].0@ == name@);
            let ghost j = choose|j: int| 0 <= j < l@.len() && #[trigger] l@[j].0@ == name@;
            assert(j == i);
            return Some(l[i].1);
        }
        i = i + 1;
    }
    None
}

/// For each previous AST, whether its source is gone.
fn orphan_flags(assets: &CompileAssetsState) -> (r: Vec<bool>)
    ensures
        r@.len() == assets.ast_modules@.len(),
        forall|k: int| 0 <= k < r@.len() ==> r@[k] == assets.is_orphan(k),
{
    let mut r: Vec<bool> = Vec::new();
    let mut k: usize = 0;
    while k < assets.ast_modules.len()
        invariant
            k <= assets.ast_modules@.len(),
            r@.len() == k,
            forall|j: int| 0 <= j < k ==> r@[j] == assets.is_orphan(j),
        decreases assets.ast_modules@.len() - k,
    {
        let present = is_listed(
            &assets.rescript_file_locations,
            assets.ast_modules[k].source_file.as_str(),
        );
        r.push(!present);
        k = k + 1;
    }
    r
}

/// Whether the module's compile artifacts are current.
fn is_compile_clean(
    assets: &CompileAssetsState,
    orphans: &Vec<bool>,
    deleted_interfaces: &AHashSet<String>,
    name: &str,
) -> (r: bool)
    requires
        assets.wf(),
        orphans@.len() == assets.ast_modules@.len(),
        forall|k: int| 0 <= k < orphans@.len() ==> orphans@[k] == assets.is_orphan(k),
        name_set_contents(*deleted_interfaces) == assets.deleted_interfaces(),
    ensures
        r == assets.compile_clean(name@),
{
    if name_set_contains(deleted_interfaces, name) {
        return false;
    }
    let cmi = lookup_time(&assets.cmi_modules, name);
    match cmi {
        None => false,
        Some(c) => {
            let mut k: usize = 0;
            while k < assets.ast_modules.len()
                invariant
                    k <= assets.ast_modules@.len(),
                    orphans@.len() == assets.ast_modules@.len(),
                    forall|j: int| 0 <= j < orphans@.len() ==> orphans@[j] == assets.is_orphan(j),
                    time_of(assets.cmi_modules@, name@) == Some(c),
                    !assets.deleted_interfaces().contains(name@),
                    forall|j: int|
                        0 <= j < k ==> !(!assets.is_orphan(j)
                            && #[trigger] assets.ast_modules@[j].module_name@ == name@ && c
                            > assets.ast_modules@[j].last_modified),
                decreases assets.ast_modules@.len() - k,
            {
                let a = &assets.ast_modules[k];
                if !orphans[k] && same_text(a.module_name.as_str(), name) && c > a.last_modified {
                    assert(assets.ast_modules@[k as int].module_name@ == name@);
                    return true;
                }
                k = k + 1;
            }
            false
        },
    }
}

/// Whether a surviving AST of the module (of its interface when `iface`) is newer than `t`.
fn is_ast_current(
    assets: &CompileAssetsState,
    orphans: &Vec<bool>,
    name: &str,
    iface: bool,
    t: u64,
) -> (r: bool)
    requires
        orphans@.len() == assets.ast_modules@.len(),
        forall|k: int| 0 <= k < orphans@.len() ==> orphans@[k] == assets.is_orphan(k),
    ensures
        r == assets.ast_current(name@, iface, t),
{
    let mut k: usize = 0;
    while k < assets.ast_modules.len()
        invariant
            k <= assets.ast_modules@.len(),
            orphans@.len() == assets.ast_modules@.len(),
            forall|j: int| 0 <= j < orphans@.len() ==> orphans@[j] == assets.is_orphan(j),
            forall|j: int|
                0 <= j < k ==> !(!assets.is_orphan(j) && #[trigger] assets.ast_modules@[j].module_name@
                    == name@ && is_iast_path(assets.ast_modules@[j].ast_file_path@) == iface
                    && assets.ast_modules@[j].last_modified > t),
        decreases assets.ast_modules@.len() - k,
    {
        let a = &assets.ast_modules[k];
        if !orphans[k] && same_text(a.module_name.as_str(), name) && is_interface_ast_file(
            a.ast_file_path.as_str(),
        ) == iface && a.last_modified > t {
            return true;
        }
        k = k + 1;
    }
    false
}

/// Takes the previous build into account for one module.
fn reconcile_module(
    m: &mut Module,
    assets: &CompileAssetsState,
    orphans: &Vec<bool>,
    deleted_interfaces: &AHashSet<String>,
)
    requires
        assets.wf(),
        orphans@.len() == assets.ast_modules@.len(),
        forall|k: int| 0 <= k < orphans@.len() ==> orphans@[k] == assets.is_orphan(k),
        name_set_contents(*deleted_interfaces) == assets.deleted_interfaces(),
    ensures
        assets.reconciled(*old(m), *final(m)),
{
    let name = m.name.clone();
    if is_compile_clean(assets, orphans, deleted_interfaces, name.as_str()) {
        m.compile_dirty = false;
    }
    match lookup_time(&assets.cmi_modules, name.as_str()) {
        Some(t) => {
            m.last_compiled_cmi = Some(t);
        },
        None => {},
    }
    match lookup_time(&assets.cmt_modules, name.as_str()) {
        Some(t) => {
            m.last_compiled_cmt = Some(t);
        },
        None => {},
    }
    let interface_gone = name_set_contains(deleted_interfaces, name.as_str());
    match &mut m.source_type {
        SourceType::SourceFile(sf) => {
            if !interface_gone && is_ast_current(
                assets,
                orphans,
                name.as_str(),
                false,
                sf.implementation.last_modified,
            ) {
                sf.implementation.dirty = false;
            }
            match &mut sf.interface {
                Some(iface) => {
                    if is_ast_current(assets, orphans, name.as_str(), true, iface.last_modified) {
                        iface.dirty = false;
                    }
                },
                None => {},
            }
        },
        SourceType::MlMap(_) => {},
    }
}

/// Reconciles what a previous build left with the current sources. Artifacts of sources that
/// are gone are listed for deletion (compile artifacts in both build directories, the
/// JavaScript output, both ASTs); a module whose `.cmi` is newer than a surviving AST, and
/// whose interface was not deleted, need not be compiled again; a file whose AST is newer than
/// it need not be parsed again; implementation ASTs of modules no longer in the build give the
/// deleted module names.
pub fn cleanup_previous_build(
    build_state: &mut BuildState,
    compile_assets_state: &CompileAssetsState,
) -> (r: CleanupReport)
    requires
        old(build_state).wf(),
        compile_assets_state.wf(),
    ensures
        final(build_state).wf(),
        final(build_state).project_root == old(build_state).project_root,
        final(build_state).root_config_name == old(build_state).root_config_name,
        final(build_state).packages == old(build_state).packages,
        final(build_state).modules@.len() == old(build_state).modules@.len(),
        forall|i: int|
            0 <= i < old(build_state).modules@.len() ==> compile_assets_state.reconciled(
                #[trigger] old(build_state).modules@[i],
                final(build_state).modules@[i],
            ),
        r.orphan_count == compile_assets_state.orphan_count_upto(
            compile_assets_state.ast_modules@.len() as int,
        ),
        r.total_sources == compile_assets_state.ast_modules@.len(),
        views(r.removals@) == compile_assets_state.removals_upto(
            old(build_state).project_root@,
            compile_assets_state.ast_modules@.len() as int,
        ),
        name_set_contents(r.deleted_module_names) == compile_assets_state.deleted_modules(
            old(build_state).modules@,
        ),
{
    let assets = compile_assets_state;
    let n = assets.ast_modules.len();
    let orphans = orphan_flags(assets);
    let root = build_state.project_root.clone();
    let mut deleted_interfaces = name_set_new();
    let mut removals: Vec<String> = Vec::new();
    let mut count: usize = 0;
    let mut k: usize = 0;
    proof {
        assert(assets.deleted_interfaces_upto(0) =~= Set::<Seq<char>>::empty());
        assert(views(removals@) =~= Seq::<Seq<char>>::empty());
    }
    while k < n
        invariant
            n == assets.ast_modules@.len(),
            k <= n,
            orphans@.len() == n,
            forall|j: int| 0 <= j < n ==> orphans@[j] == assets.is_orphan(j),
            name_set_contents(deleted_interfaces) == assets.deleted_interfaces_upto(k as int),
            views(removals@) == assets.removals_upto(root@, k as int),
            count == assets.orphan_count_upto(k as int),
            count <= k,
        decreases n - k,
    {
        let ghost before = removals@;
        if orphans[k] {
            let a = &assets.ast_modules[k];
            let mut paths = orphan_paths(a, root.as_str());
            let ghost p = paths@;
            removals.append(&mut paths);
            assert(views(removals@) =~= views(before) + views(p));
            if is_interface_ast_file(a.ast_file_path.as_str()) {
                name_set_insert(&mut deleted_interfaces, a.module_name.clone());
                assert(assets.deleted_interfaces_upto(k + 1) =~= assets.deleted_interfaces_upto(
                    k as int,
                ).insert(a.module_name@));
            } else {
                assert(assets.deleted_interfaces_upto(k + 1) =~= assets.deleted_interfaces_upto(
                    k as int,
                ));
            }
            count = count + 1;
        } else {
            assert(assets.deleted_interfaces_upto(k + 1) =~= assets.deleted_interfaces_upto(
                k as int,
            ));
            assert(views(removals@) =~= views(before) + Seq::<Seq<char>>::empty());
        }
        k = k + 1;
    }
    let mut deleted_module_names = name_set_new();
    k = 0;
    proof {
        assert(assets.deleted_modules_upto(build_state.modules@, 0) =~= Set::<Seq<char>>::empty());
    }
    while k < n
        invariant
            n == assets.ast_modules@.len(),
            k <= n,
            name_set_contents(deleted_module_names) == assets.deleted_modules_upto(
                build_state.modules@,
                k as int,
            ),
        decreases n - k,
    {
        let a = &assets.ast_modules[k];
        let gone = !is_interface_ast_file(a.ast_file_path.as_str()) && build_state.module_index(
            a.module_name.as_str(),
        ).is_none();
        if gone {
            let d = match crate::helpers::get_namespace_from_module_name(a.module_name.as_str()) {
                Some(ns) => ns,
                None => a.module_name.clone(),
            };
            name_set_insert(&mut deleted_module_names, d);
            assert(assets.deleted_modules_upto(build_state.modules@, k + 1)
                =~= assets.deleted_modules_upto(build_state.modules@, k as int).insert(
                deleted_name(a.module_name@),
            ));
        } else {
            assert(assets.deleted_modules_upto(build_state.modules@, k + 1)
                =~= assets.deleted_modules_upto(build_state.modules@, k as int));
        }
        k = k + 1;
    }
    let ghost old_state = *build_state;
    let mut i: usize = 0;
    while i < build_state.modules.len()
        invariant
            name_set_contents(deleted_interfaces) == assets.deleted_interfaces(),
            orphans@.len() == n,
            n == assets.ast_modules@.len(),
            forall|j: int| 0 <= j < n ==> orphans@[j] == assets.is_orphan(j),
            assets.wf(),
            build_state.modules@.len() == old_state.modules@.len(),
            build_state.project_root == old_state.project_root,
            build_state.root_config_name == old_state.root_config_name,
            build_state.packages == old_state.packages,
            forall|j: int|
                0 <= j < i ==> assets.reconciled(
                    #[trigger] old_state.modules@[j],
                    build_state.modules@[j],
                ),
            forall|j: int|
                i <= j < build_state.modules@.len() ==> #[trigger] build_state.modules@[j]
                    == old_state.modules@[j],
        decreases build_state.modules@.len() - i,
    {
        reconcile_module(&mut build_state.modules[i], assets, &orphans, &deleted_interfaces);
        i = i + 1;
    }
    proof {
        assert forall|a: int, b: int|
            0 <= a < build_state.modules@.len() && 0 <= b < build_state.modules@[a].deps@.len()
            implies #[trigger] build_state.modules@[a].deps@[b] < build_state.modules@.len() by {
            assert(assets.reconciled(old_state.modules@[a], build_state.modules@[a]));
        }
        assert forall|a: int, b: int|
            0 <= a < build_state.modules@.len() && 0 <= b < build_state.modules@.len() && a != b
            implies #[trigger] build_state.modules@[a].name@ != #[trigger] build_state.modules@[b].name@ by {
            assert(assets.reconciled(old_state.modules@[a], build_state.modules@[a]));
            assert(assets.reconciled(old_state.modules@[b], build_state.modules@[b]));
        }
    }
    CleanupReport { orphan_count: count, total_sources: n, deleted_module_names, removals }
}

pub open spec fn bad_parse(s: ParseState) -> bool {
    s == ParseState::ParseError || s == ParseState::Warning
}

pub open spec fn bad_compile(s: CompileState) -> bool {
    s == CompileState::Error || s == CompileState::Warning
}

/// A file of the module failed to parse or parsed with warnings.
pub open spec fn parse_failed(m: Module) -> bool {
    match m.source_type {
        SourceType::SourceFile(sf) => bad_parse(sf.implementation.parse_state) || (
        sf.interface matches Some(i) && bad_parse(i.parse_state)),
        SourceType::MlMap(_) => false,
    }
}

/// The module failed to compile or compiled with warnings.
pub open spec fn compile_failed(m: Module) -> bool {
    match m.source_type {
        SourceType::SourceFile(sf) => bad_compile(sf.implementation.compile_state) || (
        sf.interface matches Some(i) && bad_compile(i.compile_state)),
        SourceType::MlMap(_) => false,
    }
}

/// What the sweep after a build deletes for one module: both ASTs where a file failed to
/// parse (or warned), so that it is parsed again; only the `.cmt` where it failed to compile
/// (or warned), so that it is compiled again while its `.cmi` keeps dependents clean.
pub open spec fn sweep_paths(m: Module, package: Option<Package>, root: Seq<char>) -> Seq<
    Seq<char>,
> {
    match (m.source_type, package) {
        (SourceType::SourceFile(sf), Some(p)) => {
            let src = sf.implementation.path@;
            let pkg = m.package_name@;
            if !has_file_name(src) {
                Seq::empty()
            } else {
                (if parse_failed(m) {
                    seq![iast_path_of(src, pkg, root, p.is_root), ast_path_of(src, pkg, root, p.is_root)]
                } else {
                    Seq::empty()
                }) + (if compile_failed(m) {
                    seq![
                        compiler_asset_of(src, pkg, p.namespace, root, "cmt"@, p.is_root),
                        bs_compiler_asset_of(src, pkg, p.namespace, root, "cmt"@, p.is_root),
                    ]
                } else {
                    Seq::empty()
                })
            }
        },
        _ => Seq::empty(),
    }
}

/// The sweep's deletions for the first `k` modules.
pub open spec fn sweep_upto(state: BuildState, k: int) -> Seq<Seq<char>>
    decreases k,
{
    if k <= 0 {
        Seq::empty()
    } else {
        sweep_upto(state, k - 1) + sweep_paths(
            state.modules@[k - 1],
            package_of(state.packages@, state.modules@[k - 1].package_name@),
            state.project_root@,
        )
    }
}

fn failed_to_parse(module: &Module) -> (r: bool)
    ensures
        r == parse_failed(*module),
{
    match &module.source_type {
        SourceType::SourceFile(sf) => {
            let s = sf.implementation.parse_state;
            s == ParseState::ParseError || s == ParseState::Warning || match &sf.interface {
                Some(i) => i.parse_state == ParseState::ParseError || i.parse_state
                    == ParseState::Warning,
                None => false,
            }
        },
        SourceType::MlMap(_) => false,
    }
}

fn failed_to_compile(module: &Module) -> (r: bool)
    ensures
        r == compile_failed(*module),
{
    match &module.source_type {
        SourceType::SourceFile(sf) => {
            let s = sf.implementation.compile_state;
            s == CompileState::Error || s == CompileState::Warning || match &sf.interface {
                Some(i) => i.compile_state == CompileState::Error || i.compile_state
                    == CompileState::Warning,
                None => false,
            }
        },
        SourceType::MlMap(_) => false,
    }
}

/// The files the sweep after a build deletes, module by module.
pub fn cleanup_after_build(build_state: &BuildState) -> (r: Vec<String>)
    requires
        build_state.wf(),
    ensures
        views(r@) == sweep_upto(*build_state, build_state.modules@.len() as int),
{
    let root = build_state.project_root.as_str();
    let mut r: Vec<String> = Vec::new();
    let mut i: usize = 0;
    while i < build_state.modules.len()
        invariant
            build_state.wf(),
            root@ == build_state.project_root@,
            i <= build_state.modules@.len(),
            views(r@) == sweep_upto(*build_state, i as int),
        decreases build_state.modules@.len() - i,
    {
        let m = &build_state.modules[i];
        let ghost before = views(r@);
        match build_state.get_package(m.package_name.as_str()) {
            Some(p) => match &m.source_type {
                SourceType::SourceFile(sf) => {
                    let src = sf.implementation.path.as_str();
                    if file_name_present(src) {
                        let pkg = m.package_name.as_str();
                        let ghost mid = views(r@);
                        if failed_to_parse(m) {
                            r.push(get_iast_path(src, pkg, root, p.is_root));
                            r.push(get_ast_path(src, pkg, root, p.is_root));
                        }
                        let ghost mid2 = views(r@);
                        if failed_to_compile(m) {
                            r.push(get_compiler_asset(src, pkg, &p.namespace, root, "cmt", p.is_root));
                            r.push(
                                get_bs_compiler_asset(src, pkg, &p.namespace, root, "cmt", p.is_root),
                            );
                        }
                        assert(views(r@) =~= before + sweep_paths(
                            *m,
                            package_of(build_state.packages@, m.package_name@),
                            root@,
                        ));
                    } else {
                        assert(views(r@) =~= before + Seq::<Seq<char>>::empty());
                    }
                },
                SourceType::MlMap(_) => {
                    assert(views(r@) =~= before + Seq::<Seq<char>>::empty());
                },
            },
            None => {
                assert(views(r@) =~= before + Seq::<Seq<char>>::empty());
            },
        }
        i = i + 1;
    }
    r
}

/// The suffix of the root package, whose setting holds for every package's output.
pub open spec fn root_suffix(state: BuildState) -> Option<String> {
    match package_of(state.packages@, state.root_config_name@) {
        Some(p) => p.suffix,
        None => None,
    }
}

/// Where the JavaScript output of a module lies, if it can be named.
pub open spec fn mjs_paths(m: Module, package: Option<Package>, root: Seq<char>, suffix: Option<String>) -> Seq<Seq<char>> {
    match (m.source_type, package) {
        (SourceType::SourceFile(sf), Some(p)) => {
            let path = package_path_of(root, m.package_name@, p.is_root) + "/"@
                + sf.implementation.path@;
            if has_file_name(path) {
                js_output_paths(path, suffix)
            } else {
                Seq::empty()
            }
        },
        _ => Seq::empty(),
    }
}

/// The JavaScript outputs of the first `k` modules.
pub open spec fn mjs_upto(state: BuildState, root: Seq<char>, k: int) -> Seq<Seq<char>>
    decreases k,
{
    if k <= 0 {
        Seq::empty()
    } else {
        mjs_upto(state, root, k - 1) + mjs_paths(
            state.modules@[k - 1],
            package_of(state.packages@, state.modules@[k - 1].package_name@),
            root,
            root_suffix(state),
        )
    }
}

/// The JavaScript outputs of every source module, which `clean` deletes.
pub fn clean_mjs_files(build_state: &BuildState, project_root: &str) -> (r: Vec<String>)
    requires
        build_state.wf(),
    ensures
        views(r@) == mjs_upto(*build_state, project_root@, build_state.modules@.len() as int),
{
    let root = project_root;
    let suffix: Option<String> = match build_state.get_package(build_state.root_config_name.as_str()) {
        Some(p) => match &p.suffix {
            Some(s) => Some(s.clone()),
            None => None,
        },
        None => None,
    };
    let mut r: Vec<String> = Vec::new();
    let mut i: usize = 0;
    while i < build_state.modules.len()
        invariant
            build_state.wf(),
            suffix == root_suffix(*build_state),
            i <= build_state.modules@.len(),
            views(r@) == mjs_upto(*build_state, root@, i as int),
        decreases build_state.modules@.len() - i,
    {
        let m = &build_state.modules[i];
        let ghost before = views(r@);
        match build_state.get_package(m.package_name.as_str()) {
            Some(p) => match &m.source_type {
                SourceType::SourceFile(sf) => {
                    let dir = get_package_path(root, m.package_name.as_str(), p.is_root);
                    let path = join3(dir.as_str(), "/", sf.implementation.path.as_str());
                    if file_name_present(path.as_str()) {
                        let mut js = remove_mjs_file(path.as_str(), &suffix);
                        let ghost j = views(js@);
                        r.append(&mut js);
                        assert(views(r@) =~= before + j);
                    } else {
                        assert(views(r@) =~= before + Seq::<Seq<char>>::empty());
                    }
                },
                SourceType::MlMap(_) => {
                    assert(views(r@) =~= before + Seq::<Seq<char>>::empty());
                },
            },
            None => {
                assert(views(r@) =~= before + Seq::<Seq<char>>::empty());
            },
        }
        i = i + 1;
    }
    r
}

} // verus!
