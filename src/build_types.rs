use crate::packages::Namespace;
use crate::text::same_text;
use vstd::prelude::*;

verus! {

/// Outcome of parsing one file in this build.
#[derive(PartialEq, Eq, Structural, Clone, Copy, Debug)]
pub enum ParseState {
    Pending,
    Success,
    Warning,
    ParseError,
}

/// Outcome of compiling one module in this build.
#[derive(PartialEq, Eq, Structural, Clone, Copy, Debug)]
pub enum CompileState {
    Pending,
    Success,
    Warning,
    Error,
    SkippedClean,
}

/// The implementation file of a module.
pub struct Implementation {
    pub path: String,
    pub last_modified: u64,
    /// The source is newer than its AST, or no AST exists.
    pub dirty: bool,
    pub parse_state: ParseState,
    pub compile_state: CompileState,
}

/// The interface file of a module.
pub struct Interface {
    pub path: String,
    pub last_modified: u64,
    /// The source is newer than its AST, or no AST exists.
    pub dirty: bool,
    pub parse_state: ParseState,
    pub compile_state: CompileState,
}

pub struct SourceFile {
    pub implementation: Implementation,
    pub interface: Option<Interface>,
}

/// The rollup module of a namespaced package.
pub struct MlMap {
    pub dirty: bool,
}

pub enum SourceType {
    SourceFile(SourceFile),
    MlMap(MlMap),
}

pub struct Module {
    /// The qualified module name.
    pub name: String,
    pub source_type: SourceType,
    pub package_name: String,
    /// Positions, in the build state, of the modules this one depends on.
    pub deps: Vec<usize>,
    /// This module, or something it depends on, changed since its last successful compile.
    pub compile_dirty: bool,
    pub last_compiled_cmi: Option<u64>,
    pub last_compiled_cmt: Option<u64>,
}

pub struct Package {
    pub name: String,
    pub is_root: bool,
    /// Whether the package's warnings are shown.
    pub is_pinned_dep: bool,
    pub namespace: Namespace,
    /// The suffix of the JavaScript output (such as `.mjs`), where the package sets one.
    pub suffix: Option<String>,
}

/// Everything a build knows about the project, threaded through its phases.
pub struct BuildState {
    pub project_root: String,
    pub root_config_name: String,
    pub packages: Vec<Package>,
    pub modules: Vec<Module>,
}

impl Module {
    pub open spec fn impl_dirty(&self) -> bool {
        match self.source_type {
            SourceType::SourceFile(sf) => sf.implementation.dirty,
            SourceType::MlMap(_) => false,
        }
    }

    pub open spec fn iface_dirty(&self) -> bool {
        match self.source_type {
            SourceType::SourceFile(sf) => match sf.interface {
                Some(i) => i.dirty,
                None => false,
            },
            SourceType::MlMap(_) => false,
        }
    }
}

/// The dependency edges of a list of modules stay within it.
pub open spec fn deps_in_range(modules: Seq<Module>) -> bool {
    forall|i: int, k: int|
        0 <= i < modules.len() && 0 <= k < modules[i].deps@.len() ==> #[trigger] modules[i].deps@[k]
            < modules.len()
}

/// No two packages share a name.
pub open spec fn unique_packages(packages: Seq<Package>) -> bool {
    forall|i: int, j: int|
        0 <= i < packages.len() && 0 <= j < packages.len() && i != j ==> #[trigger] packages[i].name@
            != #[trigger] packages[j].name@
}

/// The package with the given name, if any.
pub open spec fn package_of(packages: Seq<Package>, name: Seq<char>) -> Option<Package> {
    if exists|i: int| 0 <= i < packages.len() && #[trigger] packages[i].name@ == name {
        Some(packages[choose|i: int| 0 <= i < packages.len() && #[trigger] packages[i].name@ == name])
    } else {
        None
    }
}

impl BuildState {
    /// Module names are unique and dependency edges point at modules of the state.
    pub open spec fn wf(&self) -> bool {
        &&& deps_in_range(self.modules@)
        &&& unique_packages(self.packages@)
        &&& forall|i: int, j: int|
            0 <= i < self.modules@.len() && 0 <= j < self.modules@.len() && i != j
                ==> #[trigger] self.modules@[i].name@ != #[trigger] self.modules@[j].name@
    }

    /// Fresh state: no module yet.
    pub fn new(project_root: String, root_config_name: String, packages: Vec<Package>) -> (r:
        BuildState)
        requires
            unique_packages(packages@),
        ensures
            r.project_root == project_root,
            r.root_config_name == root_config_name,
            r.packages == packages,
            r.modules@.len() == 0,
            r.wf(),
    {
        BuildState { project_root, root_config_name, packages, modules: Vec::new() }
    }

    /// The package with the given name.
    pub fn get_package(&self, name: &str) -> (r: Option<&Package>)
        requires
            unique_packages(self.packages@),
        ensures
            r matches Some(p) ==> package_of(self.packages@, name@) == Some(*p),
            r is None ==> package_of(self.packages@, name@) is None,
    {
        let mut i: usize = 0;
        while i < self.packages.len()
            invariant
                unique_packages(self.packages@),
                i <= self.packages@.len(),
                forall|j: int| 0 <= j < i ==> #[trigger] self.packages@[j].name@ != name@,
            decreases self.packages@.len() - i,
        {
            if same_text(self.packages[i].name.as_str(), name) {
                proof {
                    let j = choose|j: int|
                        0 <= j < self.packages@.len() && #[trigger] self.packages@[j].name@
                            == name@;
                    assert(self.packages@[i as int].name@ == name@);
                    assert(j == i);
                }
                return Some(&self.packages[i]);
            }
            i = i + 1;
        }
        None
    }

    /// Position of the module with the given name.
    pub fn module_index(&self, name: &str) -> (r: Option<usize>)
        ensures
            r matches Some(i) ==> i < self.modules@.len() && self.modules@[i as int].name@
                == name@,
            r is None ==> forall|i: int|
                0 <= i < self.modules@.len() ==> #[trigger] self.modules@[i].name@ != name@,
    {
        let mut i: usize = 0;
        while i < self.modules.len()
            invariant
                i <= self.modules@.len(),
                forall|j: int| 0 <= j < i ==> #[trigger] self.modules@[j].name@ != name@,
            decreases self.modules@.len() - i,
        {
            if same_text(self.modules[i].name.as_str(), name) {
                return Some(i);
            }
            i = i + 1;
        }
        None
    }
}

} // verus!
