use crate::build_types::{
    BuildState, CompileState, Implementation, Interface, MlMap, Module, ParseState, SourceFile,
    SourceType,
};
use crate::helpers::{
    asset_basename_of, capitalized, change_extension, extension_of,
    file_path_to_module_name, get_extension, has_extension, is_implementation_extension,
    is_interface_extension, is_implementation_file, is_interface_file, path_has_extension,
    with_extension_of,
};
use crate::packages::Namespace;
use crate::text::slice;
use vstd::prelude::*;
use vstd::string::*;

verus! {

/// The module a source file belongs to.
pub open spec fn source_module_name(path: Seq<char>, namespace: Namespace) -> Seq<char> {
    capitalized(asset_basename_of(path, namespace))
}

/// A file as a new build finds it: to be parsed, nothing decided yet.
pub open spec fn fresh_implementation(i: Implementation, path: Seq<char>, t: u64) -> bool {
    i.path@ == path && i.last_modified == t && i.dirty && i.parse_state == ParseState::Pending
        && i.compile_state == CompileState::Pending
}

pub open spec fn fresh_interface(i: Interface, path: Seq<char>, t: u64) -> bool {
    i.path@ == path && i.last_modified == t && i.dirty && i.parse_state == ParseState::Pending
        && i.compile_state == CompileState::Pending
}

/// A module as a new build starts it: to be compiled, no dependency known, nothing compiled.
pub open spec fn fresh_module(m: Module, name: Seq<char>, package_name: Seq<char>) -> bool {
    m.name@ == name && m.package_name@ == package_name && m.deps@.len() == 0 && m.compile_dirty
        && m.last_compiled_cmi is None && m.last_compiled_cmt is None
}

/// The implementation an interface pairs with: the same path with the interface extension's
/// final `i` dropped (`A.resi` pairs with `A.res`).
pub open spec fn paired_implementation(path: Seq<char>) -> Seq<char> {
    with_extension_of(path, extension_of(path).drop_last())
}

/// The file is an implementation or an interface.
pub open spec fn is_source_path(path: Seq<char>) -> bool {
    has_extension(path) && (is_implementation_extension(extension_of(path)) || is_interface_extension(
        extension_of(path),
    ))
}

fn new_implementation(path: String, last_modified: u64) -> (r: Implementation)
    ensures
        fresh_implementation(r, path@, last_modified),
{
    Implementation {
        path,
        last_modified,
        dirty: true,
        parse_state: ParseState::Pending,
        compile_state: CompileState::Pending,
    }
}

fn new_interface(path: String, last_modified: u64) -> (r: Interface)
    ensures
        fresh_interface(r, path@, last_modified),
{
    Interface {
        path,
        last_modified,
        dirty: true,
        parse_state: ParseState::Pending,
        compile_state: CompileState::Pending,
    }
}

/// Adds a file found in one of a package's source directories. An implementation or
/// interface file joins the module its name gives (pairing files that share a base name), or
/// starts that module; an interface alone starts the module with the implementation it pairs
/// with, until that file is found. A file of another kind, or whose module belongs to another
/// package, changes nothing. Returns whether the file was taken.
pub fn add_source_file(
    build_state: &mut BuildState,
    package_name: &str,
    namespace: &Namespace,
    path: &str,
    last_modified: u64,
) -> (r: bool)
    requires
        old(build_state).wf(),
    ensures
        final(build_state).wf(),
        final(build_state).project_root == old(build_state).project_root,
        final(build_state).root_config_name == old(build_state).root_config_name,
        final(build_state).packages == old(build_state).packages,
        !is_source_path(path@) ==> !r && *final(build_state) == *old(build_state),
        is_source_path(path@) ==> {
            let name = source_module_name(path@, *namespace);
            let iface = is_interface_extension(extension_of(path@));
            let olds = old(build_state).modules@;
            let news = final(build_state).modules@;
            if exists|i: int| 0 <= i < olds.len() && #[trigger] olds[i].name@ == name {
                let i = choose|i: int| 0 <= i < olds.len() && #[trigger] olds[i].name@ == name;
                let m = olds[i];
                if m.package_name@ == package_name@ && m.source_type is SourceFile {
                    &&& r
                    &&& news.len() == olds.len()
                    &&& forall|j: int| 0 <= j < olds.len() && j != i ==> #[trigger] news[j] == olds[j]
                    &&& news[i].name == m.name && news[i].package_name == m.package_name
                    &&& news[i].deps == m.deps && news[i].compile_dirty == m.compile_dirty
                    &&& news[i].last_compiled_cmi == m.last_compiled_cmi
                    &&& news[i].last_compiled_cmt == m.last_compiled_cmt
                    &&& match (m.source_type, news[i].source_type) {
                        (SourceType::SourceFile(a), SourceType::SourceFile(b)) => if iface {
                            b.implementation == a.implementation && (b.interface matches Some(x)
                                && fresh_interface(x, path@, last_modified))
                        } else {
                            b.interface == a.interface && fresh_implementation(
                                b.implementation,
                                path@,
                                last_modified,
                            )
                        },
                        _ => false,
                    }
                } else {
                    !r && *final(build_state) == *old(build_state)
                }
            } else {
                &&& r
                &&& news.len() == olds.len() + 1
                &&& forall|j: int| 0 <= j < olds.len() ==> #[trigger] news[j] == olds[j]
                &&& fresh_module(news[olds.len() as int], name, package_name@)
                &&& match news[olds.len() as int].source_type {
                    SourceType::SourceFile(sf) => if iface {
                        fresh_implementation(
                            sf.implementation,
                            paired_implementation(path@),
                            last_modified,
                        ) && (sf.interface matches Some(x) && fresh_interface(x, path@, last_modified))
                    } else {
                        fresh_implementation(sf.implementation, path@, last_modified)
                            && sf.interface is None
                    },
                    SourceType::MlMap(_) => false,
                }
            }
        },
{
    if !path_has_extension(path) {
        return false;
    }
    let ext = get_extension(path);
    let iface = is_interface_file(ext.as_str());
    if !iface && !is_implementation_file(ext.as_str()) {
        return false;
    }
    let name = file_path_to_module_name(path, namespace);
    let ghost olds = build_state.modules@;
    match build_state.module_index(name.as_str()) {
        Some(i) => {
            proof {
                let c = choose|c: int| 0 <= c < olds.len() && #[trigger] olds[c].name@ == name@;
                assert(olds[i as int].name@ == name@);
                assert(c == i);
            }
            if !crate::text::same_text(build_state.modules[i].package_name.as_str(), package_name) {
                return false;
            }
            if let SourceType::MlMap(_) = &build_state.modules[i].source_type {
                return false;
            }
            match &mut build_state.modules[i].source_type {
                SourceType::SourceFile(sf) => {
                    if iface {
                        sf.interface = Some(new_interface(String::from_str(path), last_modified));
                    } else {
                        sf.implementation = new_implementation(String::from_str(path), last_modified);
                    }
                },
                SourceType::MlMap(_) => {},
            }
            proof {
                assert forall|a: int, b: int|
                    0 <= a < build_state.modules@.len() && 0 <= b < build_state.modules@[a].deps@.len()
                    implies #[trigger] build_state.modules@[a].deps@[b] < build_state.modules@.len() by {
                    assert(build_state.modules@[a].deps == olds[a].deps);
                }
                assert forall|a: int, b: int|
                    0 <= a < build_state.modules@.len() && 0 <= b < build_state.modules@.len() && a != b
                    implies #[trigger] build_state.modules@[a].name@ != #[trigger] build_state.modules@[b].name@ by {
                    assert(build_state.modules@[a].name == olds[a].name);
                    assert(build_state.modules@[b].name == olds[b].name);
                }
            }
            true
        },
        None => {
            let implementation = if iface {
                proof {
                    reveal_strlit("resi");
                    reveal_strlit("mli");
                    reveal_strlit("rei");
                }
                let n = ext.as_str().unicode_len();
                let impl_ext = slice(ext.as_str(), 0, n - 1);
                assert(impl_ext@ =~= ext@.drop_last());
                new_implementation(change_extension(path, impl_ext.as_str()), last_modified)
            } else {
                new_implementation(String::from_str(path), last_modified)
            };
            let interface = if iface {
                Some(new_interface(String::from_str(path), last_modified))
            } else {
                None
            };
            build_state.modules.push(
                Module {
                    name,
                    source_type: SourceType::SourceFile(SourceFile { implementation, interface }),
                    package_name: String::from_str(package_name),
                    deps: Vec::new(),
                    compile_dirty: true,
                    last_compiled_cmi: None,
                    last_compiled_cmt: None,
                },
            );
            proof {
                let news = build_state.modules@;
                assert(news.len() == olds.len() + 1);
                assert forall|a: int, b: int|
                    0 <= a < news.len() && 0 <= b < news[a].deps@.len()
                    implies #[trigger] news[a].deps@[b] < news.len() by {
                    if a < olds.len() {
                        assert(news[a] == olds[a]);
                    }
                }
                assert forall|a: int, b: int|
                    0 <= a < news.len() && 0 <= b < news.len() && a != b
                    implies #[trigger] news[a].name@ != #[trigger] news[b].name@ by {
                    if a < olds.len() {
                        assert(news[a] == olds[a]);
                    }
                    if b < olds.len() {
                        assert(news[b] == olds[b]);
                    }
                }
            }
            true
        },
    }
}

/// Adds the rollup module of a namespaced package, named after its namespace, unless the
/// package has no namespace or a module of that name exists. Returns whether it was added.
pub fn add_namespace_module(build_state: &mut BuildState, package_name: &str, namespace: &Namespace) -> (r:
    bool)
    requires
        old(build_state).wf(),
    ensures
        final(build_state).wf(),
        final(build_state).project_root == old(build_state).project_root,
        final(build_state).root_config_name == old(build_state).root_config_name,
        final(build_state).packages == old(build_state).packages,
        r == (namespace.suffix() matches Some(ns) && forall|i: int|
            0 <= i < old(build_state).modules@.len() ==> #[trigger] old(build_state).modules@[i].name@
                != ns),
        !r ==> *final(build_state) == *old(build_state),
        r ==> {
            let olds = old(build_state).modules@;
            let news = final(build_state).modules@;
            &&& news.len() == olds.len() + 1
            &&& forall|j: int| 0 <= j < olds.len() ==> #[trigger] news[j] == olds[j]
            &&& fresh_module(news[olds.len() as int], namespace.suffix()->0, package_name@)
            &&& news[olds.len() as int].source_type == SourceType::MlMap(MlMap { dirty: false })
        },
{
    let ns = match namespace.to_suffix() {
        None => {
            return false;
        },
        Some(ns) => ns,
    };
    if build_state.module_index(ns.as_str()).is_some() {
        return false;
    }
    let ghost olds = build_state.modules@;
    build_state.modules.push(
        Module {
            name: ns,
            source_type: SourceType::MlMap(MlMap { dirty: false }),
            package_name: String::from_str(package_name),
            deps: Vec::new(),
            compile_dirty: true,
            last_compiled_cmi: None,
            last_compiled_cmt: None,
        },
    );
    proof {
        let news = build_state.modules@;
        assert forall|a: int, b: int|
            0 <= a < news.len() && 0 <= b < news[a].deps@.len()
            implies #[trigger] news[a].deps@[b] < news.len() by {
            if a < olds.len() {
                assert(news[a] == olds[a]);
            }
        }
        assert forall|a: int, b: int|
            0 <= a < news.len() && 0 <= b < news.len() && a != b
            implies #[trigger] news[a].name@ != #[trigger] news[b].name@ by {
            if a < olds.len() {
                assert(news[a] == olds[a]);
            }
            if b < olds.len() {
                assert(news[b] == olds[b]);
            }
        }
    }
    true
}

} // verus!
