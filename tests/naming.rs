use rewatch::digest::{compute_file_hash, contents_changed, digests_differ};
use rewatch::helpers::{
    change_extension, contains_ascii_characters, get_abs_path, file_path_to_compiler_asset_basename,
    file_path_to_module_name, format_namespaced_module_name, get_ast_path, get_basename,
    get_bs_build_path, get_bs_compiler_asset, get_build_path, get_compiler_asset, get_extension,
    get_iast_path, get_mlmap_compile_path, get_mlmap_path, get_namespace_from_module_name,
    get_node_modules_path, get_package_path, get_path, get_relative_package_path,
    is_implementation_file, is_interface_ast_file, is_interface_file, is_non_exotic_module_name,
    is_source_file, module_name_with_namespace,
};
use rewatch::packages::Namespace;

fn ns() -> Namespace {
    Namespace::Namespace("NS".to_string())
}

#[test]
fn package_directories() {
    assert_eq!(get_relative_package_path("pkg", true), "");
    assert_eq!(get_relative_package_path("pkg", false), "node_modules/pkg");
    assert_eq!(get_package_path("/p", "pkg", true), "/p");
    assert_eq!(get_package_path("/p", "pkg", false), "/p/node_modules/pkg");
    assert_eq!(get_node_modules_path("/p"), "/p/node_modules");
    assert_eq!(get_path("/p", "pkg", "src/A.res", false), "/p/node_modules/pkg/src/A.res");
}

#[test]
fn build_directories() {
    assert_eq!(get_build_path("/p", "pkg", true), "/p/lib/ocaml");
    assert_eq!(get_build_path("/p", "dep", false), "/p/node_modules/dep/lib/ocaml");
    assert_eq!(get_bs_build_path("/p", "pkg", true), "/p/lib/bs");
    assert_eq!(get_bs_build_path("/p", "dep", false), "/p/node_modules/dep/lib/bs");
}

#[test]
fn basename_and_extension() {
    assert_eq!(get_basename("src/A.res"), "A");
    assert_eq!(get_basename("a/b.c.res"), "b.c");
    assert_eq!(get_basename("src/.hidden"), ".hidden");
    assert_eq!(get_extension("src/A.resi"), "resi");
    assert_eq!(change_extension("src/A.res", "mjs"), "src/A.mjs");
    assert_eq!(change_extension("src/A.res", "bs.js"), "src/A.bs.js");
    assert_eq!(change_extension("src/A.res", ""), "src/A");
}

#[test]
fn namespace_suffix() {
    assert_eq!(ns().to_suffix(), Some("NS".to_string()));
    assert_eq!(Namespace::NoNamespace.to_suffix(), None);
    let entry = Namespace::NamespaceWithEntry { namespace: "NS".to_string(), entry: "Main".to_string() };
    assert_eq!(entry.to_suffix(), Some("NS".to_string()));
}

#[test]
fn module_names() {
    assert_eq!(module_name_with_namespace("foo", &ns()), "Foo-NS");
    assert_eq!(module_name_with_namespace("foo", &Namespace::NoNamespace), "Foo");
    assert_eq!(file_path_to_compiler_asset_basename("src/foo.res", &ns()), "foo-NS");
    assert_eq!(file_path_to_module_name("src/foo.res", &ns()), "Foo-NS");
    assert_eq!(module_name_with_namespace("", &Namespace::NoNamespace), "");
}

#[test]
fn entry_module_has_no_suffix() {
    let entry = Namespace::NamespaceWithEntry { namespace: "NS".to_string(), entry: "Main".to_string() };
    assert_eq!(file_path_to_compiler_asset_basename("src/Main.res", &entry), "Main");
    assert_eq!(file_path_to_compiler_asset_basename("src/Other.res", &entry), "Other-NS");
    assert_eq!(get_compiler_asset("src/Main.res", "pkg", &entry, "/p", "cmj", true), "/p/lib/ocaml/Main.cmj");
}

#[test]
fn namespace_rollup_artifacts() {
    assert_eq!(get_compiler_asset("src/X.res", "pkg", &ns(), "/p", "cmj", true), "/p/lib/ocaml/X-NS.cmj");
    assert_eq!(get_compiler_asset("src/Y.res", "pkg", &ns(), "/p", "cmj", true), "/p/lib/ocaml/Y-NS.cmj");
    assert_eq!(get_ast_path("src/X.res", "pkg", "/p", true), "/p/lib/bs/X.ast");
    assert_eq!(get_ast_path("src/Y.res", "pkg", "/p", true), "/p/lib/bs/Y.ast");
    assert_eq!(get_iast_path("src/X.resi", "pkg", "/p", true), "/p/lib/bs/X.iast");
    assert_eq!(get_mlmap_path("/p", "pkg", "NS", true), "/p/lib/ocaml/NS.mlmap");
    assert_eq!(get_mlmap_compile_path("/p", "pkg", "NS", true), "/p/lib/ocaml/NS.cmi");
}

#[test]
fn intermediate_artifacts() {
    assert_eq!(get_bs_compiler_asset("src/X.res", "pkg", &ns(), "/p", "cmj", true), "/p/lib/bs/src/X-NS.cmj");
    assert_eq!(get_bs_compiler_asset("src/X.res", "pkg", &ns(), "/p", "ast", true), "/p/lib/bs/src/X.ast");
    assert_eq!(get_bs_compiler_asset("X.res", "dep", &Namespace::NoNamespace, "/p", "cmt", false), "/p/node_modules/dep/lib/bs/X.cmt");
}

#[test]
fn module_name_parts() {
    assert_eq!(get_namespace_from_module_name("A-NS"), Some("NS".to_string()));
    assert_eq!(get_namespace_from_module_name("A-NS-x"), Some("NS".to_string()));
    assert_eq!(get_namespace_from_module_name("A"), None);
    assert_eq!(format_namespaced_module_name("A-NS"), "NS.A");
    assert_eq!(format_namespaced_module_name("A-@NS"), "NS.A");
    assert_eq!(format_namespaced_module_name("A"), "A");
}

#[test]
fn file_kinds() {
    assert!(is_interface_ast_file("/p/lib/bs/A.iast"));
    assert!(!is_interface_ast_file("/p/lib/bs/A.ast"));
    assert!(!is_interface_ast_file("ast"));
    assert!(is_interface_file("resi") && is_interface_file("mli") && is_interface_file("rei"));
    assert!(!is_interface_file("res"));
    assert!(is_implementation_file("res") && is_implementation_file("ml") && is_implementation_file("re"));
    assert!(!is_implementation_file("js"));
    assert!(is_source_file("resi") && is_source_file("ml"));
    assert!(!is_source_file("mjs"));
}

#[test]
fn module_name_shapes() {
    assert!(is_non_exotic_module_name("Foo_1"));
    assert!(!is_non_exotic_module_name("foo"));
    assert!(!is_non_exotic_module_name("Foo-bar"));
    assert!(is_non_exotic_module_name("X"));
}

#[test]
fn ascii_content() {
    assert!(!contains_ascii_characters(""));
    assert!(!contains_ascii_characters("  \n\t"));
    assert!(contains_ascii_characters(" warning 3 "));
}

#[test]
fn digests() {
    let empty = compute_file_hash(&Vec::new());
    assert_eq!(empty.len(), 32);
    assert_eq!(&empty[..4], &[0xaf, 0x13, 0x49, 0xb9]);
    let abc = compute_file_hash(&b"abc".to_vec());
    assert_ne!(abc, b"abc".to_vec());
    assert_ne!(abc, empty);
    assert!(!digests_differ(&Some(abc.clone()), &Some(abc.clone())));
    assert!(digests_differ(&Some(abc.clone()), &Some(empty.clone())));
    assert!(digests_differ(&None, &Some(abc)));
}

#[test]
fn rollup_change_detection() {
    let a = b"module X = X-NS".to_vec();
    let b = b"module Y = Y-NS".to_vec();
    assert!(!contents_changed(&Some(a.clone()), &Some(a.clone())));
    assert!(contents_changed(&Some(a.clone()), &Some(b)));
    assert!(contents_changed(&None, &Some(a.clone())));
    assert!(contents_changed(&Some(a), &None));
}

#[test]
fn lexical_absolute_paths() {
    assert_eq!(get_abs_path("src/../lib", "/home/u/p"), "/home/u/p/lib");
    assert_eq!(get_abs_path("/a/./b/..", "/home"), "/a");
    assert_eq!(get_abs_path("..", "/"), "/");
    assert_eq!(get_abs_path(".", "/x"), "/x");
    assert_eq!(get_abs_path("a//b/", "/x"), "/x/a/b");
    assert_eq!(get_abs_path("../../..", "/x/y"), "/");
}
