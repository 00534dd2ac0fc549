use rewatch::build_types::{BuildState, MlMap, Package, SourceType};
use rewatch::graph::{validate_packages_dependencies, PackageDeps, PackageGraphError};
use rewatch::packages::Namespace;
use rewatch::sources::{add_namespace_module, add_source_file};

fn deps(name: &str, on: &[&str]) -> PackageDeps {
    PackageDeps { name: name.to_string(), dependencies: on.iter().map(|s| s.to_string()).collect() }
}

fn state() -> BuildState {
    BuildState::new(
        "/p".to_string(),
        "pkg".to_string(),
        vec![Package {
            name: "pkg".to_string(),
            is_root: true,
            is_pinned_dep: true,
            namespace: Namespace::Namespace("NS".to_string()),
            suffix: None,
        }],
    )
}

#[test]
fn build_order_puts_dependencies_first() {
    let pkgs = vec![deps("root", &["a", "b"]), deps("a", &["b"]), deps("b", &[])];
    let order = match validate_packages_dependencies(&pkgs) {
        Ok(order) => order,
        Err(_) => panic!("expected a build order"),
    };
    assert_eq!(order, vec![2, 1, 0]);
}

#[test]
fn unresolved_dependency_is_reported() {
    let pkgs = vec![deps("root", &["a", "missing"]), deps("a", &[])];
    match validate_packages_dependencies(&pkgs) {
        Err(PackageGraphError::UnresolvedPackage(name)) => assert_eq!(name, "missing"),
        _ => panic!("expected an unresolved package"),
    }
}

#[test]
fn cycle_is_reported() {
    let pkgs = vec![deps("root", &["a"]), deps("a", &["b"]), deps("b", &["a"])];
    assert!(matches!(validate_packages_dependencies(&pkgs), Err(PackageGraphError::CycleInPackageGraph)));
    let own = vec![deps("self", &["self"])];
    assert!(matches!(validate_packages_dependencies(&own), Err(PackageGraphError::CycleInPackageGraph)));
}

#[test]
fn empty_graph_is_valid() {
    assert!(matches!(validate_packages_dependencies(&Vec::new()), Ok(order) if order.is_empty()));
}

#[test]
fn sources_pair_into_modules() {
    let mut st = state();
    let ns = Namespace::Namespace("NS".to_string());
    assert!(add_source_file(&mut st, "pkg", &ns, "src/x.res", 5));
    assert!(add_source_file(&mut st, "pkg", &ns, "src/x.resi", 6));
    assert!(add_source_file(&mut st, "pkg", &ns, "src/Y.resi", 7));
    assert!(add_source_file(&mut st, "pkg", &ns, "src/Y.res", 8));
    assert!(!add_source_file(&mut st, "pkg", &ns, "src/notes.md", 9));
    assert!(!add_source_file(&mut st, "pkg", &ns, "src/Makefile", 9));
    assert_eq!(st.modules.len(), 2);
    assert_eq!(st.modules[0].name, "X-NS");
    assert_eq!(st.modules[1].name, "Y-NS");
    match &st.modules[0].source_type {
        SourceType::SourceFile(sf) => {
            assert_eq!(sf.implementation.path, "src/x.res");
            assert_eq!(sf.interface.as_ref().unwrap().path, "src/x.resi");
            assert!(sf.implementation.dirty);
        }
        SourceType::MlMap(_) => panic!("expected a source module"),
    }
    match &st.modules[1].source_type {
        SourceType::SourceFile(sf) => {
            assert_eq!(sf.implementation.path, "src/Y.res");
            assert_eq!(sf.implementation.last_modified, 8);
            assert_eq!(sf.interface.as_ref().unwrap().last_modified, 7);
        }
        SourceType::MlMap(_) => panic!("expected a source module"),
    }
    assert!(st.modules.iter().all(|m| m.compile_dirty));
}

#[test]
fn interface_alone_names_its_implementation() {
    let mut st = state();
    assert!(add_source_file(&mut st, "pkg", &Namespace::NoNamespace, "src/Z.mli", 3));
    match &st.modules[0].source_type {
        SourceType::SourceFile(sf) => assert_eq!(sf.implementation.path, "src/Z.ml"),
        SourceType::MlMap(_) => panic!("expected a source module"),
    }
}

#[test]
fn namespace_gets_one_rollup_module() {
    let mut st = state();
    let ns = Namespace::Namespace("NS".to_string());
    add_source_file(&mut st, "pkg", &ns, "src/X.res", 1);
    add_source_file(&mut st, "pkg", &ns, "src/Y.res", 1);
    assert!(add_namespace_module(&mut st, "pkg", &ns));
    assert!(!add_namespace_module(&mut st, "pkg", &ns));
    assert!(!add_namespace_module(&mut st, "pkg", &Namespace::NoNamespace));
    let rollups: Vec<_> = st.modules.iter().filter(|m| matches!(m.source_type, SourceType::MlMap(_))).collect();
    assert_eq!(rollups.len(), 1);
    assert_eq!(rollups[0].name, "NS");
    assert!(matches!(rollups[0].source_type, SourceType::MlMap(MlMap { dirty: false })));
}

#[test]
fn module_of_other_package_is_left_alone() {
    let mut st = state();
    assert!(add_source_file(&mut st, "pkg", &Namespace::NoNamespace, "src/A.res", 1));
    assert!(!add_source_file(&mut st, "other", &Namespace::NoNamespace, "lib/A.res", 2));
    assert_eq!(st.modules.len(), 1);
}

fn no_assets() -> rewatch::clean::CompileAssetsState {
    rewatch::clean::CompileAssetsState {
        ast_modules: Vec::new(),
        cmi_modules: Vec::new(),
        cmt_modules: Vec::new(),
        rescript_file_locations: Vec::new(),
    }
}

fn record(assets: &mut rewatch::clean::CompileAssetsState, path: &str, t: u64, source: Option<&str>) -> bool {
    rewatch::scan::add_artifact(
        assets,
        path.to_string(),
        t,
        "pkg".to_string(),
        Namespace::Namespace("NS".to_string()),
        true,
        None,
        source.map(|s| s.to_string()),
    )
}

#[test]
fn artifacts_are_classified() {
    let mut assets = no_assets();
    assert!(record(&mut assets, "/p/lib/bs/src/x-NS.cmi", 30, None));
    assert!(!record(&mut assets, "/p/lib/ocaml/x-NS.cmi", 31, None));
    assert!(record(&mut assets, "/p/lib/bs/src/x-NS.cmt", 32, None));
    assert!(record(&mut assets, "/p/lib/bs/x.ast", 20, Some("/p/src/x.res")));
    assert!(record(&mut assets, "/p/lib/bs/x.iast", 21, Some("/p/src/x.resi")));
    assert!(!record(&mut assets, "/p/lib/bs/y.ast", 20, None));
    assert!(!record(&mut assets, "/p/lib/bs/x2.ast", 22, Some("/p/src/x.res")));
    assert!(!record(&mut assets, "/p/lib/ocaml/x-NS.mjs", 40, None));
    assert!(!record(&mut assets, "/p/lib/bs/.compiler.log", 40, None));
    assert_eq!(assets.cmi_modules, vec![("X-NS".to_string(), 30)]);
    assert_eq!(assets.cmt_modules, vec![("X-NS".to_string(), 32)]);
    assert_eq!(assets.ast_modules.len(), 2);
    assert_eq!(assets.ast_modules[0].module_name, "X-NS");
    assert_eq!(assets.ast_modules[1].ast_file_path, "/p/lib/bs/x.iast");
    assert_eq!(assets.ast_modules[1].last_modified, 21);
}
