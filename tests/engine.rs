use ahash::AHashSet;
use rewatch::build_types::{
    BuildState, CompileState, Implementation, Interface, MlMap, Module, Package, ParseState,
    SourceFile, SourceType,
};
use rewatch::clean::{
    cleanup_after_build, cleanup_previous_build, clean_mjs_files, remove_compile_assets,
    remove_mjs_file, AstModule, CompileAssetsState,
};
use rewatch::compile::{next_batch, record_compile, should_compile, Progress};
use rewatch::deps::{ast_header_dependencies, ast_header_source, cascade_dirty, set_module_deps};
use rewatch::packages::Namespace;
use rewatch::parse::{
    filter_ppx_flags, is_dirty, modules_to_parse, parser_args, parser_result, path_to_ast_extension, record_parse_results, ParseOutcome, PpxFlag,
};

fn implementation(path: &str, last_modified: u64) -> Implementation {
    Implementation {
        path: path.to_string(),
        last_modified,
        dirty: true,
        parse_state: ParseState::Pending,
        compile_state: CompileState::Pending,
    }
}

fn source_module(name: &str, path: &str, last_modified: u64, interface: Option<(&str, u64)>) -> Module {
    Module {
        name: name.to_string(),
        source_type: SourceType::SourceFile(SourceFile {
            implementation: implementation(path, last_modified),
            interface: interface.map(|(p, t)| Interface {
                path: p.to_string(),
                last_modified: t,
                dirty: true,
                parse_state: ParseState::Pending,
                compile_state: CompileState::Pending,
            }),
        }),
        package_name: "pkg".to_string(),
        deps: Vec::new(),
        compile_dirty: true,
        last_compiled_cmi: None,
        last_compiled_cmt: None,
    }
}

fn package(pinned: bool) -> Package {
    Package {
        name: "pkg".to_string(),
        is_root: true,
        is_pinned_dep: pinned,
        namespace: Namespace::NoNamespace,
        suffix: None,
    }
}

/// `A.res` with no dependency and `B.res` that depends on `A`.
fn two_modules(a_interface: Option<(&str, u64)>) -> BuildState {
    let mut state = BuildState::new("/p".to_string(), "pkg".to_string(), vec![package(true)]);
    state.modules.push(source_module("A", "src/A.res", 10, a_interface));
    let mut b = source_module("B", "src/B.res", 10, None);
    b.deps = vec![0];
    state.modules.push(b);
    state
}

fn ast(module: &str, source: &str, ast_file: &str, last_modified: u64) -> AstModule {
    AstModule {
        module_name: module.to_string(),
        package_name: "pkg".to_string(),
        namespace: Namespace::NoNamespace,
        last_modified,
        ast_file_path: ast_file.to_string(),
        is_root: true,
        suffix: None,
        source_file: source.to_string(),
    }
}

/// What a successful build of the two modules leaves on disk.
fn previous_build(sources: &[&str]) -> CompileAssetsState {
    CompileAssetsState {
        ast_modules: vec![
            ast("A", "src/A.res", "/p/lib/bs/A.ast", 20),
            ast("B", "src/B.res", "/p/lib/bs/B.ast", 20),
        ],
        cmi_modules: vec![("A".to_string(), 30), ("B".to_string(), 30)],
        cmt_modules: vec![("A".to_string(), 30), ("B".to_string(), 30)],
        rescript_file_locations: sources.iter().map(|s| s.to_string()).collect(),
    }
}

fn empty_assets() -> CompileAssetsState {
    CompileAssetsState {
        ast_modules: Vec::new(),
        cmi_modules: Vec::new(),
        cmt_modules: Vec::new(),
        rescript_file_locations: vec!["src/A.res".to_string(), "src/B.res".to_string()],
    }
}

fn outcome(i: usize, dirty: bool) -> ParseOutcome {
    ParseOutcome { module_index: i, dirty, implementation: Ok(None), interface: None }
}

/// Runs the compile schedule, counting compiler runs; every run succeeds.
fn compile_all(state: &mut BuildState) -> (usize, Vec<Vec<usize>>) {
    let mut progress = vec![Progress::Waiting; state.modules.len()];
    let mut warnings = String::new();
    let mut errors = String::new();
    let mut compiled = 0;
    let mut batches = Vec::new();
    loop {
        let batch = next_batch(state, &progress, 4);
        if batch.is_empty() {
            break;
        }
        for &i in &batch {
            let result = if should_compile(&state.modules[i]) { Some(Ok(None)) } else { None };
            if record_compile(state, &mut progress, i, &result, &mut warnings, &mut errors) {
                compiled += 1;
            }
        }
        batches.push(batch);
    }
    (compiled, batches)
}

fn parse_count(state: &BuildState) -> usize {
    modules_to_parse(state).len()
}

#[test]
fn fresh_build_of_two_modules() {
    let mut state = two_modules(None);
    let report = cleanup_previous_build(&mut state, &empty_assets());
    assert_eq!(report.orphan_count, 0);
    assert_eq!(report.total_sources, 0);
    assert!(report.removals.is_empty());
    assert_eq!(parse_count(&state), 2);
    let parsed = record_parse_results(&mut state, &vec![outcome(0, true), outcome(1, true)]);
    assert_eq!(parsed, Ok(String::new()));
    cascade_dirty(&mut state, &report.deleted_module_names);
    let (compiled, batches) = compile_all(&mut state);
    assert_eq!(compiled, 2);
    assert_eq!(batches, vec![vec![0], vec![1]]);
    let outputs = clean_mjs_files(&state, "/p");
    assert_eq!(outputs, vec!["/p/src/A.mjs".to_string(), "/p/src/B.mjs".to_string()]);
}

#[test]
fn incremental_no_op() {
    let mut state = two_modules(None);
    let report = cleanup_previous_build(&mut state, &previous_build(&["src/A.res", "src/B.res"]));
    assert_eq!(report.orphan_count, 0);
    assert_eq!(report.total_sources, 2);
    assert!(report.removals.is_empty());
    assert!(report.deleted_module_names.is_empty());
    assert_eq!(parse_count(&state), 0);
    assert!(state.modules.iter().all(|m| !m.compile_dirty));
    assert_eq!(state.modules[0].last_compiled_cmi, Some(30));
    cascade_dirty(&mut state, &report.deleted_module_names);
    let (compiled, _) = compile_all(&mut state);
    assert_eq!(compiled, 0);
    match &state.modules[1].source_type {
        SourceType::SourceFile(sf) => assert_eq!(sf.implementation.compile_state, CompileState::SkippedClean),
        SourceType::MlMap(_) => panic!("expected a source module"),
    }
}

#[test]
fn touched_leaf_cascades() {
    let mut state = two_modules(None);
    if let SourceType::SourceFile(sf) = &mut state.modules[0].source_type {
        sf.implementation.last_modified = 40;
    }
    let report = cleanup_previous_build(&mut state, &previous_build(&["src/A.res", "src/B.res"]));
    assert_eq!(parse_count(&state), 1);
    assert!(is_dirty(&state.modules[0]));
    assert!(!is_dirty(&state.modules[1]));
    let parsed = record_parse_results(&mut state, &vec![outcome(0, true)]);
    assert!(parsed.is_ok());
    assert!(state.modules[0].compile_dirty);
    assert!(!state.modules[1].compile_dirty);
    cascade_dirty(&mut state, &report.deleted_module_names);
    assert!(state.modules[1].compile_dirty);
    let (compiled, _) = compile_all(&mut state);
    assert_eq!(compiled, 2);
}

#[test]
fn deleted_interface_recompiles_dependents() {
    let mut state = two_modules(None);
    let mut assets = previous_build(&["src/A.res", "src/B.res"]);
    assets.ast_modules.push(ast("A", "src/A.resi", "/p/lib/bs/A.iast", 20));
    let report = cleanup_previous_build(&mut state, &assets);
    assert_eq!(report.orphan_count, 1);
    assert_eq!(report.total_sources, 3);
    assert!(report.removals.contains(&"/p/lib/bs/A.iast".to_string()));
    assert!(report.removals.contains(&"/p/lib/bs/A.ast".to_string()));
    assert!(report.removals.contains(&"/p/lib/ocaml/A.cmi".to_string()));
    assert!(report.removals.contains(&"src/A.mjs".to_string()));
    assert!(state.modules[0].compile_dirty);
    assert!(!state.modules[1].compile_dirty);
    cascade_dirty(&mut state, &report.deleted_module_names);
    assert!(state.modules[1].compile_dirty);
    let (compiled, _) = compile_all(&mut state);
    assert_eq!(compiled, 2);
}

#[test]
fn parse_error_fails_and_sweeps() {
    let mut state = two_modules(None);
    cleanup_previous_build(&mut state, &empty_assets());
    let outcomes = vec![
        outcome(0, true),
        ParseOutcome {
            module_index: 1,
            dirty: true,
            implementation: Err("syntax error in B\n".to_string()),
            interface: None,
        },
    ];
    let parsed = record_parse_results(&mut state, &outcomes);
    assert_eq!(parsed, Err("syntax error in B\n".to_string()));
    let swept = cleanup_after_build(&state);
    assert_eq!(swept, vec!["/p/lib/bs/B.iast".to_string(), "/p/lib/bs/B.ast".to_string()]);
}

#[test]
fn warnings_only_from_pinned_packages() {
    let mut state = two_modules(None);
    state.packages[0].is_pinned_dep = false;
    let outcomes = vec![ParseOutcome {
        module_index: 0,
        dirty: true,
        implementation: Ok(Some("warning 3\n".to_string())),
        interface: None,
    }];
    assert_eq!(record_parse_results(&mut state, &outcomes), Ok(String::new()));
    let mut state = two_modules(None);
    assert_eq!(record_parse_results(&mut state, &outcomes), Ok("warning 3\n".to_string()));
    match &state.modules[0].source_type {
        SourceType::SourceFile(sf) => assert_eq!(sf.implementation.parse_state, ParseState::Warning),
        SourceType::MlMap(_) => panic!("expected a source module"),
    }
}

#[test]
fn compile_error_blocks_dependents() {
    let mut state = two_modules(None);
    let mut progress = vec![Progress::Waiting; 2];
    let mut warnings = String::new();
    let mut errors = String::new();
    assert_eq!(next_batch(&state, &progress, 4), vec![0]);
    let failed = Some(Err("type error in A\n".to_string()));
    assert!(record_compile(&mut state, &mut progress, 0, &failed, &mut warnings, &mut errors));
    assert_eq!(progress, vec![Progress::Failed, Progress::Waiting]);
    assert_eq!(errors, "type error in A\n");
    assert!(next_batch(&state, &progress, 4).is_empty());
    assert_eq!(cleanup_after_build(&state), vec!["/p/lib/ocaml/A.cmt".to_string(), "/p/lib/bs/src/A.cmt".to_string()]);
}

#[test]
fn compile_warning_is_collected() {
    let mut state = two_modules(None);
    let mut progress = vec![Progress::Waiting; 2];
    let mut warnings = String::new();
    let mut errors = String::new();
    let warned = Some(Ok(Some("unused value\n".to_string())));
    record_compile(&mut state, &mut progress, 0, &warned, &mut warnings, &mut errors);
    assert_eq!(warnings, "unused value\n");
    assert!(errors.is_empty());
    assert_eq!(next_batch(&state, &progress, 4), vec![1]);
}

#[test]
fn batches_respect_worker_count() {
    let mut state = BuildState::new("/p".to_string(), "pkg".to_string(), vec![package(true)]);
    for name in ["A", "B", "C"] {
        state.modules.push(source_module(name, &format!("src/{}.res", name), 1, None));
    }
    let progress = vec![Progress::Waiting; 3];
    assert_eq!(next_batch(&state, &progress, 2), vec![0, 1]);
    assert_eq!(next_batch(&state, &progress, 0), Vec::<usize>::new());
    let progress = vec![Progress::Running, Progress::Waiting, Progress::Done];
    assert_eq!(next_batch(&state, &progress, 5), vec![1]);
}

#[test]
fn added_module_is_built_alone() {
    let mut state = two_modules(None);
    state.modules.push(source_module("C", "src/C.res", 50, None));
    let report = cleanup_previous_build(
        &mut state,
        &previous_build(&["src/A.res", "src/B.res", "src/C.res"]),
    );
    assert_eq!(parse_count(&state), 1);
    assert!(is_dirty(&state.modules[2]));
    cascade_dirty(&mut state, &report.deleted_module_names);
    assert!(!state.modules[0].compile_dirty);
    assert!(!state.modules[1].compile_dirty);
    assert!(state.modules[2].compile_dirty);
}

#[test]
fn clean_then_build_is_fresh() {
    let mut state = two_modules(None);
    cleanup_previous_build(&mut state, &empty_assets());
    assert!(state.modules.iter().all(|m| m.compile_dirty && is_dirty(m)));
    assert_eq!(parse_count(&state), 2);
}

#[test]
fn deleted_namespaced_module_reports_namespace() {
    let mut state = two_modules(None);
    let mut assets = previous_build(&["src/A.res", "src/B.res"]);
    assets.ast_modules.push(ast("C-NS", "src/C.res", "/p/lib/bs/C.ast", 20));
    assets.ast_modules.push(ast("D", "src/D.res", "/p/lib/bs/D.ast", 20));
    let report = cleanup_previous_build(&mut state, &assets);
    assert_eq!(report.orphan_count, 2);
    assert!(report.deleted_module_names.contains("NS"));
    assert!(report.deleted_module_names.contains("D"));
    assert_eq!(report.deleted_module_names.len(), 2);
}

#[test]
fn rollup_named_deleted_is_marked() {
    let mut state = two_modules(None);
    state.modules.push(Module {
        name: "NS".to_string(),
        source_type: SourceType::MlMap(MlMap { dirty: false }),
        package_name: "pkg".to_string(),
        deps: Vec::new(),
        compile_dirty: false,
        last_compiled_cmi: None,
        last_compiled_cmt: None,
    });
    state.modules[0].compile_dirty = false;
    state.modules[1].compile_dirty = false;
    let mut deleted = AHashSet::new();
    deleted.insert("NS".to_string());
    cascade_dirty(&mut state, &deleted);
    assert!(state.modules[2].compile_dirty);
    assert!(!state.modules[0].compile_dirty);
}

#[test]
fn dependency_resolution() {
    let mut state = two_modules(None);
    state.modules[0].compile_dirty = false;
    let names = vec!["B".to_string(), "Js".to_string(), "Gone".to_string()];
    let mut deleted = AHashSet::new();
    deleted.insert("Gone".to_string());
    set_module_deps(&mut state, 0, &names, &deleted);
    assert_eq!(state.modules[0].deps, vec![1]);
    assert!(state.modules[0].compile_dirty);
}

#[test]
fn orphan_artifact_lists() {
    let assets = remove_compile_assets("src/X.res", "pkg", &Namespace::Namespace("NS".to_string()), "/p", true);
    assert_eq!(assets.len(), 8);
    assert_eq!(assets[0], "/p/lib/ocaml/X-NS.cmj");
    assert_eq!(assets[1], "/p/lib/bs/src/X-NS.cmj");
    assert_eq!(assets[7], "/p/lib/bs/src/X-NS.cmti");
    assert_eq!(remove_mjs_file("src/X.res", &Some(".bs.js".to_string())), vec!["src/X.bs.js".to_string()]);
    assert_eq!(remove_mjs_file("src/X.res", &None), vec!["src/X.mjs".to_string()]);
}

#[test]
fn interface_reparse_only_when_stale() {
    let mut state = two_modules(Some(("src/A.resi", 25)));
    let mut assets = previous_build(&["src/A.res", "src/A.resi", "src/B.res"]);
    assets.ast_modules.push(ast("A", "src/A.resi", "/p/lib/bs/A.iast", 20));
    cleanup_previous_build(&mut state, &assets);
    assert!(is_dirty(&state.modules[0]));
    match &state.modules[0].source_type {
        SourceType::SourceFile(sf) => {
            assert!(!sf.implementation.dirty);
            assert!(sf.interface.as_ref().unwrap().dirty);
        }
        SourceType::MlMap(_) => panic!("expected a source module"),
    }
}

#[test]
fn ast_extension_by_file_kind() {
    assert_eq!(path_to_ast_extension("src/A.resi"), ".iast");
    assert_eq!(path_to_ast_extension("src/A.mli"), ".iast");
    assert_eq!(path_to_ast_extension("src/A.res"), ".ast");
    assert_eq!(path_to_ast_extension("src/Makefile"), ".ast");
}

fn flag_words(flags: &[PpxFlag]) -> Vec<Vec<String>> {
    flags
        .iter()
        .map(|f| match f {
            PpxFlag::Single(s) => vec![s.clone()],
            PpxFlag::Multiple(v) => v.clone(),
        })
        .collect()
}

#[test]
fn bisect_flags_filtered_unless_enabled() {
    let flags = Some(vec![
        PpxFlag::Single("bisect_ppx/ppx".to_string()),
        PpxFlag::Single("graphql-ppx".to_string()),
        PpxFlag::Multiple(vec!["my-bisect-ppx".to_string(), "-x".to_string()]),
        PpxFlag::Multiple(vec!["other".to_string(), "bisect".to_string()]),
    ]);
    let off = filter_ppx_flags(&flags, false).unwrap();
    assert_eq!(
        flag_words(&off),
        vec![vec!["graphql-ppx".to_string()], vec!["other".to_string(), "bisect".to_string()]]
    );
    let on = filter_ppx_flags(&flags, true).unwrap();
    assert_eq!(on.len(), 4);
    assert!(filter_ppx_flags(&None, false).is_none());
}

#[test]
fn parser_output_kinds() {
    assert_eq!(parser_result(String::new(), true), Ok(None));
    assert_eq!(parser_result("\n  \n".to_string(), true), Ok(None));
    assert_eq!(parser_result(String::new(), false), Err(String::new()));
    assert_eq!(parser_result("\n  \n".to_string(), false), Err("\n  \n".to_string()));
    assert_eq!(parser_result("Warning 27\n".to_string(), true), Ok(Some("Warning 27\n".to_string())));
    assert_eq!(parser_result("Syntax error!\n".to_string(), false), Err("Syntax error!\n".to_string()));
}

fn lines(text: &[&str]) -> Vec<String> {
    text.iter().map(|s| s.to_string()).collect()
}

#[test]
fn ast_header_sections() {
    let header = lines(&["\u{84}\u{95}magic", "Belt", "", "A", "/p/src/B.res", "Later"]);
    assert_eq!(ast_header_dependencies(&header), lines(&["Belt", "A"]));
    assert_eq!(ast_header_source(&header), Some("/p/src/B.res".to_string()));
    let no_path = lines(&["magic", "A"]);
    assert_eq!(ast_header_dependencies(&no_path), lines(&["A"]));
    assert_eq!(ast_header_source(&no_path), None);
    assert!(ast_header_dependencies(&Vec::new()).is_empty());
    assert_eq!(ast_header_source(&lines(&["/looks/like/a/path", "/p/A.res"])), Some("/p/A.res".to_string()));
}

#[test]
fn parser_command_line() {
    let flags = vec!["-ppx".to_string(), "graphql-ppx".to_string()];
    assert_eq!(
        parser_args("11.0.0", &flags, "src/A.resi"),
        vec!["-bs-v", "11.0.0", "-ppx", "graphql-ppx", "-absname", "-bs-ast", "-o", "A.iast", "../../src/A.resi"]
            .into_iter()
            .map(|s| s.to_string())
            .collect::<Vec<String>>()
    );
    assert_eq!(parser_args("v", &Vec::new(), "B.res")[5], "B.ast");
}

#[test]
fn parse_jobs_are_the_dirty_sources() {
    let mut state = two_modules(None);
    assert_eq!(modules_to_parse(&state), vec![0, 1]);
    cleanup_previous_build(&mut state, &previous_build(&["src/A.res", "src/B.res"]));
    assert!(modules_to_parse(&state).is_empty());
    state.modules.push(Module {
        name: "NS".to_string(),
        source_type: SourceType::MlMap(MlMap { dirty: true }),
        package_name: "pkg".to_string(),
        deps: Vec::new(),
        compile_dirty: true,
        last_compiled_cmi: None,
        last_compiled_cmt: None,
    });
    assert!(modules_to_parse(&state).is_empty());
}

#[test]
fn clean_modules_keep_their_parse_state() {
    let mut state = two_modules(None);
    let parsed = record_parse_results(&mut state, &vec![outcome(1, true)]);
    assert_eq!(parsed, Ok(String::new()));
    match &state.modules[0].source_type {
        SourceType::SourceFile(sf) => assert_eq!(sf.implementation.parse_state, ParseState::Pending),
        SourceType::MlMap(_) => panic!("expected a source module"),
    }
}
