use crate::build_types::{BuildState, Module, ParseState, SourceType, package_of};
use crate::helpers::{
    extension_of, get_basename, get_extension, has_file_name, stem_of, has_extension, is_interface_extension, is_interface_file,
    path_has_extension,
};
use crate::text::{contains_text, has_ascii_alnum, holds_text, is_ascii_alnum, join2, views};
use vstd::prelude::*;
use vstd::string::*;

verus! {

/// What came of parsing one module's files.
pub struct ParseOutcome {
    /// Position of the module in the build state.
    pub module_index: usize,
    /// The module had a dirty input (or, for a rollup module, its generated file changed).
    pub dirty: bool,
    /// The implementation's result: warnings on success, or the parser's error output.
    pub implementation: Result<Option<String>, String>,
    /// The interface's result, where the module has one.
    pub interface: Option<Result<Option<String>, String>>,
}

/// Whether a module has work in the parse phase: for a source module, a dirty implementation
/// or interface; for a rollup module, that it is to be compiled or its generated file changed.
pub open spec fn needs_parse(m: Module) -> bool {
    match m.source_type {
        SourceType::SourceFile(_) => m.impl_dirty() || m.iface_dirty(),
        SourceType::MlMap(mlmap) => m.compile_dirty || mlmap.dirty,
    }
}

/// Whether a module has work in the parse phase: a dirty file for a source module; for a
/// rollup module, that it is to be compiled or its generated file changed.
pub fn is_dirty(module: &Module) -> (r: bool)
    ensures
        r == needs_parse(*module),
{
    match &module.source_type {
        SourceType::SourceFile(sf) => {
            sf.implementation.dirty || match &sf.interface {
                Some(i) => i.dirty,
                None => false,
            }
        },
        SourceType::MlMap(mlmap) => module.compile_dirty || mlmap.dirty,
    }
}

/// The parse state a file gets from its result; warnings count only where they are shown.
pub open spec fn parse_state_of(result: Result<Option<String>, String>, shown: bool) -> ParseState {
    match result {
        Ok(Some(_)) => if shown {
            ParseState::Warning
        } else {
            ParseState::Success
        },
        Ok(None) => ParseState::Success,
        Err(_) => ParseState::ParseError,
    }
}

/// The text a file's result adds to the parse output.
pub open spec fn message_of(result: Result<Option<String>, String>, shown: bool) -> Seq<char> {
    match result {
        Ok(Some(w)) => if shown {
            w@
        } else {
            Seq::empty()
        },
        Ok(None) => Seq::empty(),
        Err(e) => e@,
    }
}

pub open spec fn failed(result: Result<Option<String>, String>) -> bool {
    result is Err
}

impl ParseOutcome {
    pub open spec fn message(&self, shown: bool) -> Seq<char> {
        message_of(self.implementation, shown) + match self.interface {
            Some(i) => message_of(i, shown),
            None => Seq::empty(),
        }
    }

    pub open spec fn has_failure(&self) -> bool {
        failed(self.implementation) || (self.interface matches Some(i) && failed(i))
    }
}

impl BuildState {
    /// The warnings of module `i` are shown: its package is a pinned dependency.
    pub open spec fn shows_warnings(&self, i: int) -> bool {
        package_of(self.packages@, self.modules@[i].package_name@) matches Some(p)
            && p.is_pinned_dep
    }
}

/// Module `m` once the outcome `o` of parsing it is recorded.
pub open spec fn parsed(m: Module, r: Module, o: ParseOutcome, shown: bool) -> bool {
    &&& r.name == m.name && r.package_name == m.package_name && r.deps == m.deps
    &&& r.last_compiled_cmi == m.last_compiled_cmi && r.last_compiled_cmt == m.last_compiled_cmt
    &&& r.compile_dirty == (m.compile_dirty || o.dirty)
    &&& match (m.source_type, r.source_type) {
        (SourceType::SourceFile(a), SourceType::SourceFile(b)) => {
            let ai = a.implementation;
            let bi = b.implementation;
            &&& bi.path == ai.path && bi.last_modified == ai.last_modified && bi.dirty == ai.dirty
            &&& bi.compile_state == ai.compile_state
            &&& bi.parse_state == parse_state_of(o.implementation, shown)
            &&& match (a.interface, b.interface) {
                (None, None) => true,
                (Some(x), Some(y)) => {
                    &&& y.path == x.path && y.last_modified == x.last_modified && y.dirty == x.dirty
                    &&& y.compile_state == x.compile_state
                    &&& y.parse_state == match o.interface {
                        Some(res) => parse_state_of(res, shown),
                        None => x.parse_state,
                    }
                },
                _ => false,
            }
        },
        (SourceType::MlMap(a), SourceType::MlMap(b)) => a == b,
        _ => false,
    }
}

/// Each outcome names a module of the state, and no module twice.
pub open spec fn outcomes_valid(outcomes: Seq<ParseOutcome>, n: int) -> bool {
    &&& forall|k: int| 0 <= k < outcomes.len() ==> #[trigger] outcomes[k].module_index < n
    &&& forall|k: int, l: int|
        0 <= k < outcomes.len() && 0 <= l < outcomes.len() && k != l
            ==> #[trigger] outcomes[k].module_index != #[trigger] outcomes[l].module_index
}

/// The parse output of the first `k` outcomes.
pub open spec fn messages_upto(state: BuildState, outcomes: Seq<ParseOutcome>, k: int) -> Seq<char>
    decreases k,
{
    if k <= 0 {
        Seq::empty()
    } else {
        messages_upto(state, outcomes, k - 1) + outcomes[k - 1].message(
            state.shows_warnings(outcomes[k - 1].module_index as int),
        )
    }
}

/// Whether one of the outcomes is a failure.
pub open spec fn any_failure(outcomes: Seq<ParseOutcome>) -> bool {
    exists|k: int| 0 <= k < outcomes.len() && #[trigger] outcomes[k].has_failure()
}

/// Records one file's result: its parse state and what it adds to the output.
fn record_file(
    state: &mut ParseState,
    result: &Result<Option<String>, String>,
    shown: bool,
    out: &mut String,
) -> (failure: bool)
    ensures
        *final(state) == parse_state_of(*result, shown),
        final(out)@ == old(out)@ + message_of(*result, shown),
        failure == failed(*result),
{
    match result {
        Ok(Some(w)) => {
            if shown {
                *state = ParseState::Warning;
                out.append(w.as_str());
            } else {
                *state = ParseState::Success;
                assert(out@ =~= old(out)@ + Seq::<char>::empty());
            }
            false
        },
        Ok(None) => {
            *state = ParseState::Success;
            assert(out@ =~= old(out)@ + Seq::<char>::empty());
            false
        },
        Err(e) => {
            *state = ParseState::ParseError;
            out.append(e.as_str());
            true
        },
    }
}

/// Records the outcome of parsing one module.
fn record_outcome(m: &mut Module, o: &ParseOutcome, shown: bool, out: &mut String) -> (failure:
    bool)
    ensures
        parsed(*old(m), *final(m), *o, shown),
        final(out)@ == old(out)@ + o.message(shown),
        failure == o.has_failure(),
{
    if o.dirty {
        m.compile_dirty = true;
    }
    let mut failure = false;
    let mut scratch = ParseState::Pending;
    let ghost out0 = out@;
    match &mut m.source_type {
        SourceType::SourceFile(sf) => {
            if record_file(&mut sf.implementation.parse_state, &o.implementation, shown, out) {
                failure = true;
            }
        },
        SourceType::MlMap(_) => {
            if record_file(&mut scratch, &o.implementation, shown, out) {
                failure = true;
            }
        },
    }
    let ghost out1 = out@;
    match &o.interface {
        Some(res) => {
            let f = match &mut m.source_type {
                SourceType::SourceFile(sf) => match &mut sf.interface {
                    Some(iface) => record_file(&mut iface.parse_state, res, shown, out),
                    None => record_file(&mut scratch, res, shown, out),
                },
                SourceType::MlMap(_) => record_file(&mut scratch, res, shown, out),
            };
            if f {
                failure = true;
            }
        },
        None => {
            assert(out@ =~= out1 + Seq::<char>::empty());
        },
    }
    assert(out@ =~= out0 + o.message(shown));
    failure
}

/// Records what parsing gave, one outcome per parsed module: each file's parse state, the
/// modules that must be compiled again, and the parse output, which shows warnings only for
/// pinned dependencies. Fails, with that output, where a file did not parse.
pub fn record_parse_results(build_state: &mut BuildState, outcomes: &Vec<ParseOutcome>) -> (r:
    Result<String, String>)
    requires
        old(build_state).wf(),
        outcomes_valid(outcomes@, old(build_state).modules@.len() as int),
    ensures
        final(build_state).wf(),
        final(build_state).project_root == old(build_state).project_root,
        final(build_state).root_config_name == old(build_state).root_config_name,
        final(build_state).packages == old(build_state).packages,
        final(build_state).modules@.len() == old(build_state).modules@.len(),
        forall|k: int|
            0 <= k < outcomes@.len() ==> parsed(
                old(build_state).modules@[#[trigger] outcomes@[k].module_index as int],
                final(build_state).modules@[outcomes@[k].module_index as int],
                outcomes@[k],
                old(build_state).shows_warnings(outcomes@[k].module_index as int),
            ),
        forall|i: int|
            0 <= i < old(build_state).modules@.len() && (forall|k: int|
                0 <= k < outcomes@.len() ==> #[trigger] outcomes@[k].module_index != i)
                ==> final(build_state).modules@[i] == old(build_state).modules@[i],
        r is Err <==> any_failure(outcomes@),
        r matches Ok(s) ==> s@ == messages_upto(*old(build_state), outcomes@, outcomes@.len() as int),
        r matches Err(s) ==> s@ == messages_upto(*old(build_state), outcomes@, outcomes@.len() as int),
{
    let ghost old_state = *build_state;
    let mut out = String::new();
    let mut has_failure = false;
    let mut k: usize = 0;
    while k < outcomes.len()
        invariant
            old_state.wf(),
            outcomes_valid(outcomes@, old_state.modules@.len() as int),
            k <= outcomes@.len(),
            build_state.modules@.len() == old_state.modules@.len(),
            build_state.project_root == old_state.project_root,
            build_state.root_config_name == old_state.root_config_name,
            build_state.packages == old_state.packages,
            forall|j: int|
                0 <= j < k ==> parsed(
                    old_state.modules@[#[trigger] outcomes@[j].module_index as int],
                    build_state.modules@[outcomes@[j].module_index as int],
                    outcomes@[j],
                    old_state.shows_warnings(outcomes@[j].module_index as int),
                ),
            forall|i: int|
                0 <= i < old_state.modules@.len() && (forall|j: int|
                    0 <= j < k ==> #[trigger] outcomes@[j].module_index != i)
                    ==> build_state.modules@[i] == old_state.modules@[i],
            out@ == messages_upto(old_state, outcomes@, k as int),
            has_failure == exists|j: int| 0 <= j < k && #[trigger] outcomes@[j].has_failure(),
        decreases outcomes@.len() - k,
    {
        let o = &outcomes[k];
        let idx = o.module_index;
        assert(build_state.modules@[idx as int] == old_state.modules@[idx as int]);
        let shown = match build_state.get_package(build_state.modules[idx].package_name.as_str()) {
            Some(p) => p.is_pinned_dep,
            None => false,
        };
        let ghost before = build_state.modules@;
        let f = record_outcome(&mut build_state.modules[idx], o, shown, &mut out);
        if f {
            has_failure = true;
        }
        proof {
            assert forall|j: int| 0 <= j < k + 1 implies parsed(
                old_state.modules@[#[trigger] outcomes@[j].module_index as int],
                build_state.modules@[outcomes@[j].module_index as int],
                outcomes@[j],
                old_state.shows_warnings(outcomes@[j].module_index as int),
            ) by {
                if j < k {
                    assert(outcomes@[j].module_index != outcomes@[k as int].module_index);
                }
            }
            assert forall|i: int|
                0 <= i < old_state.modules@.len() && (forall|j: int|
                    0 <= j < k + 1 ==> #[trigger] outcomes@[j].module_index != i)
                    implies build_state.modules@[i] == old_state.modules@[i] by {
                assert(outcomes@[k as int].module_index != i);
            }
            assert(has_failure == exists|j: int| 0 <= j < k + 1 && #[trigger] outcomes@[j].has_failure()) by {
                if outcomes@[k as int].has_failure() {
                } 
            }
        }
        k = k + 1;
    }
    proof {
        assert forall|a: int, b: int|
            0 <= a < build_state.modules@.len() && 0 <= b < build_state.modules@[a].deps@.len()
            implies #[trigger] build_state.modules@[a].deps@[b] < build_state.modules@.len() by {
            if exists|j: int| 0 <= j < outcomes@.len() && #[trigger] outcomes@[j].module_index == a {
                let j = choose|j: int| 0 <= j < outcomes@.len() && #[trigger] outcomes@[j].module_index == a;
                assert(parsed(old_state.modules@[outcomes@[j].module_index as int], build_state.modules@[outcomes@[j].module_index as int], outcomes@[j], old_state.shows_warnings(outcomes@[j].module_index as int)));
            }
        }
        assert forall|a: int, b: int|
            0 <= a < build_state.modules@.len() && 0 <= b < build_state.modules@.len() && a != b
            implies #[trigger] build_state.modules@[a].name@ != #[trigger] build_state.modules@[b].name@ by {
            if exists|j: int| 0 <= j < outcomes@.len() && #[trigger] outcomes@[j].module_index == a {
                let j = choose|j: int| 0 <= j < outcomes@.len() && #[trigger] outcomes@[j].module_index == a;
                assert(parsed(old_state.modules@[outcomes@[j].module_index as int], build_state.modules@[outcomes@[j].module_index as int], outcomes@[j], old_state.shows_warnings(outcomes@[j].module_index as int)));
            }
            if exists|j: int| 0 <= j < outcomes@.len() && #[trigger] outcomes@[j].module_index == b {
                let j = choose|j: int| 0 <= j < outcomes@.len() && #[trigger] outcomes@[j].module_index == b;
                assert(parsed(old_state.modules@[outcomes@[j].module_index as int], build_state.modules@[outcomes@[j].module_index as int], outcomes@[j], old_state.shows_warnings(outcomes@[j].module_index as int)));
            }
            assert(build_state.modules@[a].name == old_state.modules@[a].name);
            assert(build_state.modules@[b].name == old_state.modules@[b].name);
            assert(old_state.modules@[a].name@ != old_state.modules@[b].name@);
        }
    }
    if has_failure {
        Err(out)
    } else {
        Ok(out)
    }
}

/// The AST extension for a source file: `.iast` for an interface, `.ast` otherwise.
pub open spec fn ast_extension_of(path: Seq<char>) -> Seq<char> {
    if has_extension(path) && is_interface_extension(extension_of(path)) {
        ".iast"@
    } else {
        ".ast"@
    }
}

/// The extension the parser's output gets for a source file.
pub fn path_to_ast_extension(path: &str) -> (r: String)
    ensures
        r@ == ast_extension_of(path@),
{
    if path_has_extension(path) {
        let ext = get_extension(path);
        if is_interface_file(ext.as_str()) {
            return String::from_str(".iast");
        }
    }
    String::from_str(".ast")
}

/// A preprocessor flag: one program, or a program with its arguments.
pub enum PpxFlag {
    Single(String),
    Multiple(Vec<String>),
}

/// The program a flag names, if it names one.
pub open spec fn ppx_program(flag: PpxFlag) -> Option<Seq<char>> {
    match flag {
        PpxFlag::Single(s) => Some(s@),
        PpxFlag::Multiple(v) => if v@.len() > 0 {
            Some(v@[0]@)
        } else {
            None
        },
    }
}

/// A flag stays unless coverage instrumentation is off and its program mentions `bisect`.
pub open spec fn ppx_kept(flag: PpxFlag, bisect_enabled: bool) -> bool {
    bisect_enabled || !(ppx_program(flag) matches Some(p) && holds_text(p, "bisect"@))
}

/// The flags among the first `k` that stay, in order.
pub open spec fn ppx_kept_upto(flags: Seq<PpxFlag>, bisect_enabled: bool, k: int) -> Seq<PpxFlag>
    decreases k,
{
    if k <= 0 {
        Seq::empty()
    } else {
        ppx_kept_upto(flags, bisect_enabled, k - 1) + if ppx_kept(flags[k - 1], bisect_enabled) {
            seq![flags[k - 1]]
        } else {
            Seq::empty()
        }
    }
}

/// What a flag says: whether it is a single program, and its words.
pub open spec fn flag_view(flag: PpxFlag) -> (bool, Seq<Seq<char>>) {
    match flag {
        PpxFlag::Single(s) => (true, seq![s@]),
        PpxFlag::Multiple(v) => (false, views(v@)),
    }
}

fn copy_flag(flag: &PpxFlag) -> (r: PpxFlag)
    ensures
        flag_view(r) == flag_view(*flag),
        ppx_program(r) == ppx_program(*flag),
{
    match flag {
        PpxFlag::Single(s) => PpxFlag::Single(s.clone()),
        PpxFlag::Multiple(v) => {
            let mut w: Vec<String> = Vec::new();
            let mut i: usize = 0;
            while i < v.len()
                invariant
                    i <= v@.len(),
                    w@.len() == i,
                    forall|j: int| 0 <= j < i ==> #[trigger] w@[j]@ == v@[j]@,
                decreases v@.len() - i,
            {
                w.push(v[i].clone());
                i = i + 1;
            }
            assert(views(w@) =~= views(v@));
            PpxFlag::Multiple(w)
        },
    }
}

/// The preprocessor flags to pass: those whose program mentions `bisect` are left out unless
/// coverage instrumentation is enabled.
pub fn filter_ppx_flags(ppx_flags: &Option<Vec<PpxFlag>>, bisect_enabled: bool) -> (r: Option<
    Vec<PpxFlag>,
>)
    ensures
        ppx_flags is None ==> r is None,
        ppx_flags matches Some(f) ==> r matches Some(g) && g@.map_values(|x: PpxFlag| flag_view(x))
            == ppx_kept_upto(f@, bisect_enabled, f@.len() as int).map_values(
            |x: PpxFlag| flag_view(x),
        ),
{
    match ppx_flags {
        None => None,
        Some(flags) => {
            let mut kept: Vec<PpxFlag> = Vec::new();
            let mut i: usize = 0;
            while i < flags.len()
                invariant
                    i <= flags@.len(),
                kept@.map_values(|x: PpxFlag| flag_view(x)) == ppx_kept_upto(
                    flags@,
                    bisect_enabled,
                    i as int,
                ).map_values(|x: PpxFlag| flag_view(x)),
                decreases flags@.len() - i,
            {
                let flag = &flags[i];
                let ghost before = ppx_kept_upto(flags@, bisect_enabled, i as int);
                let ghost kept0 = kept@;
                let mentions = match flag {
                    PpxFlag::Single(s) => contains_text(s.as_str(), "bisect"),
                    PpxFlag::Multiple(v) => v.len() > 0 && contains_text(v[0].as_str(), "bisect"),
                };
                if bisect_enabled || !mentions {
                    let c = copy_flag(flag);
                    kept.push(c);
                    let ghost target = ppx_kept_upto(flags@, bisect_enabled, i + 1);
                    assert(target =~= before.push(flags@[i as int]));
                    assert(kept0.map_values(|x: PpxFlag| flag_view(x)).len() == kept0.len());
                    assert(before.map_values(|x: PpxFlag| flag_view(x)).len() == before.len());
                    assert forall|j: int| 0 <= j < kept@.len() implies flag_view(kept@[j]) == flag_view(
                        target[j],
                    ) by {
                        if j < kept0.len() {
                            assert(kept0.map_values(|x: PpxFlag| flag_view(x))[j] == before.map_values(
                                |x: PpxFlag| flag_view(x),
                            )[j]);
                        }
                    }
                    assert(kept@.map_values(|x: PpxFlag| flag_view(x)) =~= ppx_kept_upto(
                        flags@,
                        bisect_enabled,
                        i + 1,
                    ).map_values(|x: PpxFlag| flag_view(x)));
                } else {
                    assert(ppx_kept_upto(flags@, bisect_enabled, i + 1) =~= before);
                }
                i = i + 1;
            }
            Some(kept)
        },
    }
}

/// The parser's error output says something: it holds an ASCII letter or digit.
pub open spec fn meaningful(text: Seq<char>) -> bool {
    exists|i: int| 0 <= i < text.len() && is_ascii_alnum(#[trigger] text[i])
}

/// What one run of the parser gave, from its exit status and error output: a failed run is
/// an error carrying that output; a successful run reports warnings when the output says
/// something, and nothing otherwise.
pub fn parser_result(stderr: String, success: bool) -> (r: Result<Option<String>, String>)
    ensures
        !success ==> (r matches Err(e) && e@ == stderr@),
        success && meaningful(stderr@) ==> (r matches Ok(Some(w)) && w@ == stderr@),
        success && !meaningful(stderr@) ==> r matches Ok(None),
{
    if !success {
        Err(stderr)
    } else if has_ascii_alnum(stderr.as_str()) {
        Ok(Some(stderr))
    } else {
        Ok(None)
    }
}

/// The name of the file the parser writes, relative to its working directory: the source's
/// stem with the AST extension.
pub open spec fn ast_output_of(filename: Seq<char>) -> Seq<char> {
    stem_of(filename) + ast_extension_of(filename)
}

/// The parser's command line for one source file, run from the package's intermediate build
/// directory: the compiler version, the package's flags, then the request for an AST written
/// to the file's stem, with the source reached two directories up.
pub open spec fn parser_args_of(
    version: Seq<char>,
    flags: Seq<Seq<char>>,
    filename: Seq<char>,
) -> Seq<Seq<char>> {
    seq!["-bs-v"@, version] + flags + seq![
        "-absname"@,
        "-bs-ast"@,
        "-o"@,
        ast_output_of(filename),
        "../../"@ + filename,
    ]
}

/// The parser's command line for one source file.
pub fn parser_args(version: &str, flags: &Vec<String>, filename: &str) -> (r: Vec<String>)
    requires
        has_file_name(filename@),
    ensures
        views(r@) == parser_args_of(version@, views(flags@), filename@),
{
    let mut r: Vec<String> = Vec::new();
    r.push(String::from_str("-bs-v"));
    r.push(String::from_str(version));
    let mut i: usize = 0;
    while i < flags.len()
        invariant
            i <= flags@.len(),
            views(r@) == seq!["-bs-v"@, version@] + views(flags@).take(i as int),
        decreases flags@.len() - i,
    {
        let ghost before = views(r@);
        r.push(flags[i].clone());
        assert(views(r@) =~= before.push(flags@[i as int]@));
        assert(views(flags@).take(i + 1) =~= views(flags@).take(i as int).push(flags@[i as int]@));
        i = i + 1;
    }
    assert(views(flags@).take(flags@.len() as int) =~= views(flags@));
    let ghost head = views(r@);
    r.push(String::from_str("-absname"));
    r.push(String::from_str("-bs-ast"));
    r.push(String::from_str("-o"));
    let stem = get_basename(filename);
    let ext = path_to_ast_extension(filename);
    r.push(join2(stem.as_str(), ext.as_str()));
    r.push(join2("../../", filename));
    assert(views(r@) =~= parser_args_of(version@, views(flags@), filename@));
    r
}

/// A module whose source files the parser must run on.
pub open spec fn parse_job(m: Module) -> bool {
    m.source_type is SourceFile && needs_parse(m)
}

/// The positions, among the first `k` modules, of those whose files the parser must run on.
pub open spec fn parse_jobs_upto(modules: Seq<Module>, k: int) -> Seq<usize>
    decreases k,
{
    if k <= 0 {
        Seq::empty()
    } else {
        parse_jobs_upto(modules, k - 1) + if parse_job(modules[k - 1]) {
            seq![(k - 1) as usize]
        } else {
            Seq::empty()
        }
    }
}

/// The positions, in order, of the source modules with a dirty implementation or interface:
/// the parser runs on their files and on no other.
pub fn modules_to_parse(build_state: &BuildState) -> (r: Vec<usize>)
    ensures
        r@ == parse_jobs_upto(build_state.modules@, build_state.modules@.len() as int),
{
    let mut r: Vec<usize> = Vec::new();
    let mut i: usize = 0;
    while i < build_state.modules.len()
        invariant
            i <= build_state.modules@.len(),
            r@ == parse_jobs_upto(build_state.modules@, i as int),
        decreases build_state.modules@.len() - i,
    {
        let m = &build_state.modules[i];
        let source = match &m.source_type {
            SourceType::SourceFile(_) => true,
            SourceType::MlMap(_) => false,
        };
        if source && is_dirty(m) {
            r.push(i);
        }
        assert(r@ =~= parse_jobs_upto(build_state.modules@, i + 1));
        i = i + 1;
    }
    r
}

} // verus!
