use crate::build_types::{BuildState, CompileState, Module, SourceType};
use vstd::prelude::*;
use vstd::string::*;

verus! {

/// Where a module stands in this build's compile phase.
#[derive(PartialEq, Eq, Structural, Clone, Copy, Debug)]
pub enum Progress {
    /// Not started.
    Waiting,
    /// Handed to a worker.
    Running,
    /// Compiled, or skipped because it was clean.
    Done,
    /// The compiler reported an error.
    Failed,
}

/// Module `i` may start: it waits, and each of its dependencies is done.
pub open spec fn is_ready(modules: Seq<Module>, progress: Seq<Progress>, i: int) -> bool {
    &&& progress[i] == Progress::Waiting
    &&& forall|j: int|
        0 <= j < modules[i].deps@.len() ==> progress[#[trigger] modules[i].deps@[j] as int]
            == Progress::Done
}

/// The ready modules among the first `k`, in order.
pub open spec fn ready_upto(modules: Seq<Module>, progress: Seq<Progress>, k: int) -> Seq<usize>
    decreases k,
{
    if k <= 0 {
        Seq::empty()
    } else {
        ready_upto(modules, progress, k - 1) + if is_ready(modules, progress, k - 1) {
            seq![(k - 1) as usize]
        } else {
            Seq::empty()
        }
    }
}

/// Whether the compiler must run for a module: only a module marked for compiling is handed
/// to it; any other is skipped as clean.
pub fn should_compile(module: &Module) -> (r: bool)
    ensures
        r == module.compile_dirty,
{
    module.compile_dirty
}

/// Whether module `i` may start.
fn ready(build_state: &BuildState, progress: &Vec<Progress>, i: usize) -> (r: bool)
    requires
        build_state.wf(),
        progress@.len() == build_state.modules@.len(),
        i < progress@.len(),
    ensures
        r == is_ready(build_state.modules@, progress@, i as int),
{
    if progress[i] != Progress::Waiting {
        return false;
    }
    let m = &build_state.modules[i];
    let mut j: usize = 0;
    while j < m.deps.len()
        invariant
            build_state.wf(),
            progress@.len() == build_state.modules@.len(),
            i < progress@.len(),
            *m == build_state.modules@[i as int],
            j <= m.deps@.len(),
            forall|l: int| 0 <= l < j ==> progress@[#[trigger] m.deps@[l] as int] == Progress::Done,
        decreases m.deps@.len() - j,
    {
        let d = m.deps[j];
        assert(d < build_state.modules@.len());
        if progress[d] != Progress::Done {
            return false;
        }
        j = j + 1;
    }
    true
}

/// The modules to start next: the first `workers` of the modules that wait and whose
/// dependencies are all done, in build order. A module whose dependency failed never starts.
pub fn next_batch(build_state: &BuildState, progress: &Vec<Progress>, workers: usize) -> (r: Vec<
    usize,
>)
    requires
        build_state.wf(),
        progress@.len() == build_state.modules@.len(),
    ensures
        r@ == ready_upto(build_state.modules@, progress@, build_state.modules@.len() as int).take(
            if workers < ready_upto(build_state.modules@, progress@, build_state.modules@.len() as int).len() {
                workers as int
            } else {
                ready_upto(build_state.modules@, progress@, build_state.modules@.len() as int).len() as int
            },
        ),
{
    let n = build_state.modules.len();
    let ghost all = ready_upto(build_state.modules@, progress@, n as int);
    let mut r: Vec<usize> = Vec::new();
    let mut i: usize = 0;
    proof {
        lemma_ready_upto_prefix(build_state.modules@, progress@, 0, n as int);
    }
    while i < n && r.len() < workers
        invariant
            build_state.wf(),
            progress@.len() == n,
            n == build_state.modules@.len(),
            i <= n,
            all == ready_upto(build_state.modules@, progress@, n as int),
            r@ == ready_upto(build_state.modules@, progress@, i as int),
            r@.len() <= workers,
        decreases n - i,
    {
        if ready(build_state, progress, i) {
            r.push(i);
        }
        assert(r@ =~= ready_upto(build_state.modules@, progress@, i + 1));
        i = i + 1;
    }
    proof {
        lemma_ready_upto_prefix(build_state.modules@, progress@, i as int, n as int);
        if r@.len() < workers {
            assert(i == n);
            assert(all.take(all.len() as int) =~= all);
        } else {
            assert(all.take(workers as int) =~= r@);
        }
    }
    r
}

/// The ready list of a shorter prefix is a prefix of a longer one's.
proof fn lemma_ready_upto_prefix(modules: Seq<Module>, progress: Seq<Progress>, a: int, b: int)
    requires
        0 <= a <= b,
    ensures
        ready_upto(modules, progress, a) == ready_upto(modules, progress, b).take(
            ready_upto(modules, progress, a).len() as int,
        ),
        ready_upto(modules, progress, a).len() <= ready_upto(modules, progress, b).len(),
    decreases b - a,
{
    if a < b {
        lemma_ready_upto_prefix(modules, progress, a, b - 1);
        let x = ready_upto(modules, progress, a);
        let y = ready_upto(modules, progress, b - 1);
        let z = ready_upto(modules, progress, b);
        assert(z.take(y.len() as int) =~= y);
        assert(z.take(x.len() as int) =~= y.take(x.len() as int));
    } else {
        let x = ready_upto(modules, progress, a);
        assert(x.take(x.len() as int) =~= x);
    }
}

/// The compile state a module gets from the compiler's result (`None`: it was skipped).
pub open spec fn compile_state_of(outcome: Option<Result<Option<String>, String>>) -> CompileState {
    match outcome {
        None => CompileState::SkippedClean,
        Some(Ok(None)) => CompileState::Success,
        Some(Ok(Some(_))) => CompileState::Warning,
        Some(Err(_)) => CompileState::Error,
    }
}

/// Records the result of compiling module `i` (`None`: it was clean and skipped). Warnings and
/// errors go to their outputs; the module is done, or failed on an error. Returns whether
/// the compiler ran.
pub fn record_compile(
    build_state: &mut BuildState,
    progress: &mut Vec<Progress>,
    i: usize,
    outcome: &Option<Result<Option<String>, String>>,
    warnings: &mut String,
    errors: &mut String,
) -> (compiled: bool)
    requires
        old(build_state).wf(),
        old(progress)@.len() == old(build_state).modules@.len(),
        i < old(progress)@.len(),
    ensures
        final(build_state).wf(),
        final(build_state).project_root == old(build_state).project_root,
        final(build_state).root_config_name == old(build_state).root_config_name,
        final(build_state).packages == old(build_state).packages,
        final(build_state).modules@.len() == old(build_state).modules@.len(),
        forall|j: int|
            0 <= j < old(build_state).modules@.len() && j != i ==> #[trigger] final(build_state).modules@[j]
                == old(build_state).modules@[j],
        ({
            let m = old(build_state).modules@[i as int];
            let r = final(build_state).modules@[i as int];
            &&& r.name == m.name && r.package_name == m.package_name && r.deps == m.deps
            &&& r.compile_dirty == m.compile_dirty
            &&& r.last_compiled_cmi == m.last_compiled_cmi
            &&& r.last_compiled_cmt == m.last_compiled_cmt
            &&& match (m.source_type, r.source_type) {
                (SourceType::SourceFile(a), SourceType::SourceFile(b)) => {
                    &&& b.interface == a.interface
                    &&& b.implementation.path == a.implementation.path
                    &&& b.implementation.last_modified == a.implementation.last_modified
                    &&& b.implementation.dirty == a.implementation.dirty
                    &&& b.implementation.parse_state == a.implementation.parse_state
                    &&& b.implementation.compile_state == compile_state_of(*outcome)
                },
                (SourceType::MlMap(a), SourceType::MlMap(b)) => a == b,
                _ => false,
            }
        }),
        final(progress)@ == old(progress)@.update(
            i as int,
            if outcome matches Some(Err(_)) {
                Progress::Failed
            } else {
                Progress::Done
            },
        ),
        final(warnings)@ == old(warnings)@ + match *outcome {
            Some(Ok(Some(w))) => w@,
            _ => Seq::empty(),
        },
        final(errors)@ == old(errors)@ + match *outcome {
            Some(Err(e)) => e@,
            _ => Seq::empty(),
        },
        compiled == outcome is Some,
{
    let ghost modules = build_state.modules@;
    let state = match outcome {
        None => CompileState::SkippedClean,
        Some(Ok(None)) => CompileState::Success,
        Some(Ok(Some(w))) => {
            warnings.append(w.as_str());
            CompileState::Warning
        },
        Some(Err(e)) => {
            errors.append(e.as_str());
            CompileState::Error
        },
    };
    if !(outcome matches Some(Ok(Some(_)))) {
        assert(warnings@ =~= old(warnings)@ + Seq::<char>::empty());
    }
    if !(outcome matches Some(Err(_))) {
        assert(errors@ =~= old(errors)@ + Seq::<char>::empty());
    }
    match &mut build_state.modules[i].source_type {
        SourceType::SourceFile(sf) => {
            sf.implementation.compile_state = state;
        },
        SourceType::MlMap(_) => {},
    }
    let failed = outcome matches Some(Err(_));
    progress.set(i, if failed { Progress::Failed } else { Progress::Done });
    proof {
        assert forall|a: int, b: int|
            0 <= a < build_state.modules@.len() && 0 <= b < build_state.modules@[a].deps@.len()
            implies #[trigger] build_state.modules@[a].deps@[b] < build_state.modules@.len() by {
            assert(build_state.modules@[a].deps == modules[a].deps);
        }
        assert forall|a: int, b: int|
            0 <= a < build_state.modules@.len() && 0 <= b < build_state.modules@.len() && a != b
            implies #[trigger] build_state.modules@[a].name@ != #[trigger] build_state.modules@[b].name@ by {
            assert(build_state.modules@[a].name == modules[a].name);
            assert(build_state.modules@[b].name == modules[b].name);
        }
    }
    outcome.is_some()
}

} // verus!
