use crate::clean::{AstModule, CompileAssetsState, listed, time_of, unique_names};
use crate::helpers::{
    capitalized, extension_of, file_name_present, file_path_to_module_name, get_basename,
    get_extension, has_extension, has_file_name, path_has_extension, stem_of,
};
use crate::packages::Namespace;
use crate::text::same_text;
use vstd::prelude::*;
use vstd::string::*;

verus! {

/// The module a `.cmi` or `.cmt` file belongs to: its capitalized base name, which already
/// carries any namespace suffix.
pub open spec fn artifact_module_name(path: Seq<char>) -> Seq<char> {
    capitalized(stem_of(path))
}

/// The extension of an artifact file, where it has one.
pub open spec fn artifact_extension(path: Seq<char>) -> Option<Seq<char>> {
    if has_extension(path) {
        Some(extension_of(path))
    } else {
        None
    }
}

fn is_listed_source(assets: &CompileAssetsState, source: &str) -> (r: bool)
    ensures
        r == exists|k: int|
            0 <= k < assets.ast_modules@.len() && #[trigger] assets.ast_modules@[k].source_file@
                == source@,
{
    let mut k: usize = 0;
    while k < assets.ast_modules.len()
        invariant
            k <= assets.ast_modules@.len(),
            forall|l: int| 0 <= l < k ==> #[trigger] assets.ast_modules@[l].source_file@ != source@,
        decreases assets.ast_modules@.len() - k,
    {
        if same_text(assets.ast_modules[k].source_file.as_str(), source) {
            return true;
        }
        k = k + 1;
    }
    false
}

fn has_name(l: &Vec<(String, u64)>, name: &str) -> (r: bool)
    ensures
        r == exists|j: int| 0 <= j < l@.len() && #[trigger] l@[j].0@ == name@,
{
    let mut j: usize = 0;
    while j < l.len()
        invariant
            j <= l@.len(),
            forall|i: int| 0 <= i < j ==> #[trigger] l@[i].0@ != name@,
        decreases l@.len() - j,
    {
        if same_text(l[j].0.as_str(), name) {
            return true;
        }
        j = j + 1;
    }
    false
}

/// Records a `.cmi` or `.cmt` file under its module, unless one is recorded already.
fn record_time(l: &mut Vec<(String, u64)>, name: String, last_modified: u64) -> (r: bool)
    requires
        unique_names(old(l)@),
    ensures
        unique_names(final(l)@),
        r == !exists|j: int| 0 <= j < old(l)@.len() && #[trigger] old(l)@[j].0@ == name@,
        r ==> final(l)@.len() == old(l)@.len() + 1 && final(l)@.drop_last() == old(l)@,
        r ==> final(l)@.last().0@ == name@ && final(l)@.last().1 == last_modified,
        !r ==> final(l)@ == old(l)@,
{
    if has_name(l, name.as_str()) {
        return false;
    }
    let ghost before = l@;
    l.push((name, last_modified));
    assert(l@.drop_last() =~= before);
    true
}

/// Records one file found in a package's build directories. A `.cmi` or `.cmt` file records
/// its modification time under its module; an `.ast` or `.iast` file, given the source path
/// that its header names, records an AST of the module that source belongs to. A file of
/// another kind, an AST without a usable source path, or a key recorded already changes
/// nothing. Returns whether the file was recorded.
pub fn add_artifact(
    assets: &mut CompileAssetsState,
    path: String,
    last_modified: u64,
    package_name: String,
    namespace: Namespace,
    is_root: bool,
    suffix: Option<String>,
    source_file: Option<String>,
) -> (r: bool)
    requires
        old(assets).wf(),
    ensures
        final(assets).wf(),
        final(assets).rescript_file_locations == old(assets).rescript_file_locations,
        artifact_extension(path@) == Some("cmi"@) ==> {
            &&& final(assets).ast_modules@ == old(assets).ast_modules@
            &&& final(assets).cmt_modules@ == old(assets).cmt_modules@
            &&& r == (time_of(old(assets).cmi_modules@, artifact_module_name(path@)) is None)
            &&& r ==> final(assets).cmi_modules@.drop_last() == old(assets).cmi_modules@
                && final(assets).cmi_modules@.last().0@ == artifact_module_name(path@)
                && final(assets).cmi_modules@.last().1 == last_modified
                && final(assets).cmi_modules@.len() == old(assets).cmi_modules@.len() + 1
            &&& !r ==> final(assets).cmi_modules@ == old(assets).cmi_modules@
        },
        artifact_extension(path@) == Some("cmt"@) ==> {
            &&& final(assets).ast_modules@ == old(assets).ast_modules@
            &&& final(assets).cmi_modules@ == old(assets).cmi_modules@
            &&& r == (time_of(old(assets).cmt_modules@, artifact_module_name(path@)) is None)
            &&& r ==> final(assets).cmt_modules@.drop_last() == old(assets).cmt_modules@
                && final(assets).cmt_modules@.last().0@ == artifact_module_name(path@)
                && final(assets).cmt_modules@.last().1 == last_modified
                && final(assets).cmt_modules@.len() == old(assets).cmt_modules@.len() + 1
            &&& !r ==> final(assets).cmt_modules@ == old(assets).cmt_modules@
        },
        (artifact_extension(path@) == Some("ast"@) || artifact_extension(path@) == Some("iast"@))
            ==> {
            &&& final(assets).cmi_modules@ == old(assets).cmi_modules@
            &&& final(assets).cmt_modules@ == old(assets).cmt_modules@
            &&& r == (source_file matches Some(src) && has_file_name(src@) && !exists|k: int|
                0 <= k < old(assets).ast_modules@.len()
                    && #[trigger] old(assets).ast_modules@[k].source_file@ == src@)
            &&& r ==> {
                let a = final(assets).ast_modules@.last();
                &&& final(assets).ast_modules@.drop_last() == old(assets).ast_modules@
                &&& final(assets).ast_modules@.len() == old(assets).ast_modules@.len() + 1
                &&& a.module_name@ == capitalized(
                    crate::helpers::asset_basename_of(a.source_file@, namespace),
                )
                &&& a.package_name == package_name && a.namespace == namespace
                &&& a.last_modified == last_modified && a.ast_file_path == path
                &&& a.is_root == is_root && a.suffix == suffix && Some(a.source_file)
                    == source_file
            }
            &&& !r ==> final(assets).ast_modules@ == old(assets).ast_modules@
        },
        !(artifact_extension(path@) matches Some(e) && (e == "cmi"@ || e == "cmt"@ || e == "ast"@
            || e == "iast"@)) ==> !r && *final(assets) == *old(assets),
{
    if !path_has_extension(path.as_str()) {
        return false;
    }
    let ext = get_extension(path.as_str());
    proof {
        reveal_strlit("cmi");
        reveal_strlit("cmt");
        reveal_strlit("ast");
        reveal_strlit("iast");
        assert("cmi"@[2] != "cmt"@[2]);
        assert("cmi"@[0] != "ast"@[0] && "cmi"@[0] != "iast"@[0]);
        assert("cmt"@[0] != "ast"@[0] && "cmt"@[0] != "iast"@[0]);
        assert("ast"@.len() != "iast"@.len());
    }
    if same_text(ext.as_str(), "cmi") {
        let name = file_path_to_module_name(path.as_str(), &Namespace::NoNamespace);
        proof {
            lemma_time_of_none(assets.cmi_modules@, name@);
        }
        record_time(&mut assets.cmi_modules, name, last_modified)
    } else if same_text(ext.as_str(), "cmt") {
        let name = file_path_to_module_name(path.as_str(), &Namespace::NoNamespace);
        proof {
            lemma_time_of_none(assets.cmt_modules@, name@);
        }
        record_time(&mut assets.cmt_modules, name, last_modified)
    } else if same_text(ext.as_str(), "ast") || same_text(ext.as_str(), "iast") {
        let src = match source_file {
            Some(s) => s,
            None => {
                return false;
            },
        };
        if !file_name_present(src.as_str()) || is_listed_source(assets, src.as_str()) {
            return false;
        }
        let module_name = file_path_to_module_name(src.as_str(), &namespace);
        let ghost before = assets.ast_modules@;
        assets.ast_modules.push(
            AstModule {
                module_name,
                package_name,
                namespace,
                last_modified,
                ast_file_path: path,
                is_root,
                suffix,
                source_file: src,
            },
        );
        proof {
            let after = assets.ast_modules@;
            assert(after.drop_last() =~= before);
            assert forall|i: int, j: int|
                0 <= i < after.len() && 0 <= j < after.len() && i != j implies #[trigger] after[i].source_file@
                != #[trigger] after[j].source_file@ by {
                if i < before.len() && j < before.len() {
                    assert(after[i] == before[i]);
                    assert(after[j] == before[j]);
                } else if i < before.len() {
                    assert(after[i] == before[i]);
                } else {
                    assert(after[j] == before[j]);
                }
            }
        }
        true
    } else {
        false
    }
}

/// Nothing is recorded for `name` exactly when no entry has it.
proof fn lemma_time_of_none(l: Seq<(String, u64)>, name: Seq<char>)
    ensures
        (time_of(l, name) is None) == !exists|j: int| 0 <= j < l.len() && #[trigger] l[j].0@ == name,
{
}

} // verus!
