pub use crate::abs_path::get_abs_path;
use crate::packages::Namespace;
use crate::text::{
    after_first, ends_with_text, find_first, find_last, lemma_first_index_none, has_ascii_alnum, is_ascii_alnum, is_ascii_upper, join2, join3, join4, last_index,
    prefix_until, same_text, slice, strip_leading, suffix_after, take_until, trim_leading,
};
use vstd::prelude::*;
use vstd::string::*;

verus! {

/// The directory of a package, relative to the project root.
pub open spec fn relative_package_path_of(package_name: Seq<char>, is_root: bool) -> Seq<char> {
    if is_root {
        Seq::empty()
    } else {
        "node_modules/"@ + package_name
    }
}

/// The directory of a package.
pub open spec fn package_path_of(root: Seq<char>, package_name: Seq<char>, is_root: bool) -> Seq<char> {
    if is_root {
        root
    } else {
        root + "/node_modules/"@ + package_name
    }
}

/// The public build directory of a package.
pub open spec fn build_path_of(root: Seq<char>, package_name: Seq<char>, is_root: bool) -> Seq<char> {
    package_path_of(root, package_name, is_root) + "/lib/ocaml"@
}

/// The intermediate build directory of a package.
pub open spec fn bs_build_path_of(root: Seq<char>, package_name: Seq<char>, is_root: bool) -> Seq<char> {
    package_path_of(root, package_name, is_root) + "/lib/bs"@
}

/// The last component of a path: what follows its last `/`.
pub open spec fn file_name_of(path: Seq<char>) -> Seq<char> {
    path.subrange(last_index(path, '/') + 1, path.len() as int)
}

/// What precedes the last component of a path, its last `/` included.
pub open spec fn dir_prefix_of(path: Seq<char>) -> Seq<char> {
    path.subrange(0, last_index(path, '/') + 1)
}

/// The path has a last component that is neither empty, `.` nor `..`.
pub open spec fn has_file_name(path: Seq<char>) -> bool {
    exists|i: int| 0 <= i < file_name_of(path).len() && #[trigger] file_name_of(path)[i] != '.'
}

/// The file name without its extension: up to the last `.`, unless that dot starts the name.
pub open spec fn stem_of(path: Seq<char>) -> Seq<char> {
    let name = file_name_of(path);
    let d = last_index(name, '.');
    if d <= 0 {
        name
    } else {
        name.subrange(0, d)
    }
}

/// The path has an extension: its file name holds a `.` that does not start it.
pub open spec fn has_extension(path: Seq<char>) -> bool {
    has_file_name(path) && last_index(file_name_of(path), '.') > 0
}

/// What follows the last `.` of the file name.
pub open spec fn extension_of(path: Seq<char>) -> Seq<char> {
    let name = file_name_of(path);
    name.subrange(last_index(name, '.') + 1, name.len() as int)
}

/// The path with its extension replaced by `ext` (removed when `ext` is empty).
pub open spec fn with_extension_of(path: Seq<char>, ext: Seq<char>) -> Seq<char> {
    if ext.len() == 0 {
        dir_prefix_of(path) + stem_of(path)
    } else {
        dir_prefix_of(path) + stem_of(path) + "."@ + ext
    }
}

/// What `char::to_uppercase` yields for a character.
pub uninterp spec fn uppercase_of(c: char) -> Seq<char>;

/// `s` with its first character upper-cased.
pub open spec fn capitalized(s: Seq<char>) -> Seq<char> {
    if s.len() == 0 {
        s
    } else {
        uppercase_of(s[0]) + s.drop_first()
    }
}

/// `base` with the namespace suffix appended, as artifact names carry it.
pub open spec fn suffixed(base: Seq<char>, namespace: Namespace) -> Seq<char> {
    match namespace {
        Namespace::NoNamespace => base,
        Namespace::Namespace(n) => base + "-"@ + n@,
        Namespace::NamespaceWithEntry { namespace, entry } => if entry@ == base {
            base
        } else {
            base + "-"@ + namespace@
        },
    }
}

/// The base name of the artifacts of a source file.
pub open spec fn asset_basename_of(path: Seq<char>, namespace: Namespace) -> Seq<char> {
    suffixed(stem_of(path), namespace)
}

/// Relies on std's `Path::file_stem`: where the last component is a file name, the name up to
/// its last `.`, unless that dot starts the name.
#[verifier::external_body]
fn path_file_stem(path: &str) -> (r: Option<String>)
    ensures
        has_file_name(path@) ==> r is Some && r->0@ == stem_of(path@),
{
    std::path::Path::new(path).file_stem().and_then(|s| s.to_str()).map(|s| s.to_string())
}

/// Relies on std's `Path::extension`: where the file name holds a `.` that does not start it,
/// what follows the last `.`.
#[verifier::external_body]
fn path_extension(path: &str) -> (r: Option<String>)
    ensures
        has_extension(path@) ==> r is Some && r->0@ == extension_of(path@),
{
    std::path::Path::new(path).extension().and_then(|s| s.to_str()).map(|s| s.to_string())
}

/// Relies on std's `Path::with_extension`: where the last component is a file name, the path
/// up to the end of the stem, then `.` and the extension unless it is empty.
#[verifier::external_body]
fn path_with_extension(path: &str, extension: &str) -> (r: Option<String>)
    requires
        !extension@.contains('/'),
    ensures
        has_file_name(path@) ==> r is Some && r->0@ == with_extension_of(path@, extension@),
{
    std::path::Path::new(path).with_extension(extension).to_str().map(|s| s.to_string())
}

/// Relies on std's `char::to_uppercase`: the upper-case mapping of one character.
#[verifier::external_body]
fn char_to_uppercase(c: char) -> (r: String)
    ensures
        r@ == uppercase_of(c),
{
    c.to_uppercase().collect::<String>()
}

pub fn get_relative_package_path(package_name: &str, is_root: bool) -> (r: String)
    ensures
        r@ == relative_package_path_of(package_name@, is_root),
{
    if is_root {
        String::new()
    } else {
        join2("node_modules/", package_name)
    }
}

pub fn get_package_path(root: &str, package_name: &str, is_root: bool) -> (r: String)
    ensures
        r@ == package_path_of(root@, package_name@, is_root),
{
    if is_root {
        String::from_str(root)
    } else {
        join3(root, "/node_modules/", package_name)
    }
}

pub fn get_build_path(root: &str, package_name: &str, is_root: bool) -> (r: String)
    ensures
        r@ == build_path_of(root@, package_name@, is_root),
{
    let package = get_package_path(root, package_name, is_root);
    join2(package.as_str(), "/lib/ocaml")
}

pub fn get_bs_build_path(root: &str, package_name: &str, is_root: bool) -> (r: String)
    ensures
        r@ == bs_build_path_of(root@, package_name@, is_root),
{
    let package = get_package_path(root, package_name, is_root);
    join2(package.as_str(), "/lib/bs")
}

pub fn get_path(root: &str, package_name: &str, file: &str, is_root: bool) -> (r: String)
    ensures
        r@ == package_path_of(root@, package_name@, is_root) + "/"@ + file@,
{
    let package = get_package_path(root, package_name, is_root);
    join3(package.as_str(), "/", file)
}

pub fn get_node_modules_path(root: &str) -> (r: String)
    ensures
        r@ == root@ + "/node_modules"@,
{
    join2(root, "/node_modules")
}

/// The file name of `path` without its extension.
pub fn get_basename(path: &str) -> (r: String)
    requires
        has_file_name(path@),
    ensures
        r@ == stem_of(path@),
{
    match path_file_stem(path) {
        Some(s) => s,
        None => String::new(),
    }
}

/// `path` with its extension replaced by `new_extension`.
pub fn change_extension(path: &str, new_extension: &str) -> (r: String)
    requires
        has_file_name(path@),
        !new_extension@.contains('/'),
    ensures
        r@ == with_extension_of(path@, new_extension@),
{
    match path_with_extension(path, new_extension) {
        Some(s) => s,
        None => String::new(),
    }
}

/// The extension of `path`, without its dot.
pub fn get_extension(path: &str) -> (r: String)
    requires
        has_extension(path@),
    ensures
        r@ == extension_of(path@),
{
    match path_extension(path) {
        Some(s) => s,
        None => String::new(),
    }
}

/// Capitalizes the first character in s.
fn capitalize(s: &str) -> (r: String)
    ensures
        r@ == capitalized(s@),
{
    let n = s.unicode_len();
    if n == 0 {
        String::new()
    } else {
        let first = char_to_uppercase(s.get_char(0));
        let rest = s.substring_char(1, n);
        assert(rest@ == s@.drop_first());
        first.concat(rest)
    }
}

fn add_suffix(base: &str, namespace: &Namespace) -> (r: String)
    ensures
        r@ == suffixed(base@, *namespace),
{
    match namespace {
        Namespace::NamespaceWithEntry { namespace: ns, entry } => {
            if same_text(entry.as_str(), base) {
                String::from_str(base)
            } else {
                join3(base, "-", ns.as_str())
            }
        },
        Namespace::Namespace(ns) => join3(base, "-", ns.as_str()),
        Namespace::NoNamespace => String::from_str(base),
    }
}

pub fn module_name_with_namespace(module_name: &str, namespace: &Namespace) -> (r: String)
    ensures
        r@ == capitalized(suffixed(module_name@, *namespace)),
{
    let s = add_suffix(module_name, namespace);
    capitalize(s.as_str())
}

/// The base name of a source file's compiler artifacts. It is not capitalized: for `foo.res`
/// in namespace `Ns` the artifacts are `foo-Ns.cmt` and `foo-Ns.cmj`, the module is `Foo`.
pub fn file_path_to_compiler_asset_basename(path: &str, namespace: &Namespace) -> (r: String)
    requires
        has_file_name(path@),
    ensures
        r@ == asset_basename_of(path@, *namespace),
{
    let base = get_basename(path);
    add_suffix(base.as_str(), namespace)
}

pub fn file_path_to_module_name(path: &str, namespace: &Namespace) -> (r: String)
    requires
        has_file_name(path@),
    ensures
        r@ == capitalized(asset_basename_of(path@, *namespace)),
{
    let base = file_path_to_compiler_asset_basename(path, namespace);
    capitalize(base.as_str())
}

/// Whether `s` holds an ASCII letter or digit.
pub fn contains_ascii_characters(s: &str) -> (r: bool)
    ensures
        r == exists|i: int| 0 <= i < s@.len() && is_ascii_alnum(#[trigger] s@[i]),
{
    has_ascii_alnum(s)
}

/// Where a compiler artifact lies in the public build directory.
pub open spec fn compiler_asset_of(
    source_file: Seq<char>,
    package_name: Seq<char>,
    namespace: Namespace,
    root_path: Seq<char>,
    extension: Seq<char>,
    is_root: bool,
) -> Seq<char> {
    build_path_of(root_path, package_name, is_root) + "/"@ + asset_basename_of(source_file, namespace)
        + "."@ + extension
}

/// Where a compiler artifact lies in the intermediate build directory.
pub open spec fn bs_compiler_asset_of(
    source_file: Seq<char>,
    package_name: Seq<char>,
    namespace: Namespace,
    root_path: Seq<char>,
    extension: Seq<char>,
    is_root: bool,
) -> Seq<char> {
    bs_build_path_of(root_path, package_name, is_root) + "/"@ + dir_prefix_of(source_file)
        + asset_basename_of(source_file, artifact_namespace(namespace, extension)) + "."@ + extension
}

/// Where the AST of a source file lies.
pub open spec fn ast_path_of(
    source_file: Seq<char>,
    package_name: Seq<char>,
    root_path: Seq<char>,
    is_root: bool,
) -> Seq<char> {
    bs_build_path_of(root_path, package_name, is_root) + "/"@ + stem_of(source_file) + ".ast"@
}

/// Where the AST of an interface file lies.
pub open spec fn iast_path_of(
    source_file: Seq<char>,
    package_name: Seq<char>,
    root_path: Seq<char>,
    is_root: bool,
) -> Seq<char> {
    bs_build_path_of(root_path, package_name, is_root) + "/"@ + stem_of(source_file) + ".iast"@
}

pub fn get_compiler_asset(
    source_file: &str,
    package_name: &str,
    namespace: &Namespace,
    root_path: &str,
    extension: &str,
    is_root: bool,
) -> (r: String)
    requires
        has_file_name(source_file@),
    ensures
        r@ == compiler_asset_of(
            source_file@,
            package_name@,
            *namespace,
            root_path@,
            extension@,
            is_root,
        ),
{
    let dir = get_build_path(root_path, package_name, is_root);
    let base = file_path_to_compiler_asset_basename(source_file, namespace);
    let head = join3(dir.as_str(), "/", base.as_str());
    join3(head.as_str(), ".", extension)
}

/// The namespace that artifacts with extension `ext` are named under: AST files never carry one.
pub open spec fn artifact_namespace(namespace: Namespace, ext: Seq<char>) -> Namespace {
    if ext == "ast"@ || ext == "iast"@ {
        Namespace::NoNamespace
    } else {
        namespace
    }
}

/// The directory part of `path`, its last `/` included.
fn dir_prefix(path: &str) -> (r: String)
    ensures
        r@ == dir_prefix_of(path@),
{
    let _n = path.unicode_len();
    match find_last(path, '/') {
        None => String::new(),
        Some(i) => slice(path, 0, i + 1),
    }
}

/// Where a compiler artifact lies in the intermediate build directory, under the source's own
/// relative directory.
pub fn get_bs_compiler_asset(
    source_file: &str,
    package_name: &str,
    namespace: &Namespace,
    root_path: &str,
    extension: &str,
    is_root: bool,
) -> (r: String)
    requires
        has_file_name(source_file@),
    ensures
        r@ == bs_compiler_asset_of(
            source_file@,
            package_name@,
            *namespace,
            root_path@,
            extension@,
            is_root,
        ),
{
    let no_namespace = Namespace::NoNamespace;
    let ns = if same_text(extension, "ast") || same_text(extension, "iast") {
        &no_namespace
    } else {
        namespace
    };
    let dir = get_bs_build_path(root_path, package_name, is_root);
    let sub = dir_prefix(source_file);
    let base = file_path_to_compiler_asset_basename(source_file, ns);
    let head = join4(dir.as_str(), "/", sub.as_str(), base.as_str());
    join3(head.as_str(), ".", extension)
}

/// The namespace part of a module name of the form `Module-Namespace`.
pub fn get_namespace_from_module_name(module_name: &str) -> (r: Option<String>)
    ensures
        r matches None ==> after_first(module_name@, '-') is None,
        r matches Some(ns) ==> after_first(module_name@, '-') matches Some(rest) && ns@
            == take_until(rest, '-'),
{
    match suffix_after(module_name, '-') {
        None => None,
        Some(rest) => Some(prefix_until(rest.as_str(), '-')),
    }
}

pub fn is_interface_ast_file(file: &str) -> (r: bool)
    ensures
        r == (5 <= file@.len() && file@.subrange(file@.len() - 5, file@.len() as int)
            == ".iast"@),
{
    proof {
        reveal_strlit(".iast");
    }
    ends_with_text(file, ".iast")
}

pub fn get_mlmap_path(root_path: &str, package_name: &str, namespace: &str, is_root: bool) -> (r:
    String)
    ensures
        r@ == build_path_of(root_path@, package_name@, is_root) + "/"@ + namespace@ + ".mlmap"@,
{
    let dir = get_build_path(root_path, package_name, is_root);
    join4(dir.as_str(), "/", namespace, ".mlmap")
}

pub fn get_mlmap_compile_path(
    root_path: &str,
    package_name: &str,
    namespace: &str,
    is_root: bool,
) -> (r: String)
    ensures
        r@ == build_path_of(root_path@, package_name@, is_root) + "/"@ + namespace@ + ".cmi"@,
{
    let dir = get_build_path(root_path, package_name, is_root);
    join4(dir.as_str(), "/", namespace, ".cmi")
}

/// Where the parser writes the AST of an implementation: the intermediate build directory,
/// under the file's stem, with no namespace suffix.
pub fn get_ast_path(source_file: &str, package_name: &str, root_path: &str, is_root: bool) -> (r:
    String)
    requires
        has_file_name(source_file@),
    ensures
        r@ == ast_path_of(source_file@, package_name@, root_path@, is_root),
{
    let dir = get_bs_build_path(root_path, package_name, is_root);
    let base = get_basename(source_file);
    join4(dir.as_str(), "/", base.as_str(), ".ast")
}

/// Where the parser writes the AST of an interface.
pub fn get_iast_path(source_file: &str, package_name: &str, root_path: &str, is_root: bool) -> (r:
    String)
    requires
        has_file_name(source_file@),
    ensures
        r@ == iast_path_of(source_file@, package_name@, root_path@, is_root),
{
    let dir = get_bs_build_path(root_path, package_name, is_root);
    let base = get_basename(source_file);
    join4(dir.as_str(), "/", base.as_str(), ".iast")
}

pub open spec fn is_interface_extension(ext: Seq<char>) -> bool {
    ext == "resi"@ || ext == "mli"@ || ext == "rei"@
}

pub open spec fn is_implementation_extension(ext: Seq<char>) -> bool {
    ext == "res"@ || ext == "ml"@ || ext == "re"@
}

pub fn is_interface_file(extension: &str) -> (r: bool)
    ensures
        r == is_interface_extension(extension@),
{
    same_text(extension, "resi") || same_text(extension, "mli") || same_text(extension, "rei")
}

pub fn is_implementation_file(extension: &str) -> (r: bool)
    ensures
        r == is_implementation_extension(extension@),
{
    same_text(extension, "res") || same_text(extension, "ml") || same_text(extension, "re")
}

pub fn is_source_file(extension: &str) -> (r: bool)
    ensures
        r == (is_interface_extension(extension@) || is_implementation_extension(extension@)),
{
    is_interface_file(extension) || is_implementation_file(extension)
}

/// A name that starts with an ASCII capital and goes on with ASCII letters, digits and `_`.
pub open spec fn non_exotic(name: Seq<char>) -> bool {
    &&& name.len() > 0
    &&& is_ascii_upper(name[0])
    &&& forall|i: int| 1 <= i < name.len() ==> is_ascii_alnum(#[trigger] name[i]) || name[i] == '_'
}

pub fn is_non_exotic_module_name(module_name: &str) -> (r: bool)
    requires
        module_name@.len() > 0,
    ensures
        r == non_exotic(module_name@),
{
    let n = module_name.unicode_len();
    let first = module_name.get_char(0);
    if !('A' <= first && first <= 'Z') {
        return false;
    }
    let mut i: usize = 1;
    while i < n
        invariant
            n == module_name@.len(),
            1 <= i <= n,
            forall|j: int|
                1 <= j < i ==> is_ascii_alnum(#[trigger] module_name@[j]) || module_name@[j]
                    == '_',
        decreases n - i,
    {
        let c = module_name.get_char(i);
        if !(('a' <= c && c <= 'z') || ('A' <= c && c <= 'Z') || ('0' <= c && c <= '9') || c
            == '_') {
            return false;
        }
        i = i + 1;
    }
    true
}

/// `Module-Namespace` (or `Module-@Namespace`) written as `Namespace.Module`.
pub open spec fn namespaced_display(module_name: Seq<char>) -> Seq<char> {
    let module = take_until(module_name, '-');
    match after_first(module_name, '-') {
        None => module,
        Some(rest) => trim_leading(take_until(rest, '-'), '@') + "."@ + module,
    }
}

pub fn format_namespaced_module_name(module_name: &str) -> (r: String)
    ensures
        r@ == namespaced_display(module_name@),
{
    let module = prefix_until(module_name, '-');
    match get_namespace_from_module_name(module_name) {
        None => module,
        Some(ns) => {
            let ns = strip_leading(ns.as_str(), '@');
            join3(ns.as_str(), ".", module.as_str())
        },
    }
}

/// Whether the last component of `path` is a file name.
pub fn file_name_present(path: &str) -> (r: bool)
    ensures
        r == has_file_name(path@),
{
    let n = path.unicode_len();
    let start: usize = match find_last(path, '/') {
        None => 0,
        Some(i) => i + 1,
    };
    let ghost name = file_name_of(path@);
    assert(name.len() == n - start);
    let mut i: usize = start;
    while i < n
        invariant
            n == path@.len(),
            start <= i <= n,
            name == path@.subrange(start as int, n as int),
            name == file_name_of(path@),
            forall|j: int| 0 <= j < i - start ==> name[j] == '.',
        decreases n - i,
    {
        if path.get_char(i) != '.' {
            assert(name[i - start] == path@[i as int]);
            assert(file_name_of(path@)[i - start] != '.');
            return true;
        }
        i = i + 1;
    }
    false
}

/// Whether `s` holds the character `c`.
pub fn contains_char(s: &str, c: char) -> (r: bool)
    ensures
        r == s@.contains(c),
{
    match find_first(s, c) {
        Some(i) => {
            assert(s@[i as int] == c);
            true
        },
        None => {
            assert forall|j: int| 0 <= j < s@.len() implies s@[j] != c by {
                lemma_first_index_none(s@, c, 0, j);
            }
            false
        },
    }
}

/// Whether the file name of `path` has an extension.
pub fn path_has_extension(path: &str) -> (r: bool)
    ensures
        r == has_extension(path@),
{
    if !file_name_present(path) {
        return false;
    }
    let n = path.unicode_len();
    let start: usize = match find_last(path, '/') {
        None => 0,
        Some(i) => i + 1,
    };
    let name = path.substring_char(start, n);
    assert(name@ == file_name_of(path@));
    match find_last(name, '.') {
        None => false,
        Some(d) => d > 0,
    }
}

} // verus!
