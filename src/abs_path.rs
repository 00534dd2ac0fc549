use crate::text::{same_text, views};
use vstd::prelude::*;
use vstd::string::*;

verus! {

/// Applies one path component to the components gathered so far: empty components and `.`
/// change nothing, `..` drops the last one (none above the root), any other is appended.
pub open spec fn push_component(acc: Seq<Seq<char>>, seg: Seq<char>) -> Seq<Seq<char>> {
    if seg.len() == 0 || seg == "."@ {
        acc
    } else if seg == ".."@ {
        if acc.len() > 0 {
            acc.drop_last()
        } else {
            acc
        }
    } else {
        acc.push(seg)
    }
}

/// The components gathered, and the one under way, after the first `k` characters of `s`,
/// starting from `base`.
pub open spec fn scan(base: Seq<Seq<char>>, s: Seq<char>, k: int) -> (Seq<Seq<char>>, Seq<char>)
    decreases k,
{
    if k <= 0 {
        (base, Seq::empty())
    } else {
        let (acc, cur) = scan(base, s, k - 1);
        if s[k - 1] == '/' {
            (push_component(acc, cur), Seq::empty())
        } else {
            (acc, cur.push(s[k - 1]))
        }
    }
}

/// The components of `s` applied to `base`.
pub open spec fn components(base: Seq<Seq<char>>, s: Seq<char>) -> Seq<Seq<char>> {
    let (acc, cur) = scan(base, s, s.len() as int);
    push_component(acc, cur)
}

/// Components written as an absolute path.
pub open spec fn absolute_text(segs: Seq<Seq<char>>) -> Seq<char>
    decreases segs.len(),
{
    if segs.len() == 0 {
        Seq::empty()
    } else {
        absolute_text(segs.drop_last()) + "/"@ + segs.last()
    }
}

/// `path` made absolute against `current_dir` (unless it starts with `/`), with `.` and `..`
/// resolved by their text alone.
pub open spec fn lexical_absolute(path: Seq<char>, current_dir: Seq<char>) -> Seq<char> {
    let base = if path.len() > 0 && path[0] == '/' {
        Seq::empty()
    } else {
        components(Seq::empty(), current_dir)
    };
    let segs = components(base, path);
    if segs.len() == 0 {
        "/"@
    } else {
        absolute_text(segs)
    }
}

fn push_component_exec(acc: &mut Vec<String>, seg: String)
    ensures
        views(final(acc)@) == push_component(views(old(acc)@), seg@),
{
    let ghost before = views(acc@);
    if seg.as_str().unicode_len() == 0 || same_text(seg.as_str(), ".") {
    } else if same_text(seg.as_str(), "..") {
        if acc.len() > 0 {
            acc.pop();
            assert(views(acc@) =~= before.drop_last());
        }
    } else {
        acc.push(seg);
        assert(views(acc@) =~= before.push(seg@));
    }
}

fn apply_components(acc: &mut Vec<String>, s: &str)
    ensures
        views(final(acc)@) == components(views(old(acc)@), s@),
{
    let ghost base = views(acc@);
    let n = s.unicode_len();
    let mut start: usize = 0;
    let mut i: usize = 0;
    while i < n
        invariant
            n == s@.len(),
            start <= i <= n,
            scan(base, s@, i as int) == (views(acc@), s@.subrange(start as int, i as int)),
        decreases n - i,
    {
        if s.get_char(i) == '/' {
            let seg = String::from_str(s.substring_char(start, i));
            push_component_exec(acc, seg);
            start = i + 1;
            assert(s@.subrange(start as int, i + 1) =~= Seq::<char>::empty());
        } else {
            assert(s@.subrange(start as int, i + 1) =~= s@.subrange(start as int, i as int).push(
                s@[i as int],
            ));
        }
        i = i + 1;
    }
    let seg = String::from_str(s.substring_char(start, n));
    push_component_exec(acc, seg);
}

/// Writes components as an absolute path.
fn write_absolute(segs: &Vec<String>) -> (r: String)
    ensures
        r@ == absolute_text(views(segs@)),
{
    let mut r = String::new();
    let mut i: usize = 0;
    while i < segs.len()
        invariant
            i <= segs@.len(),
            r@ == absolute_text(views(segs@).take(i as int)),
        decreases segs@.len() - i,
    {
        r.append("/");
        r.append(segs[i].as_str());
        assert(views(segs@).take(i + 1).drop_last() =~= views(segs@).take(i as int));
        i = i + 1;
    }
    assert(views(segs@).take(segs@.len() as int) =~= views(segs@));
    r
}

/// `path` as an absolute path: relative to `current_dir` unless it starts with `/`, with `.`
/// and `..` resolved by their text alone, without looking at the file system.
pub fn get_abs_path(path: &str, current_dir: &str) -> (r: String)
    ensures
        r@ == lexical_absolute(path@, current_dir@),
{
    let mut segs: Vec<String> = Vec::new();
    assert(views(segs@) =~= Seq::<Seq<char>>::empty());
    let absolute = path.unicode_len() > 0 && path.get_char(0) == '/';
    if !absolute {
        apply_components(&mut segs, current_dir);
    }
    apply_components(&mut segs, path);
    if segs.len() == 0 {
        String::from_str("/")
    } else {
        write_absolute(&segs)
    }
}

} // verus!
