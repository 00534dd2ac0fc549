use vstd::prelude::*;
use vstd::string::*;

verus! {

/// Index of the last `c` among the first `k` characters of `s`, or -1.
pub open spec fn last_index_in(s: Seq<char>, c: char, k: nat) -> int
    decreases k,
{
    if k == 0 {
        -1
    } else if s[k - 1] == c {
        k - 1
    } else {
        last_index_in(s, c, (k - 1) as nat)
    }
}

/// Index of the last `c` in `s`, or -1.
pub open spec fn last_index(s: Seq<char>, c: char) -> int {
    last_index_in(s, c, s.len())
}

/// Index of the first `c` in `s` at or after `k`, or -1.
pub open spec fn first_index_from(s: Seq<char>, c: char, k: nat) -> int
    decreases s.len() - k,
{
    if k >= s.len() {
        -1
    } else if s[k as int] == c {
        k as int
    } else {
        first_index_from(s, c, k + 1)
    }
}

/// Index of the first `c` in `s`, or -1.
pub open spec fn first_index(s: Seq<char>, c: char) -> int {
    first_index_from(s, c, 0)
}

/// The characters of `s` before its first `c` (all of `s` when it holds none).
pub open spec fn take_until(s: Seq<char>, c: char) -> Seq<char> {
    let i = first_index(s, c);
    if i < 0 {
        s
    } else {
        s.subrange(0, i)
    }
}

/// The characters of `s` after its first `c`, if it holds one.
pub open spec fn after_first(s: Seq<char>, c: char) -> Option<Seq<char>> {
    let i = first_index(s, c);
    if i < 0 {
        None
    } else {
        Some(s.subrange(i + 1, s.len() as int))
    }
}

/// Index of the first character of `s` at or after `k` that is not `c`.
pub open spec fn skip_from(s: Seq<char>, c: char, k: nat) -> nat
    decreases s.len() - k,
{
    if k >= s.len() {
        s.len()
    } else if s[k as int] == c {
        skip_from(s, c, k + 1)
    } else {
        k
    }
}

/// `s` without the run of `c` it starts with.
pub open spec fn trim_leading(s: Seq<char>, c: char) -> Seq<char> {
    s.subrange(skip_from(s, c, 0) as int, s.len() as int)
}

pub open spec fn is_ascii_upper(c: char) -> bool {
    'A' <= c && c <= 'Z'
}

pub open spec fn is_ascii_alnum(c: char) -> bool {
    ('a' <= c && c <= 'z') || ('A' <= c && c <= 'Z') || ('0' <= c && c <= '9')
}

/// No `c` at or after `k` when the search from `k` finds none.
pub proof fn lemma_first_index_none(s: Seq<char>, c: char, k: nat, j: int)
    requires
        first_index_from(s, c, k) == -1,
        k <= j < s.len(),
    ensures
        s[j] != c,
    decreases j - k,
{
    if k < j {
        lemma_first_index_none(s, c, k + 1, j);
    }
}

/// The characters of each string of a list.
pub open spec fn views(v: Seq<String>) -> Seq<Seq<char>> {
    v.map_values(|s: String| s@)
}

/// Joins two strings.
pub fn join2(a: &str, b: &str) -> (r: String)
    ensures
        r@ == a@ + b@,
{
    let s = String::from_str(a);
    s.concat(b)
}

/// Joins three strings.
pub fn join3(a: &str, b: &str, c: &str) -> (r: String)
    ensures
        r@ == a@ + b@ + c@,
{
    let s = String::from_str(a);
    let s = s.concat(b);
    s.concat(c)
}

/// Joins four strings.
pub fn join4(a: &str, b: &str, c: &str, d: &str) -> (r: String)
    ensures
        r@ == a@ + b@ + c@ + d@,
{
    let s = String::from_str(a);
    let s = s.concat(b);
    let s = s.concat(c);
    s.concat(d)
}

/// The characters of `s` from `from` up to `to`, as a new string.
pub fn slice(s: &str, from: usize, to: usize) -> (r: String)
    requires
        from <= to <= s@.len(),
    ensures
        r@ == s@.subrange(from as int, to as int),
{
    String::from_str(s.substring_char(from, to))
}

/// Whether two strings hold the same characters.
pub fn same_text(a: &str, b: &str) -> (r: bool)
    ensures
        r == (a@ == b@),
{
    let n = a.unicode_len();
    let m = b.unicode_len();
    if n != m {
        return false;
    }
    let mut i: usize = 0;
    while i < n
        invariant
            n == a@.len(),
            m == b@.len(),
            n == m,
            i <= n,
            a@.subrange(0, i as int) == b@.subrange(0, i as int),
        decreases n - i,
    {
        if a.get_char(i) != b.get_char(i) {
            assert(a@[i as int] != b@[i as int]);
            return false;
        }
        assert(a@.subrange(0, i + 1) == a@.subrange(0, i as int).push(a@[i as int]));
        assert(b@.subrange(0, i + 1) == b@.subrange(0, i as int).push(b@[i as int]));
        i = i + 1;
    }
    assert(a@ == a@.subrange(0, n as int));
    assert(b@ == b@.subrange(0, n as int));
    true
}

/// Whether `s` ends with `suffix`.
pub fn ends_with_text(s: &str, suffix: &str) -> (r: bool)
    ensures
        r == (suffix@.len() <= s@.len() && s@.subrange(
            s@.len() - suffix@.len(),
            s@.len() as int,
        ) == suffix@),
{
    let n = s.unicode_len();
    let m = suffix.unicode_len();
    if m > n {
        return false;
    }
    let tail = s.substring_char(n - m, n);
    same_text(tail, suffix)
}

/// Position of the last `c` in `s`.
pub fn find_last(s: &str, c: char) -> (r: Option<usize>)
    ensures
        r matches None ==> last_index(s@, c) == -1,
        r matches Some(i) ==> i == last_index(s@, c) && i < s@.len(),
{
    let n = s.unicode_len();
    let mut i: usize = n;
    while i > 0
        invariant
            n == s@.len(),
            i <= n,
            last_index(s@, c) == last_index_in(s@, c, i as nat),
        decreases i,
    {
        if s.get_char(i - 1) == c {
            return Some(i - 1);
        }
        i = i - 1;
    }
    None
}

/// Position of the first `c` in `s`.
pub fn find_first(s: &str, c: char) -> (r: Option<usize>)
    ensures
        r matches None ==> first_index(s@, c) == -1,
        r matches Some(i) ==> i == first_index(s@, c) && i < s@.len() && s@[i as int] == c,
{
    let n = s.unicode_len();
    let mut i: usize = 0;
    while i < n
        invariant
            n == s@.len(),
            i <= n,
            first_index(s@, c) == first_index_from(s@, c, i as nat),
        decreases n - i,
    {
        if s.get_char(i) == c {
            return Some(i);
        }
        i = i + 1;
    }
    None
}

/// The characters of `s` before its first `c`.
pub fn prefix_until(s: &str, c: char) -> (r: String)
    ensures
        r@ == take_until(s@, c),
{
    match find_first(s, c) {
        None => String::from_str(s),
        Some(i) => slice(s, 0, i),
    }
}

/// The characters of `s` after its first `c`, if it holds one.
pub fn suffix_after(s: &str, c: char) -> (r: Option<String>)
    ensures
        r matches None ==> after_first(s@, c) is None,
        r matches Some(t) ==> after_first(s@, c) == Some(t@),
{
    let n = s.unicode_len();
    match find_first(s, c) {
        None => None,
        Some(i) => Some(slice(s, i + 1, n)),
    }
}

/// `s` without the run of `c` it starts with.
pub fn strip_leading(s: &str, c: char) -> (r: String)
    ensures
        r@ == trim_leading(s@, c),
{
    let n = s.unicode_len();
    let mut i: usize = 0;
    while i < n && s.get_char(i) == c
        invariant
            n == s@.len(),
            i <= n,
            skip_from(s@, c, 0) == skip_from(s@, c, i as nat),
        decreases n - i,
    {
        i = i + 1;
    }
    slice(s, i, n)
}

/// Whether `s` holds an ASCII letter or digit.
pub fn has_ascii_alnum(s: &str) -> (r: bool)
    ensures
        r == exists|i: int| 0 <= i < s@.len() && is_ascii_alnum(#[trigger] s@[i]),
{
    let n = s.unicode_len();
    let mut i: usize = 0;
    while i < n
        invariant
            n == s@.len(),
            i <= n,
            forall|j: int| 0 <= j < i ==> !is_ascii_alnum(#[trigger] s@[j]),
        decreases n - i,
    {
        let ch = s.get_char(i);
        if ('a' <= ch && ch <= 'z') || ('A' <= ch && ch <= 'Z') || ('0' <= ch && ch <= '9') {
            return true;
        }
        i = i + 1;
    }
    false
}

/// `s` holds `t` as a run of consecutive characters.
pub open spec fn holds_text(s: Seq<char>, t: Seq<char>) -> bool {
    exists|i: int| 0 <= i && i + t.len() <= s.len() && #[trigger] s.subrange(i, i + t.len()) == t
}

/// Whether `s` holds `t` as a run of consecutive characters.
pub fn contains_text(s: &str, t: &str) -> (r: bool)
    ensures
        r == holds_text(s@, t@),
{
    let n = s.unicode_len();
    let m = t.unicode_len();
    if m > n {
        assert forall|i: int| 0 <= i && i + t@.len() <= s@.len() implies #[trigger] s@.subrange(
            i,
            i + t@.len(),
        ) != t@ by {}
        return false;
    }
    if m == 0 {
        assert(s@.subrange(0, 0 + t@.len() as int) =~= t@);
        return true;
    }
    let mut i: usize = 0;
    while i <= n - m
        invariant
            n == s@.len(),
            m == t@.len(),
            1 <= m <= n,
            i <= n - m + 1,
            forall|j: int| 0 <= j < i ==> #[trigger] s@.subrange(j, j + m) != t@,
        decreases n - m + 1 - i,
    {
        if same_text(s.substring_char(i, i + m), t) {
            return true;
        }
        i = i + 1;
    }
    false
}

} // verus!
