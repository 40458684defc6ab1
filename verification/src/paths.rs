//! `/`-separated file paths held as text.
use vstd::prelude::*;

verus! {

/// `name` resolved against `base`: an absolute `name` stands alone,
/// otherwise the two are joined by one separator.
pub open spec fn joined(base: Seq<char>, name: Seq<char>) -> Seq<char> {
    if name.len() > 0 && name[0] == '/' {
        name
    } else if base.len() == 0 {
        name
    } else if base.last() == '/' {
        base + name
    } else {
        base + seq!['/'] + name
    }
}

/// `s` without trailing separators, keeping a lone root separator.
pub open spec fn trim_separators(s: Seq<char>) -> Seq<char>
    decreases s.len(),
{
    if s.len() > 1 && s.last() == '/' {
        trim_separators(s.drop_last())
    } else {
        s
    }
}

/// The path without its final component; none for an empty path or the root.
pub open spec fn parent_of(p: Seq<char>) -> Option<Seq<char>> {
    let t = trim_separators(p);
    if t.len() == 0 || t == seq!['/'] {
        None
    } else {
        match t.index_of_last('/') {
            None => Some(seq![]),
            Some(k) => if k == 0 {
                Some(seq!['/'])
            } else {
                Some(trim_separators(t.subrange(0, k)))
            },
        }
    }
}

/// The parent of `p`, or `.` when it has none.
pub open spec fn parent_or_current(p: Seq<char>) -> Seq<char> {
    match parent_of(p) {
        Some(q) => q,
        None => seq!['.'],
    }
}

/// Joins `name` to `base` with a separator.
pub fn join(base: &str, name: &str) -> (r: String)
    ensures
        r@ == joined(base@, name@),
{
    let n = name.unicode_len();
    if n > 0 && name.get_char(0) == '/' {
        return crate::text::owned(name);
    }
    let b = base.unicode_len();
    if b == 0 {
        return crate::text::owned(name);
    }
    let mut r = crate::text::owned(base);
    if base.get_char(b - 1) != '/' {
        r.append("/");
        proof {
            reveal_strlit("/");
        }
    }
    r.append(name);
    r
}

fn trim_length(s: &str) -> (n: usize)
    ensures
        n <= s@.len(),
        s@.subrange(0, n as int) == trim_separators(s@),
{
    let mut n = s.unicode_len();
    assert(s@.subrange(0, n as int) =~= s@);
    while n > 1 && s.get_char(n - 1) == '/'
        invariant
            n <= s@.len(),
            trim_separators(s@.subrange(0, n as int)) == trim_separators(s@),
        decreases n,
    {
        assert(s@.subrange(0, n as int).drop_last() =~= s@.subrange(0, n - 1));
        n = n - 1;
    }
    n
}

/// The parent of `p`, if it has one.
pub fn parent(p: &str) -> (r: Option<String>)
    ensures
        opt_seq(r) == parent_of(p@),
{
    let n = trim_length(p);
    let t = p.substring_char(0, n);
    if n == 0 || (n == 1 && t.get_char(0) == '/') {
        assert(n == 1 ==> t@ =~= seq!['/'] || t@[0] != '/');
        return None;
    }
    assert(t@ != seq!['/']);
    let mut k = n;
    while k > 0 && t.get_char(k - 1) != '/'
        invariant
            k <= n,
            n == t@.len(),
            forall|j: int| k <= j < n ==> t@[j] != '/',
        decreases k,
    {
        k = k - 1;
    }
    proof {
        t@.index_of_last_ensures('/');
    }
    if k == 0 {
        assert(!t@.contains('/'));
        return Some(String::new());
    }
    let slash = k - 1;
    assert(t@.index_of_last('/') == Some(slash as int)) by {
        assert(t@.contains('/')) by { assert(t@[slash as int] == '/'); }
        let other = t@.index_of_last('/').unwrap();
        assert(!(other > slash));
        assert(!(other < slash));
    }
    if slash == 0 {
        let mut root = String::new();
        root.append("/");
        proof {
            reveal_strlit("/");
            assert(root@ =~= seq!['/']);
        }
        return Some(root);
    }
    let prefix = t.substring_char(0, slash);
    let m = trim_length(prefix);
    Some(crate::text::slice_chars(prefix, 0, m))
}

pub open spec fn opt_seq(s: Option<String>) -> Option<Seq<char>> {
    match s {
        Some(s) => Some(s@),
        None => None,
    }
}

/// The parent of `p`, or `.` when it has none.
pub fn parent_or_dot(p: &str) -> (r: String)
    ensures
        r@ == parent_or_current(p@),
{
    match parent(p) {
        Some(q) => q,
        None => {
            let mut r = String::new();
            r.append(".");
            proof {
                reveal_strlit(".");
                assert(r@ =~= seq!['.']);
            }
            r
        },
    }
}

} // verus!
