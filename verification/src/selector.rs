//! Scenario paths: names joined by `/`, from a top-level scenario down to a
//! nested one.
use vstd::prelude::*;

use crate::text::{has_prefix, starts_with, str_eq};

verus! {

/// The path of the child `child` of the scenario at `parent`.
pub open spec fn child_path(parent: Seq<char>, child: Seq<char>) -> Seq<char> {
    parent + seq!['/'] + child
}

/// The path of a child scenario.
pub fn path_with_child(parent: &str, child: &str) -> (r: String)
    ensures
        r@ == child_path(parent@, child@),
{
    let mut r = String::new();
    r.append(parent);
    r.append("/");
    r.append(child);
    proof {
        reveal_strlit("/");
        assert(r@ =~= child_path(parent@, child@));
    }
    r
}

/// Whether `candidate` is `path` or lies below it.
pub open spec fn same_or_below(candidate: Seq<char>, path: Seq<char>) -> bool {
    candidate == path || (candidate.len() > path.len() && has_prefix(candidate, path)
        && candidate[path.len() as int] == '/')
}

/// Whether `candidate_path` is `path` or a scenario nested below it.
pub fn is_same_or_descendant(candidate_path: &str, path: &str) -> (r: bool)
    ensures
        r == same_or_below(candidate_path@, path@),
{
    if str_eq(candidate_path, path) {
        return true;
    }
    let n = path.unicode_len();
    if candidate_path.unicode_len() <= n {
        return false;
    }
    starts_with(candidate_path, path) && candidate_path.get_char(n) == '/'
}

/// The `/`-separated segments of `s`, in order.
pub open spec fn segments(s: Seq<char>) -> Seq<Seq<char>>
    decreases s.len(),
{
    match s.index_of_first('/') {
        Some(k) => if 0 <= k < s.len() {
            seq![s.take(k)] + segments(s.skip(k + 1))
        } else {
            seq![s]
        },
        None => seq![s],
    }
}

/// The `/`-separated segments of `s`, in order.
pub fn split_segments(s: &str) -> (r: Vec<String>)
    ensures
        r@.map_values(|x: String| x@) == segments(s@),
{
    let n = s.unicode_len();
    let mut out: Vec<String> = Vec::new();
    let mut start: usize = 0;
    let mut i: usize = 0;
    proof {
        assert(s@.skip(0) =~= s@);
        assert(out@.map_values(|x: String| x@) + segments(s@.skip(0)) =~= segments(s@));
    }
    while i < n
        invariant
            n == s@.len(),
            start <= i <= n,
            forall|j: int| start <= j < i ==> s@[j] != '/',
            out@.map_values(|x: String| x@) + segments(s@.skip(start as int)) == segments(s@),
        decreases n - i,
    {
        if s.get_char(i) == '/' {
            let piece = crate::text::slice_chars(s, start, i);
            proof {
                let rest = s@.skip(start as int);
                let k = (i - start) as int;
                rest.index_of_first_ensures('/');
                assert(rest[k] == '/');
                assert forall|j: int| 0 <= j < k implies rest[j] != '/' by {
                    assert(rest[j] == s@[start + j]);
                }
                assert(rest.index_of_first('/') == Some(k)) by {
                    assert(rest.contains('/'));
                    let f = rest.index_of_first('/').unwrap();
                    assert(rest[f] == '/');
                    assert(!(f < k));
                    assert(!(f > k));
                }
                assert(rest.take(k) =~= piece@);
                assert(rest.skip(k + 1) =~= s@.skip(i + 1));
                assert(segments(rest) == seq![rest.take(k)] + segments(rest.skip(k + 1)));
            }
            let ghost before = out@.map_values(|x: String| x@);
            out.push(piece);
            proof {
                assert(out@.map_values(|x: String| x@) =~= before.push(s@.skip(start as int).take(
                    (i - start) as int,
                )));
                assert(out@.map_values(|x: String| x@) + segments(s@.skip(i + 1)) =~= before + (seq![
                    s@.skip(start as int).take((i - start) as int),
                ] + segments(s@.skip(i + 1))));
            }
            start = i + 1;
        }
        i = i + 1;
    }
    let last = crate::text::slice_chars(s, start, n);
    proof {
        let rest = s@.skip(start as int);
        rest.index_of_first_ensures('/');
        assert(!rest.contains('/')) by {
            if rest.contains('/') {
                let f = choose|f: int| 0 <= f < rest.len() && rest[f] == '/';
                assert(rest[f] == s@[start + f]);
            }
        }
        assert(rest =~= last@);
        assert(segments(rest) == seq![rest]);
    }
    let ghost before = out@.map_values(|x: String| x@);
    out.push(last);
    proof {
        assert(out@.map_values(|x: String| x@) =~= before + seq![last@]);
    }
    out
}

/// Whether a scenario selector names a path: nonempty segments only.
pub open spec fn selector_ok(s: Seq<char>) -> bool {
    forall|i: int| 0 <= i < segments(s).len() ==> (#[trigger] segments(s)[i]).len() > 0
}


/// A scenario at or below a child is below the child's parent.
pub proof fn lemma_below_child(q: Seq<char>, parent: Seq<char>, child: Seq<char>)
    requires
        same_or_below(q, child_path(parent, child)),
    ensures
        same_or_below(q, parent),
        q != parent,
{
    let c = child_path(parent, child);
    assert(c.len() > parent.len());
    assert(c[parent.len() as int] == '/');
    assert(c.subrange(0, parent.len() as int) =~= parent);
    if q != c {
        assert(q.subrange(0, c.len() as int) == c);
        assert(q[parent.len() as int] == q.subrange(0, c.len() as int)[parent.len() as int]);
        assert(q.subrange(0, parent.len() as int) =~= c.subrange(0, parent.len() as int));
    }
}

} // verus!
