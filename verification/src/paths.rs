//! Unix path helpers: the last component of a path (as `Path::file_name`
//! finds it) and joining a relative path onto a directory.

use vstd::prelude::*;

use crate::text::{chars_of, push_chars, push_str, string_from};

verus! {

/// Where the last segment of `p` starts: just after its last `/`, or 0.
pub open spec fn segment_start(p: Seq<char>) -> nat
    decreases p.len(),
{
    if p.len() == 0 {
        0
    } else if p.last() == '/' {
        p.len()
    } else {
        segment_start(p.drop_last())
    }
}

/// The last component of the Unix path `p` (`Path::file_name`): trailing
/// slashes and `.` components are skipped; none when the path is empty, is
/// only a root, or ends in `..`.
pub open spec fn file_name_of(p: Seq<char>) -> Option<Seq<char>>
    decreases p.len(),
{
    if p.len() == 0 {
        None
    } else if p.last() == '/' {
        file_name_of(p.drop_last())
    } else {
        let k = segment_start(p);
        let seg = p.subrange(k as int, p.len() as int);
        if k >= p.len() {
            None
        } else if seg == seq!['.'] {
            file_name_of(p.subrange(0, k as int))
        } else if seg == seq!['.', '.'] {
            None
        } else {
            Some(seg)
        }
    }
}

proof fn lemma_segment_start(p: Seq<char>)
    ensures
        segment_start(p) <= p.len(),
        p.len() > 0 && p.last() != '/' ==> segment_start(p) < p.len(),
        forall|j: int| segment_start(p) <= j < p.len() ==> #[trigger] p[j] != '/',
        segment_start(p) > 0 ==> p[segment_start(p) - 1] == '/',
    decreases p.len(),
{
    if p.len() > 0 && p.last() != '/' {
        let q = p.drop_last();
        lemma_segment_start(q);
        assert forall|j: int| segment_start(p) <= j < p.len() implies #[trigger] p[j] != '/' by {
            if j < q.len() {
                assert(p[j] == q[j]);
            }
        }
        if segment_start(p) > 0 {
            assert(p[segment_start(p) - 1] == q[segment_start(q) - 1]);
        }
    }
}

proof fn lemma_segment_start_exact(p: Seq<char>, k: int)
    requires
        0 <= k <= p.len(),
        forall|j: int| k <= j < p.len() ==> #[trigger] p[j] != '/',
        k > 0 ==> p[k - 1] == '/',
    ensures
        segment_start(p) == k,
    decreases p.len(),
{
    if p.len() > 0 && p.last() != '/' {
        let q = p.drop_last();
        assert forall|j: int| k <= j < q.len() implies #[trigger] q[j] != '/' by {
            assert(q[j] == p[j]);
        }
        if k > 0 {
            assert(q[k - 1] == p[k - 1]);
        }
        lemma_segment_start_exact(q, k);
    }
}

/// The bounds of the last component of `v[0..hi]`, if there is one.
pub fn file_name_bounds(v: &[char], hi: usize) -> (r: Option<(usize, usize)>)
    requires
        hi <= v@.len(),
    ensures
        match r {
            Some((a, b)) => a <= b <= hi && file_name_of(v@.subrange(0, hi as int)) == Some(
                v@.subrange(a as int, b as int),
            ),
            None => file_name_of(v@.subrange(0, hi as int)) is None,
        },
    decreases hi,
{
    let ghost p = v@.subrange(0, hi as int);
    if hi == 0 {
        return None;
    }
    if v[hi - 1] == '/' {
        assert(p.drop_last() =~= v@.subrange(0, hi - 1));
        return file_name_bounds(v, hi - 1);
    }
    let mut k = hi;
    while k > 0 && v[k - 1] != '/'
        invariant
            k <= hi <= v@.len(),
            forall|j: int| k <= j < hi ==> #[trigger] v@[j] != '/',
        decreases k,
    {
        k -= 1;
    }
    proof {
        assert forall|j: int| k <= j < p.len() implies #[trigger] p[j] != '/' by {
            assert(p[j] == v@[j]);
        }
        if k > 0 {
            assert(p[k - 1] == v@[k - 1]);
        }
        assert(p.last() == v@[hi - 1]);
        lemma_segment_start_exact(p, k as int);
        assert(p.subrange(k as int, p.len() as int) =~= v@.subrange(k as int, hi as int));
    }
    if k == hi {
        return None;
    }
    let len = hi - k;
    if len == 1 && v[k] == '.' {
        proof {
            assert(v@.subrange(k as int, hi as int) =~= seq!['.']);
            assert(p.subrange(0, k as int) =~= v@.subrange(0, k as int));
        }
        return file_name_bounds(v, k);
    }
    if len == 2 && v[k] == '.' && v[k + 1] == '.' {
        assert(v@.subrange(k as int, hi as int) =~= seq!['.', '.']);
        return None;
    }
    proof {
        let seg = v@.subrange(k as int, hi as int);
        if seg == seq!['.'] {
            assert(seg[0] == v@[k as int]);
        }
        if seg == seq!['.', '.'] {
            assert(seg[0] == v@[k as int]);
            assert(seg[1] == v@[k + 1]);
        }
    }
    Some((k, hi))
}

/// The last component of the path `path`, if it has one.
pub fn file_name(path: &str) -> (r: Option<String>)
    ensures
        match r {
            Some(s) => file_name_of(path@) == Some(s@),
            None => file_name_of(path@) is None,
        },
{
    let v = chars_of(path);
    assert(v@.subrange(0, v@.len() as int) =~= v@);
    match file_name_bounds(v.as_slice(), v.len()) {
        Some((a, b)) => Some(string_from(v.as_slice(), a, b)),
        None => None,
    }
}

/// `base` joined with the relative path `rel` (`Path::join`): a `/` goes
/// between them unless `base` is empty or already ends in `/`.
pub open spec fn join_rel(base: Seq<char>, rel: Seq<char>) -> Seq<char> {
    if base.len() == 0 || base.last() == '/' {
        base + rel
    } else {
        base + seq!['/'] + rel
    }
}

/// Joins the relative path `rel` onto `base`.
pub fn join_path(base: &str, rel: &str) -> (r: String)
    ensures
        r@ == join_rel(base@, rel@),
{
    let b = chars_of(base);
    let mut r = String::new();
    push_chars(&mut r, b.as_slice(), 0, b.len());
    assert(b@.subrange(0, b@.len() as int) =~= b@);
    if b.len() > 0 && b[b.len() - 1] != '/' {
        push_str(&mut r, "/");
        proof {
            reveal_strlit("/");
        }
        assert("/"@ =~= seq!['/']);
    }
    push_str(&mut r, rel);
    r
}

} // verus!
