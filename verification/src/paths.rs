use vstd::prelude::*;

use crate::strutil::{is_prefix_of, starts_with, substring, append_str};

verus! {

/// The path of `path` relative to `base`, when `path` lies at or below
/// `base`: the empty path when the two are equal, and the remainder after
/// `base` and a separator otherwise.
pub open spec fn spec_rel_path(base: Seq<char>, path: Seq<char>) -> Option<Seq<char>> {
    if path == base {
        Some(Seq::<char>::empty())
    } else if base.len() < path.len() && is_prefix_of(base, path) && path[base.len() as int]
        == '/' {
        Some(path.skip(base.len() as int + 1))
    } else {
        None
    }
}

/// Strips `base` and the following separator from the front of `path`.
pub fn rel_path(base: &str, path: &str) -> (r: Option<String>)
    ensures
        r matches Some(s) ==> spec_rel_path(base@, path@) == Some(s@),
        r is None ==> spec_rel_path(base@, path@) is None,
{
    let nb: usize = base.unicode_len();
    let np: usize = path.unicode_len();
    if nb == np {
        if starts_with(path, base) {
            proof {
                assert(path@.subrange(0, nb as int) =~= path@);
            }
            Some(String::new())
        } else {
            proof {
                assert(path@ != base@) by {
                    if path@ == base@ {
                        assert(path@.subrange(0, nb as int) =~= base@);
                    }
                }
            }
            None
        }
    } else if nb < np && starts_with(path, base) && path.get_char(nb) == '/' {
        proof {
            assert(path@ != base@);
        }
        Some(substring(path, nb + 1, np))
    } else {
        proof {
            if path@ == base@ {
                assert(path@.len() == base@.len());
            }
        }
        None
    }
}

/// True when `pre` names `path` itself or a directory above it: the two are
/// equal, or `path` continues after `pre` with a separator.
pub open spec fn spec_is_path_prefix(pre: Seq<char>, path: Seq<char>) -> bool {
    pre == path || (pre.len() < path.len() && is_prefix_of(pre, path) && path[pre.len() as int]
        == '/')
}

/// Component-wise prefix test for relative paths.
pub fn is_path_prefix(pre: &str, path: &str) -> (r: bool)
    ensures
        r == spec_is_path_prefix(pre@, path@),
{
    let nb: usize = pre.unicode_len();
    let np: usize = path.unicode_len();
    if nb == np {
        let r = starts_with(path, pre);
        proof {
            if r {
                assert(path@.subrange(0, nb as int) =~= path@);
            } else if pre@ == path@ {
                assert(path@.subrange(0, nb as int) =~= pre@);
            }
        }
        r
    } else if nb < np {
        let r = starts_with(path, pre) && path.get_char(nb) == '/';
        proof {
            if pre@ == path@ {
                assert(pre@.len() == path@.len());
            }
        }
        r
    } else {
        proof {
            if pre@ == path@ {
                assert(pre@.len() == path@.len());
            }
        }
        false
    }
}

/// A path strictly below `base` is `base`, a separator, and the relative
/// remainder.
pub proof fn lemma_rel_path_decompose(base: Seq<char>, p: Seq<char>)
    requires
        spec_rel_path(base, p) matches Some(r) && r.len() > 0,
    ensures
        p =~= base + seq!['/'] + (spec_rel_path(base, p)->Some_0),
{
    let r = spec_rel_path(base, p)->Some_0;
    assert(p.subrange(0, base.len() as int) == base);
    assert forall|m: int| 0 <= m < p.len() implies p[m] == (base + seq!['/'] + r)[m] by {
        if m < base.len() {
            assert(p.subrange(0, base.len() as int)[m] == p[m]);
        } else if m > base.len() {
            assert(r[m - base.len() - 1] == p[m]);
        }
    }
}

/// Relative paths compose: a path at or below `b`, itself strictly below
/// `a`, lies below `a`, and its path relative to `a` begins with `b`'s.
pub proof fn lemma_rel_path_trans(a: Seq<char>, b: Seq<char>, p: Seq<char>)
    requires
        spec_rel_path(a, b) matches Some(r) && r.len() > 0,
        spec_rel_path(b, p) is Some,
    ensures
        spec_rel_path(a, p) matches Some(ra) && spec_is_path_prefix(
            spec_rel_path(a, b)->Some_0,
            ra,
        ),
{
    let r = spec_rel_path(a, b)->Some_0;
    let q = spec_rel_path(b, p)->Some_0;
    lemma_rel_path_decompose(a, b);
    if p == b {
        assert(spec_rel_path(a, p) == Some(r));
    } else {
        assert(p =~= b + seq!['/'] + q) by {
            assert(p.subrange(0, b.len() as int) == b);
            assert forall|m: int| 0 <= m < p.len() implies p[m] == (b + seq!['/'] + q)[m] by {
                if m < b.len() {
                    assert(p.subrange(0, b.len() as int)[m] == p[m]);
                } else if m > b.len() {
                    assert(q[m - b.len() - 1] == p[m]);
                }
            }
        }
        assert(p =~= a + seq!['/'] + r + seq!['/'] + q);
        assert(is_prefix_of(a, p)) by {
            assert(p.subrange(0, a.len() as int) =~= a);
        }
        assert(p[a.len() as int] == '/');
        assert(p != a);
        let ra = spec_rel_path(a, p)->Some_0;
        assert(ra =~= r + seq!['/'] + q);
        assert(is_prefix_of(r, ra)) by {
            assert(ra.subrange(0, r.len() as int) =~= r);
        }
        assert(ra[r.len() as int] == '/');
    }
}

/// The absolute path of the file at `rel` under the directory `base`:
/// `base` itself for the empty relative path, and `base`, a separator and
/// `rel` otherwise.
pub open spec fn spec_join(base: Seq<char>, rel: Seq<char>) -> Seq<char> {
    if rel.len() == 0 {
        base
    } else {
        base + seq!['/'] + rel
    }
}

/// Joins a root path and a root-relative path into an absolute path.
pub fn join_path(base: &str, rel: &str) -> (r: String)
    ensures
        r@ == spec_join(base@, rel@),
{
    let mut out = base.to_owned();
    if rel.unicode_len() == 0 {
        return out;
    }
    append_str(&mut out, "/");
    append_str(&mut out, rel);
    proof {
        reveal_strlit("/");
        assert(out@ =~= base@ + seq!['/'] + rel@);
    }
    out
}

} // verus!
