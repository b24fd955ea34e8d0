use vstd::prelude::*;

use crate::filter::Filter;
use crate::paths::{
    is_path_prefix, join_path, rel_path, spec_is_path_prefix, spec_join, spec_rel_path,
};
use crate::strutil::substring;

verus! {

/// Identifies a watched directory on the file system.
#[derive(Debug, Clone, Copy, PartialEq, Eq, Hash, Structural)]
pub struct VfsRoot(pub u32);

/// What kind of directory entry a path names.
#[derive(Debug, Clone, Copy, PartialEq, Eq, Structural)]
pub enum FileType {
    File,
    Dir,
}

impl FileType {
    pub fn is_dir(&self) -> (r: bool)
        ensures
            r == (*self is Dir),
    {
        *self == FileType::Dir
    }
}

/// A root directory to watch, together with the filter that decides which
/// of its entries belong to it.
///
/// The caller may also hand in the canonical form of the path (the result
/// of resolving symbolic links), so that events delivered against the
/// resolved path still find the root; this library never touches the disk
/// itself.
pub struct RootEntry<F> {
    pub path: String,
    pub canonical: Option<String>,
    pub filter: F,
}

impl<F: Filter> RootEntry<F> {
    /// A root entry whose configured path needs no canonical companion.
    pub fn new(path: String, filter: F) -> (r: Self)
        ensures
            r.path == path,
            r.canonical is None,
            r.filter == filter,
    {
        RootEntry { path, canonical: None, filter }
    }

    /// A root entry with the canonical form of its path, as some outside
    /// resolver computed it.
    pub fn with_canonical(path: String, canonical: String, filter: F) -> (r: Self)
        ensures
            r.path == path,
            r.canonical == Some(canonical),
            r.filter == filter,
    {
        RootEntry { path, canonical: Some(canonical), filter }
    }
}

/// The stored form of one root: its path, its filter, the canonical path
/// when it differs from the configured one, and the root-relative paths of
/// the more specific roots nested inside it.
pub struct RootData<F> {
    pub path: String,
    pub filter: F,
    pub canonical_path: Option<String>,
    pub excluded_dirs: Vec<String>,
}

impl<F: Filter> RootData<F> {
    /// True when `rel` lies at or below one of the nested-root exclusions.
    pub open spec fn spec_excluded(&self, rel: Seq<char>) -> bool {
        exists|k: int|
            0 <= k < self.excluded_dirs@.len() && spec_is_path_prefix(
                #[trigger] self.excluded_dirs@[k]@,
                rel,
            )
    }

    /// Every directory above `rel` passes the filter, the root itself
    /// included.
    pub open spec fn spec_ancestors_ok(&self, rel: Seq<char>) -> bool {
        &&& self.filter.spec_include_dir(Seq::<char>::empty())
        &&& forall|j: int|
            0 <= j < rel.len() && rel[j] == '/' ==> self.filter.spec_include_dir(
                #[trigger] rel.subrange(0, j),
            )
    }

    /// True when this root owns the entry at the non-empty relative path
    /// `rel`: it is not claimed by a nested root, no directory above it is
    /// filtered out, and the filter accepts it as a file or as a directory.
    pub open spec fn spec_is_included(&self, rel: Seq<char>, expected: FileType) -> bool {
        &&& !self.spec_excluded(rel)
        &&& self.spec_ancestors_ok(rel)
        &&& match expected {
            FileType::File => self.filter.spec_include_file(rel),
            FileType::Dir => self.filter.spec_include_dir(rel),
        }
    }

    /// The relative path this root assigns to the absolute `path` when
    /// measured against `base`: the empty path for the root itself, and an
    /// included relative path otherwise.
    pub open spec fn spec_accept(&self, base: Seq<char>, path: Seq<char>, expected: FileType) -> Option<
        Seq<char>,
    > {
        match spec_rel_path(base, path) {
            Some(rel) => if rel.len() == 0 {
                Some(rel)
            } else if self.spec_is_included(rel, expected) {
                Some(rel)
            } else {
                None
            },
            None => None,
        }
    }

    /// The relative path of `path` in this root, trying the configured
    /// path first and the canonical path second.
    pub open spec fn spec_contains(&self, path: Seq<char>, expected: FileType) -> Option<
        Seq<char>,
    > {
        match self.spec_accept(self.path@, path, expected) {
            Some(rel) => Some(rel),
            None => match self.canonical_path {
                Some(c) => self.spec_accept(c@, path, expected),
                None => None,
            },
        }
    }

    fn is_included(&self, rel: &str, expected: FileType) -> (r: bool)
        ensures
            r == self.spec_is_included(rel@, expected),
    {
        let mut k: usize = 0;
        while k < self.excluded_dirs.len()
            invariant
                0 <= k <= self.excluded_dirs@.len(),
                forall|m: int|
                    0 <= m < k ==> !spec_is_path_prefix(#[trigger] self.excluded_dirs@[m]@, rel@),
            decreases self.excluded_dirs@.len() - k,
        {
            if is_path_prefix(self.excluded_dirs[k].as_str(), rel) {
                return false;
            }
            k = k + 1;
        }
        proof {
            assert(!self.spec_excluded(rel@));
        }
        proof {
            reveal_strlit("");
            assert(""@ =~= Seq::<char>::empty());
        }
        if !self.filter.include_dir("") {
            return false;
        }
        let n: usize = rel.unicode_len();
        let mut j: usize = 0;
        while j < n
            invariant
                0 <= j <= n,
                n == rel@.len(),
                self.filter.spec_include_dir(Seq::<char>::empty()),
                !self.spec_excluded(rel@),
                forall|m: int|
                    0 <= m < j && rel@[m] == '/' ==> self.filter.spec_include_dir(
                        #[trigger] rel@.subrange(0, m),
                    ),
            decreases n - j,
        {
            if rel.get_char(j) == '/' {
                let pre: String = substring(rel, 0, j);
                if !self.filter.include_dir(pre.as_str()) {
                    return false;
                }
            }
            j = j + 1;
        }
        match expected {
            FileType::File => self.filter.include_file(rel),
            FileType::Dir => self.filter.include_dir(rel),
        }
    }

    fn accept(&self, base: &str, path: &str, expected: FileType) -> (r: Option<String>)
        ensures
            r matches Some(s) ==> self.spec_accept(base@, path@, expected) == Some(s@),
            r is None ==> self.spec_accept(base@, path@, expected) is None,
    {
        match rel_path(base, path) {
            Some(rel) => {
                if rel.as_str().unicode_len() == 0 {
                    Some(rel)
                } else if self.is_included(rel.as_str(), expected) {
                    Some(rel)
                } else {
                    None
                }
            },
            None => None,
        }
    }

    fn contains(&self, path: &str, expected: FileType) -> (r: Option<String>)
        ensures
            r matches Some(s) ==> self.spec_contains(path@, expected) == Some(s@),
            r is None ==> self.spec_contains(path@, expected) is None,
    {
        match self.accept(self.path.as_str(), path, expected) {
            Some(rel) => Some(rel),
            None => match &self.canonical_path {
                Some(c) => self.accept(c.as_str(), path, expected),
                None => None,
            },
        }
    }
}

/// `e` placed into `s` before the first entry with a strictly shorter
/// path, keeping the order of the rest: one step of a stable insertion
/// sort by path length, longest first.
pub open spec fn spec_insert_by_len<F>(s: Seq<RootEntry<F>>, e: RootEntry<F>) -> Seq<
    RootEntry<F>,
>
    decreases s.len(),
{
    if s.len() == 0 {
        seq![e]
    } else if s[0].path@.len() < e.path@.len() {
        seq![e] + s
    } else {
        seq![s[0]] + spec_insert_by_len(s.skip(1), e)
    }
}

/// The entries ordered by path length, longest first, entries of equal
/// length keeping their given order.
pub open spec fn spec_sort_by_len<F>(s: Seq<RootEntry<F>>) -> Seq<RootEntry<F>>
    decreases s.len(),
{
    if s.len() == 0 {
        Seq::empty()
    } else {
        spec_insert_by_len(spec_sort_by_len(s.drop_last()), s.last())
    }
}

/// True when some entry of `s` has the path `p`.
pub open spec fn spec_has_path<F>(s: Seq<RootEntry<F>>, p: Seq<char>) -> bool {
    exists|i: int| 0 <= i < s.len() && (#[trigger] s[i]).path@ == p
}

/// The entries with every repetition of an earlier path dropped.
pub open spec fn spec_dedup<F>(s: Seq<RootEntry<F>>) -> Seq<RootEntry<F>>
    decreases s.len(),
{
    if s.len() == 0 {
        Seq::empty()
    } else {
        let d = spec_dedup(s.drop_last());
        if spec_has_path(d, s.last().path@) {
            d
        } else {
            d.push(s.last())
        }
    }
}

/// The nesting exclusions of entry `i`: the paths of the entries before
/// `j` that lie strictly inside entry `i`, relative to it, in order.
pub open spec fn spec_excl_up_to<F>(s: Seq<RootEntry<F>>, i: int, j: int) -> Seq<Seq<char>>
    decreases j,
{
    if j <= 0 {
        Seq::empty()
    } else {
        let pre = spec_excl_up_to(s, i, j - 1);
        match spec_rel_path(s[i].path@, s[j - 1].path@) {
            Some(r) => pre.push(r),
            None => pre,
        }
    }
}

/// All nesting exclusions of entry `i`: earlier entries are the more
/// specific ones, since the entries are ordered longest path first.
pub open spec fn spec_excluded_dirs_of<F>(s: Seq<RootEntry<F>>, i: int) -> Seq<Seq<char>> {
    spec_excl_up_to(s, i, i)
}

/// The canonical path an entry contributes: kept only when it differs
/// from the configured path.
pub open spec fn spec_canon_of<F>(e: RootEntry<F>) -> Option<Seq<char>> {
    match e.canonical {
        Some(c) => if c@ == e.path@ {
            None
        } else {
            Some(c@)
        },
        None => None,
    }
}

/// The view of an optional string.
pub open spec fn opt_str_view(o: Option<String>) -> Option<Seq<char>> {
    match o {
        Some(c) => Some(c@),
        None => None,
    }
}

/// How a registry is derived from its configured entries: sort by path
/// length, longest first; drop repeated paths; record each entry's
/// nesting exclusions and its distinct canonical path.
pub open spec fn spec_built_from<F: Filter>(
    roots: Seq<RootData<F>>,
    entries: Seq<RootEntry<F>>,
) -> bool {
    let dd = spec_dedup(spec_sort_by_len(entries));
    &&& roots.len() == dd.len()
    &&& forall|i: int|
        0 <= i < roots.len() ==> {
            &&& (#[trigger] roots[i]).path@ == dd[i].path@
            &&& roots[i].filter == dd[i].filter
            &&& opt_str_view(roots[i].canonical_path) == spec_canon_of(dd[i])
            &&& roots[i].excluded_dirs.deep_view() == spec_excluded_dirs_of(dd, i)
        }
}

/// One stored root matches one deduplicated entry, with the given
/// exclusion list.
pub open spec fn spec_data_matches<F: Filter>(
    d: RootData<F>,
    e: RootEntry<F>,
    ex: Seq<Seq<char>>,
) -> bool {
    &&& d.path@ == e.path@
    &&& d.filter == e.filter
    &&& opt_str_view(d.canonical_path) == spec_canon_of(e)
    &&& d.excluded_dirs.deep_view() == ex
}

proof fn lemma_insert_by_len_len<F>(s: Seq<RootEntry<F>>, e: RootEntry<F>)
    ensures
        spec_insert_by_len(s, e).len() == s.len() + 1,
    decreases s.len(),
{
    if s.len() > 0 && !(s[0].path@.len() < e.path@.len()) {
        lemma_insert_by_len_len(s.skip(1), e);
    }
}

proof fn lemma_sort_by_len_len<F>(s: Seq<RootEntry<F>>)
    ensures
        spec_sort_by_len(s).len() == s.len(),
    decreases s.len(),
{
    if s.len() > 0 {
        lemma_sort_by_len_len(s.drop_last());
        lemma_insert_by_len_len(spec_sort_by_len(s.drop_last()), s.last());
    }
}

proof fn lemma_dedup_len<F>(s: Seq<RootEntry<F>>)
    ensures
        spec_dedup(s).len() <= s.len(),
    decreases s.len(),
{
    if s.len() > 0 {
        lemma_dedup_len(s.drop_last());
    }
}

/// Inserting before the first strictly shorter entry is what
/// `spec_insert_by_len` does.
proof fn lemma_insert_by_len_at<F>(s: Seq<RootEntry<F>>, e: RootEntry<F>, idx: int)
    requires
        0 <= idx <= s.len(),
        forall|m: int| 0 <= m < idx ==> (#[trigger] s[m]).path@.len() >= e.path@.len(),
        idx == s.len() || s[idx].path@.len() < e.path@.len(),
    ensures
        spec_insert_by_len(s, e) == s.take(idx) + seq![e] + s.skip(idx),
    decreases idx,
{
    if idx == 0 {
        if s.len() == 0 {
            assert(spec_insert_by_len(s, e) =~= s.take(0) + seq![e] + s.skip(0));
        } else {
            assert(spec_insert_by_len(s, e) =~= s.take(0) + seq![e] + s.skip(0));
        }
    } else {
        assert(s[0].path@.len() >= e.path@.len());
        let tail = s.skip(1);
        assert forall|m: int| 0 <= m < idx - 1 implies (#[trigger] tail[m]).path@.len()
            >= e.path@.len() by {
            assert(tail[m] == s[m + 1]);
        }
        assert(idx - 1 == tail.len() || tail[idx - 1].path@.len() < e.path@.len());
        lemma_insert_by_len_at(tail, e, idx - 1);
        assert(spec_insert_by_len(s, e) =~= s.take(idx) + seq![e] + s.skip(idx)) by {
            assert(spec_insert_by_len(s, e) == seq![s[0]] + spec_insert_by_len(tail, e));
            assert(seq![s[0]] + (tail.take(idx - 1) + seq![e] + tail.skip(idx - 1)) =~= s.take(
                idx,
            ) + seq![e] + s.skip(idx));
        }
    }
}

/// Entries ordered by path length, longest first.
pub open spec fn spec_sorted_by_len<F>(s: Seq<RootEntry<F>>) -> bool {
    forall|i: int, j: int|
        0 <= i < j < s.len() ==> (#[trigger] s[i]).path@.len() >= (#[trigger] s[j]).path@.len()
}

proof fn lemma_insert_by_len_sorted<F>(s: Seq<RootEntry<F>>, e: RootEntry<F>)
    requires
        spec_sorted_by_len(s),
    ensures
        spec_sorted_by_len(spec_insert_by_len(s, e)),
    decreases s.len(),
{
    let post = spec_insert_by_len(s, e);
    if s.len() == 0 {
    } else if s[0].path@.len() < e.path@.len() {
        assert forall|i: int, j: int|
            0 <= i < j < post.len() implies (#[trigger] post[i]).path@.len() >= (
        #[trigger] post[j]).path@.len() by {
            if i > 0 {
                assert(post[i] == s[i - 1] && post[j] == s[j - 1]);
            } else if j > 0 {
                assert(post[j] == s[j - 1]);
                assert(s[0].path@.len() >= s[j - 1].path@.len());
            }
        }
    } else {
        let tail = s.skip(1);
        assert(spec_sorted_by_len(tail)) by {
            assert forall|i: int, j: int|
                0 <= i < j < tail.len() implies (#[trigger] tail[i]).path@.len() >= (
            #[trigger] tail[j]).path@.len() by {
                assert(tail[i] == s[i + 1] && tail[j] == s[j + 1]);
            }
        }
        lemma_insert_by_len_sorted(tail, e);
        lemma_insert_by_len_len(tail, e);
        let rec = spec_insert_by_len(tail, e);
        assert forall|i: int, j: int|
            0 <= i < j < post.len() implies (#[trigger] post[i]).path@.len() >= (
        #[trigger] post[j]).path@.len() by {
            if i > 0 {
                assert(post[i] == rec[i - 1] && post[j] == rec[j - 1]);
            } else {
                assert(post[j] == rec[j - 1]);
                // the head is at least as long as everything inserted after it
                assert forall|m: int| 0 <= m < rec.len() implies s[0].path@.len() >= (
                #[trigger] rec[m]).path@.len() by {
                    lemma_insert_member(tail, e, m);
                }
            }
        }
    }
}

/// Every slot of an insertion result holds either the inserted entry or
/// one of the old ones.
proof fn lemma_insert_member<F>(s: Seq<RootEntry<F>>, e: RootEntry<F>, m: int)
    requires
        0 <= m < spec_insert_by_len(s, e).len(),
    ensures
        spec_insert_by_len(s, e)[m] == e || exists|w: int|
            0 <= w < s.len() && s[w] == spec_insert_by_len(s, e)[m],
    decreases s.len(),
{
    let post = spec_insert_by_len(s, e);
    if s.len() == 0 {
    } else if s[0].path@.len() < e.path@.len() {
        if m > 0 {
            assert(s[m - 1] == post[m]);
        }
    } else {
        if m == 0 {
            assert(s[0] == post[0]);
        } else {
            lemma_insert_member(s.skip(1), e, m - 1);
            if post[m] != e {
                let w = choose|w: int|
                    0 <= w < s.skip(1).len() && s.skip(1)[w] == spec_insert_by_len(
                        s.skip(1),
                        e,
                    )[m - 1];
                assert(s[w + 1] == post[m]);
            }
        }
    }
}

proof fn lemma_sort_by_len_sorted<F>(s: Seq<RootEntry<F>>)
    ensures
        spec_sorted_by_len(spec_sort_by_len(s)),
    decreases s.len(),
{
    if s.len() > 0 {
        lemma_sort_by_len_sorted(s.drop_last());
        lemma_insert_by_len_sorted(spec_sort_by_len(s.drop_last()), s.last());
    }
}

/// Every slot of a deduplicated sequence holds one of the old entries.
proof fn lemma_dedup_member<F>(s: Seq<RootEntry<F>>, k: int)
    requires
        0 <= k < spec_dedup(s).len(),
    ensures
        exists|m: int| 0 <= m < s.len() && s[m] == spec_dedup(s)[k],
    decreases s.len(),
{
    if s.len() > 0 {
        let d = spec_dedup(s.drop_last());
        if spec_has_path(d, s.last().path@) || k < d.len() {
            lemma_dedup_member(s.drop_last(), k);
            let m = choose|m: int| 0 <= m < s.drop_last().len() && s.drop_last()[m] == spec_dedup(
                s.drop_last(),
            )[k];
            assert(s[m] == spec_dedup(s)[k]);
        } else {
            assert(s[s.len() - 1] == spec_dedup(s)[k]);
        }
    }
}

proof fn lemma_dedup_sorted<F>(s: Seq<RootEntry<F>>)
    requires
        spec_sorted_by_len(s),
    ensures
        spec_sorted_by_len(spec_dedup(s)),
    decreases s.len(),
{
    if s.len() > 0 {
        assert(spec_sorted_by_len(s.drop_last())) by {
            assert forall|i: int, j: int|
                0 <= i < j < s.drop_last().len() implies (#[trigger] s.drop_last()[i]).path@.len()
                >= (#[trigger] s.drop_last()[j]).path@.len() by {
                assert(s.drop_last()[i] == s[i] && s.drop_last()[j] == s[j]);
            }
        }
        lemma_dedup_sorted(s.drop_last());
        let d = spec_dedup(s.drop_last());
        if !spec_has_path(d, s.last().path@) {
            let post = spec_dedup(s);
            lemma_dedup_len(s.drop_last());
            assert forall|i: int, j: int|
                0 <= i < j < post.len() implies (#[trigger] post[i]).path@.len() >= (
            #[trigger] post[j]).path@.len() by {
                if j == post.len() - 1 {
                    lemma_dedup_member(s.drop_last(), i);
                    let m = choose|m: int|
                        0 <= m < s.drop_last().len() && s.drop_last()[m] == d[i];
                    assert(s[m] == d[i]);
                    assert(s[m].path@.len() >= s[s.len() - 1].path@.len());
                } else {
                    assert(post[i] == d[i] && post[j] == d[j]);
                }
            }
        }
    }
}

/// A path that entry `j` contributes to entry `i`'s exclusions is in the
/// accumulated list.
proof fn lemma_excl_contains<F>(s: Seq<RootEntry<F>>, i: int, j: int, hi: int)
    requires
        0 <= j < hi,
        spec_rel_path(s[i].path@, s[j].path@) is Some,
    ensures
        exists|k: int|
            0 <= k < spec_excl_up_to(s, i, hi).len() && spec_excl_up_to(s, i, hi)[k]
                == spec_rel_path(s[i].path@, s[j].path@)->Some_0,
    decreases hi,
{
    let r = spec_rel_path(s[i].path@, s[j].path@)->Some_0;
    if j == hi - 1 {
        let pre = spec_excl_up_to(s, i, hi - 1);
        assert(spec_excl_up_to(s, i, hi)[pre.len() as int] == r);
    } else {
        lemma_excl_contains(s, i, j, hi - 1);
        let pre = spec_excl_up_to(s, i, hi - 1);
        let k = choose|k: int| 0 <= k < pre.len() && pre[k] == r;
        assert(spec_excl_up_to(s, i, hi)[k] == r);
    }
}

/// Nested-root exclusion: when one configured root lies strictly inside
/// another, the outer root never owns a path that the nested root holds;
/// resolution against the outer root's configured path refuses it.
pub proof fn lemma_nested_root_excluded<F: Filter>(
    roots: Roots<F>,
    entries: Seq<RootEntry<F>>,
    a: int,
    b: int,
    path: Seq<char>,
    expected: FileType,
)
    requires
        spec_built_from(roots.roots@, entries),
        0 <= a < roots.roots@.len(),
        0 <= b < roots.roots@.len(),
        a != b,
        spec_rel_path(roots.roots@[a].path@, roots.roots@[b].path@) matches Some(r) && r.len()
            > 0,
        spec_rel_path(roots.roots@[b].path@, path) is Some,
        roots.roots@[a].canonical_path is None,
    ensures
        roots.roots@[a].spec_contains(path, expected) is None,
{
    let dd = spec_dedup(spec_sort_by_len(entries));
    let pa = roots.roots@[a].path@;
    let pb = roots.roots@[b].path@;
    let r = spec_rel_path(pa, pb)->Some_0;
    // the nested root is strictly longer, so it stands earlier
    crate::paths::lemma_rel_path_decompose(pa, pb);
    assert(pb.len() > pa.len());
    lemma_sort_by_len_sorted(entries);
    lemma_dedup_sorted(spec_sort_by_len(entries));
    assert(dd[a].path@ == pa && dd[b].path@ == pb);
    assert(b < a) by {
        if a < b {
            assert(dd[a].path@.len() >= dd[b].path@.len());
        }
    }
    // so its relative path is among the outer root's exclusions
    lemma_excl_contains(dd, a, b, a);
    let k = choose|k: int|
        0 <= k < spec_excl_up_to(dd, a, a).len() && spec_excl_up_to(dd, a, a)[k]
            == spec_rel_path(dd[a].path@, dd[b].path@)->Some_0;
    assert(roots.roots@[a].excluded_dirs.deep_view() == spec_excluded_dirs_of(dd, a));
    assert(roots.roots@[a].excluded_dirs@[k]@ == r) by {
        assert(roots.roots@[a].excluded_dirs.deep_view()[k] == roots.roots@[a].excluded_dirs@[k]@);
    }
    // the path's root-relative form under the outer root starts with it
    crate::paths::lemma_rel_path_trans(pa, pb, path);
    let ra = spec_rel_path(pa, path)->Some_0;
    assert(roots.roots@[a].spec_excluded(ra)) by {
        assert(spec_is_path_prefix(roots.roots@[a].excluded_dirs@[k]@, ra));
    }
    assert(ra.len() > 0) by {
        if ra.len() == 0 {
            assert(!spec_is_path_prefix(r, ra));
        }
    }
}

/// A non-empty relative path that a root owns passed its whole gate:
/// no nesting exclusion covers it and every directory above it passed
/// the filter.
pub proof fn lemma_contains_included<F: Filter>(rd: RootData<F>, path: Seq<char>, expected: FileType)
    requires
        rd.spec_contains(path, expected) matches Some(rel) && rel.len() > 0,
    ensures
        rd.spec_is_included(rd.spec_contains(path, expected)->Some_0, expected),
{
}

/// Filter parent gating: a root never owns an entry when the filter
/// rejects a directory above it.
pub proof fn lemma_filter_parent_gating<F: Filter>(
    rd: RootData<F>,
    rel: Seq<char>,
    j: int,
    expected: FileType,
)
    requires
        0 <= j < rel.len(),
        rel[j] == '/',
        !rd.filter.spec_include_dir(rel.subrange(0, j)),
    ensures
        !rd.spec_is_included(rel, expected),
{
}

proof fn lemma_find_from_accepts<F: Filter>(
    roots: Roots<F>,
    i: int,
    path: Seq<char>,
    expected: FileType,
)
    requires
        0 <= i,
    ensures
        match roots.spec_find_from(i, path, expected) {
            Some((ri, rel)) => i <= ri < roots.roots@.len() && roots.roots@[ri].spec_contains(
                path,
                expected,
            ) == Some(rel) && forall|j: int|
                i <= j < ri ==> (#[trigger] roots.roots@[j]).spec_contains(path, expected) is None,
            None => true,
        },
    decreases roots.roots@.len() - i,
{
    if i < roots.roots@.len() && roots.roots@[i].spec_contains(path, expected) is None {
        lemma_find_from_accepts(roots, i + 1, path, expected);
    }
}

/// Resolution is first-match: the root it returns is the earliest, and
/// so, with the registry ordered longest path first, the most specific
/// one that accepts the path.
pub proof fn lemma_find_first<F: Filter>(roots: Roots<F>, path: Seq<char>, expected: FileType)
    requires
        roots.spec_find(path, expected) is Some,
    ensures
        ({
            let (ri, rel) = roots.spec_find(path, expected)->Some_0;
            &&& 0 <= ri < roots.roots@.len()
            &&& roots.roots@[ri].spec_contains(path, expected) == Some(rel)
            &&& forall|j: int|
                0 <= j < ri ==> (#[trigger] roots.roots@[j]).spec_contains(path, expected) is None
        }),
{
    lemma_find_from_accepts(roots, 0, path, expected);
}

/// What resolution promises of its result: the root it returns accepts
/// the relative path, so that path lies under no nesting exclusion and
/// every directory above it passes the root's filter.
pub proof fn lemma_find_respects_filter<F: Filter>(
    roots: Roots<F>,
    path: Seq<char>,
    expected: FileType,
)
    requires
        roots.spec_find(path, expected) is Some,
    ensures
        ({
            let (ri, rel) = roots.spec_find(path, expected)->Some_0;
            &&& 0 <= ri < roots.roots@.len()
            &&& rel.len() > 0 ==> roots.roots@[ri].spec_is_included(rel, expected)
        }),
{
    lemma_find_from_accepts(roots, 0, path, expected);
}

/// The registry of all configured roots, most specific first.
pub struct Roots<F> {
    pub roots: Vec<RootData<F>>,
}

impl<F: Filter> Roots<F> {
    /// Builds the registry: orders the entries by path length, longest
    /// first, drops repeated paths, and records for every root the
    /// root-relative paths of the more specific roots nested inside it.
    pub fn new(entries: Vec<RootEntry<F>>) -> (r: Roots<F>)
        requires
            entries@.len() <= u32::MAX,
        ensures
            r.wf(),
            spec_built_from(r.roots@, entries@),
    {
        proof {
            lemma_sort_by_len_len(entries@);
            lemma_dedup_len(spec_sort_by_len(entries@));
        }
        let sorted = Self::sort_entries(entries);
        let dd = Self::dedup_entries(sorted);
        let ghost dd0 = dd@;
        let mut excls: Vec<Vec<String>> = Vec::new();
        let mut i: usize = 0;
        while i < dd.len()
            invariant
                0 <= i <= dd0.len(),
                dd@ == dd0,
                excls@.len() == i,
                forall|m: int|
                    0 <= m < i ==> (#[trigger] excls@[m]).deep_view() == spec_excluded_dirs_of(
                        dd0,
                        m,
                    ),
            decreases dd0.len() - i,
        {
            let ex = Self::exclusions_for(&dd, i);
            excls.push(ex);
            i = i + 1;
        }
        let mut datas: Vec<RootData<F>> = Vec::new();
        let mut rest = dd;
        let mut exrest = excls;
        while rest.len() > 0
            invariant
                datas@.len() + rest@.len() == dd0.len(),
                rest@ =~= dd0.skip(datas@.len() as int),
                exrest@.len() == rest@.len(),
                forall|m: int|
                    0 <= m < exrest@.len() ==> (#[trigger] exrest@[m]).deep_view()
                        == spec_excluded_dirs_of(dd0, datas@.len() + m),
                forall|m: int|
                    0 <= m < datas@.len() ==> spec_data_matches(
                        #[trigger] datas@[m],
                        dd0[m],
                        spec_excluded_dirs_of(dd0, m),
                    ),
            decreases rest@.len(),
        {
            let ghost k = datas@.len() as int;
            let e = rest.remove(0);
            let ex = exrest.remove(0);
            proof {
                assert(e == dd0[k]);
                assert(rest@ =~= dd0.skip(k + 1));
            }
            let RootEntry { path, canonical, filter } = e;
            let canonical_path: Option<String> = match canonical {
                Some(c) => if c == path {
                    None
                } else {
                    Some(c)
                },
                None => None,
            };
            datas.push(RootData { path, filter, canonical_path, excluded_dirs: ex });
        }
        Roots { roots: datas }
    }

    /// Orders the entries by path length, longest first; entries of equal
    /// length keep their given order.
    fn sort_entries(entries: Vec<RootEntry<F>>) -> (r: Vec<RootEntry<F>>)
        ensures
            r@ == spec_sort_by_len(entries@),
    {
        let ghost all = entries@;
        let mut rest = entries;
        let mut sorted: Vec<RootEntry<F>> = Vec::new();
        proof {
            assert(rest@ =~= all.skip(0));
            assert(all.take(0) =~= Seq::<RootEntry<F>>::empty());
        }
        while rest.len() > 0
            invariant
                rest@.len() <= all.len(),
                rest@ =~= all.skip(all.len() - rest@.len()),
                sorted@ == spec_sort_by_len(all.take(all.len() - rest@.len())),
            decreases rest@.len(),
        {
            let ghost k = all.len() - rest@.len();
            let e = rest.remove(0);
            proof {
                assert(e == all[k as int]);
                assert(rest@ =~= all.skip(k as int + 1));
                assert(all.take(k as int + 1).drop_last() =~= all.take(k as int));
                assert(all.take(k as int + 1).last() == all[k as int]);
            }
            Self::insert_sorted(&mut sorted, e);
        }
        proof {
            assert(all.take(all.len() as int) =~= all);
        }
        sorted
    }

    /// Places `e` before the first entry with a strictly shorter path.
    fn insert_sorted(sorted: &mut Vec<RootEntry<F>>, e: RootEntry<F>)
        ensures
            final(sorted)@ == spec_insert_by_len(old(sorted)@, e),
    {
        let elen: usize = e.path.as_str().unicode_len();
        let mut idx: usize = 0;
        loop
            invariant
                0 <= idx <= sorted@.len(),
                sorted@ == old(sorted)@,
                elen == e.path@.len(),
                forall|m: int| 0 <= m < idx ==> (#[trigger] sorted@[m]).path@.len() >= elen,
            ensures
                0 <= idx <= sorted@.len(),
                sorted@ == old(sorted)@,
                idx == sorted@.len() || sorted@[idx as int].path@.len() < elen,
                forall|m: int| 0 <= m < idx ==> (#[trigger] sorted@[m]).path@.len() >= elen,
            decreases sorted@.len() - idx,
        {
            if idx >= sorted.len() {
                break ;
            }
            let l: usize = sorted[idx].path.as_str().unicode_len();
            if l < elen {
                break ;
            }
            idx = idx + 1;
        }
        proof {
            lemma_insert_by_len_at(sorted@, e, idx as int);
        }
        let ghost before = sorted@;
        sorted.insert(idx, e);
        proof {
            assert(sorted@ =~= before.take(idx as int) + seq![e] + before.skip(idx as int));
        }
    }

    /// Drops every entry whose path already occurred.
    fn dedup_entries(sorted: Vec<RootEntry<F>>) -> (r: Vec<RootEntry<F>>)
        ensures
            r@ == spec_dedup(sorted@),
    {
        let ghost all = sorted@;
        let mut rest = sorted;
        let mut out: Vec<RootEntry<F>> = Vec::new();
        proof {
            assert(rest@ =~= all.skip(0));
            assert(all.take(0) =~= Seq::<RootEntry<F>>::empty());
        }
        while rest.len() > 0
            invariant
                rest@.len() <= all.len(),
                rest@ =~= all.skip(all.len() - rest@.len()),
                out@ == spec_dedup(all.take(all.len() - rest@.len())),
            decreases rest@.len(),
        {
            let ghost k = all.len() - rest@.len();
            let e = rest.remove(0);
            proof {
                assert(e == all[k as int]);
                assert(rest@ =~= all.skip(k as int + 1));
                assert(all.take(k as int + 1).drop_last() =~= all.take(k as int));
                assert(all.take(k as int + 1).last() == all[k as int]);
            }
            if !Self::has_path(&out, &e.path) {
                out.push(e);
            }
        }
        proof {
            assert(all.take(all.len() as int) =~= all);
        }
        out
    }

    /// True when some entry of `v` has the path `p`.
    fn has_path(v: &Vec<RootEntry<F>>, p: &String) -> (r: bool)
        ensures
            r == spec_has_path(v@, p@),
    {
        let mut t: usize = 0;
        while t < v.len()
            invariant
                0 <= t <= v@.len(),
                forall|m: int| 0 <= m < t ==> (#[trigger] v@[m]).path@ != p@,
            decreases v@.len() - t,
        {
            if v[t].path == *p {
                return true;
            }
            t = t + 1;
        }
        false
    }

    /// The nesting exclusions of entry `i`: the paths of the earlier,
    /// more specific entries that lie inside it, made relative to it.
    fn exclusions_for(dd: &Vec<RootEntry<F>>, i: usize) -> (r: Vec<String>)
        requires
            i < dd@.len(),
        ensures
            r.deep_view() == spec_excluded_dirs_of(dd@, i as int),
    {
        let mut excl: Vec<String> = Vec::new();
        let mut j: usize = 0;
        proof {
            assert(excl.deep_view() =~= spec_excl_up_to(dd@, i as int, 0));
        }
        while j < i
            invariant
                0 <= j <= i,
                i < dd@.len(),
                excl.deep_view() == spec_excl_up_to(dd@, i as int, j as int),
            decreases i - j,
        {
            let ghost before = excl.deep_view();
            match rel_path(dd[i].path.as_str(), dd[j].path.as_str()) {
                Some(r0) => {
                    proof {
                        assert(spec_rel_path(dd@[i as int].path@, dd@[j as int].path@) == Some(
                            r0@,
                        ));
                    }
                    excl.push(r0);
                    proof {
                        assert(excl.deep_view() =~= before.push(
                            spec_rel_path(dd@[i as int].path@, dd@[j as int].path@)->Some_0,
                        ));
                    }
                },
                None => {},
            }
            j = j + 1;
        }
        excl
    }

    /// Root handles are 32-bit; a registry never holds more roots than
    /// that.
    pub open spec fn wf(&self) -> bool {
        self.roots@.len() <= u32::MAX
    }

    /// How many roots are configured.
    pub fn len(&self) -> (r: usize)
        ensures
            r == self.roots@.len(),
    {
        self.roots.len()
    }

    /// The configured path of `root`.
    pub fn path(&self, root: VfsRoot) -> (r: &String)
        requires
            root.0 < self.roots@.len(),
        ensures
            r == self.roots@[root.0 as int].path,
    {
        &self.roots[root.0 as usize].path
    }

    /// The relative path the given root assigns to `path`, when it owns it.
    pub fn contains(&self, root: VfsRoot, path: &str, expected: FileType) -> (r: Option<String>)
        requires
            root.0 < self.roots@.len(),
        ensures
            r matches Some(s) ==> self.roots@[root.0 as int].spec_contains(path@, expected)
                == Some(s@),
            r is None ==> self.roots@[root.0 as int].spec_contains(path@, expected) is None,
    {
        self.roots[root.0 as usize].contains(path, expected)
    }

    /// The first root, in declared order, that owns `path`, with the
    /// root-relative path it assigns to it.
    pub open spec fn spec_find_from(&self, i: int, path: Seq<char>, expected: FileType) -> Option<
        (int, Seq<char>),
    >
        decreases self.roots@.len() - i,
    {
        if i < 0 || i >= self.roots@.len() {
            None
        } else {
            match self.roots@[i].spec_contains(path, expected) {
                Some(rel) => Some((i, rel)),
                None => self.spec_find_from(i + 1, path, expected),
            }
        }
    }

    /// See `spec_find_from`; the search starts at the most specific root.
    pub open spec fn spec_find(&self, path: Seq<char>, expected: FileType) -> Option<
        (int, Seq<char>),
    > {
        self.spec_find_from(0, path, expected)
    }

    /// Resolves an absolute path to the most specific root that owns it.
    pub fn find(&self, path: &str, expected: FileType) -> (r: Option<(VfsRoot, String)>)
        requires
            self.wf(),
        ensures
            r matches Some((root, rel)) ==> self.spec_find(path@, expected) == Some(
                (root.0 as int, rel@),
            ) && root.0 < self.roots@.len(),
            r is None ==> self.spec_find(path@, expected) is None,
    {
        let n: usize = self.roots.len();
        let mut i: usize = 0;
        while i < n
            invariant
                0 <= i <= n,
                n == self.roots@.len(),
                n <= u32::MAX,
                self.spec_find(path@, expected) == self.spec_find_from(i as int, path@, expected),
            decreases n - i,
        {
            match self.roots[i].contains(path, expected) {
                Some(rel) => {
                    proof {
                        assert(self.spec_find_from(i as int, path@, expected) == Some(
                            (i as int, rel@),
                        ));
                    }
                    return Some((VfsRoot(i as u32), rel));
                },
                None => {
                    proof {
                        assert(self.spec_find_from(i as int, path@, expected)
                            == self.spec_find_from(i as int + 1, path@, expected));
                    }
                },
            }
            i = i + 1;
        }
        None
    }

    /// The absolute path of the entry at `rel` under `root`.
    pub fn join(&self, root: VfsRoot, rel: &str) -> (r: String)
        requires
            root.0 < self.roots@.len(),
        ensures
            r@ == spec_join(self.roots@[root.0 as int].path@, rel@),
    {
        join_path(self.roots[root.0 as usize].path.as_str(), rel)
    }
}

} // verus!
