use vstd::prelude::*;

use crate::strutil::{find_char, first_index_of, lemma_first_index_of, substring};

verus! {

/// Decides which files and directories under a root are part of it.
///
/// If a directory is rejected, everything below it is out, whether or not
/// `include_file` would have accepted a file there; the registry enforces
/// this parent gating. Both predicates must be pure: each executable method
/// returns exactly what its specification counterpart says.
pub trait Filter: Sized {
    /// What `include_dir` returns for a root-relative directory path.
    spec fn spec_include_dir(&self, path: Seq<char>) -> bool;

    /// What `include_file` returns for a root-relative file path.
    spec fn spec_include_file(&self, path: Seq<char>) -> bool;

    /// True when the directory at `path` belongs to the root.
    fn include_dir(&self, path: &str) -> (r: bool)
        ensures
            r == self.spec_include_dir(path@),
    ;

    /// True when the file at `path` belongs to the root.
    fn include_file(&self, path: &str) -> (r: bool)
        ensures
            r == self.spec_include_file(path@),
    ;
}

/// A filter that accepts every file and every directory.
#[derive(Clone, Copy)]
pub struct AcceptAll;

impl Filter for AcceptAll {
    open spec fn spec_include_dir(&self, path: Seq<char>) -> bool {
        true
    }

    open spec fn spec_include_file(&self, path: Seq<char>) -> bool {
        true
    }

    fn include_dir(&self, path: &str) -> (r: bool) {
        true
    }

    fn include_file(&self, path: &str) -> (r: bool) {
        true
    }
}

/// A path component that a `RustFiles` filter lets through: it is not
/// hidden (no leading dot) and is none of the build or dependency
/// directories that hold generated code.
pub open spec fn component_allowed(c: Seq<char>) -> bool {
    &&& !(c.len() > 0 && c[0] == '.')
    &&& c != "node_modules"@
    &&& c != "target"@
}

/// Every `/`-separated component of `path` is allowed.
pub open spec fn components_allowed(path: Seq<char>) -> bool
    decreases path.len(),
{
    if path.len() == 0 {
        true
    } else {
        let e = first_index_of(path, '/');
        if 0 <= e < path.len() {
            component_allowed(path.subrange(0, e)) && components_allowed(path.skip(e + 1))
        } else {
            component_allowed(path)
        }
    }
}

/// A file path with the Rust source extension.
pub open spec fn has_rs_extension(p: Seq<char>) -> bool {
    p.len() >= 3 && p[p.len() - 3] == '.' && p[p.len() - 2] == 'r' && p[p.len() - 1] == 's'
}

/// The filter of a source root that mirrors Rust sources only: files with
/// the `.rs` extension, skipping hidden directories and the `target` and
/// `node_modules` trees.
#[derive(Clone, Copy)]
pub struct RustFiles;

impl RustFiles {
    fn component_check(c: &str) -> (r: bool)
        ensures
            r == component_allowed(c@),
    {
        let n: usize = c.unicode_len();
        if n > 0 && c.get_char(0) == '.' {
            return false;
        }
        let owned: String = c.to_owned();
        let nm: String = String::from_str("node_modules");
        let tg: String = String::from_str("target");
        if owned == nm {
            return false;
        }
        if owned == tg {
            return false;
        }
        true
    }
}

impl Filter for RustFiles {
    open spec fn spec_include_dir(&self, path: Seq<char>) -> bool {
        components_allowed(path)
    }

    open spec fn spec_include_file(&self, path: Seq<char>) -> bool {
        has_rs_extension(path)
    }

    fn include_dir(&self, path: &str) -> (r: bool)
        decreases path@.len(),
    {
        let n: usize = path.unicode_len();
        if n == 0 {
            return true;
        }
        let e: usize = find_char(path, '/');
        proof {
            lemma_first_index_of(path@, '/');
        }
        let comp: String = substring(path, 0, e);
        if !Self::component_check(comp.as_str()) {
            proof {
                if e == n {
                    assert(path@.subrange(0, e as int) =~= path@);
                }
            }
            return false;
        }
        if e == n {
            proof {
                assert(path@.subrange(0, e as int) =~= path@);
            }
            true
        } else {
            let rest: String = substring(path, e + 1, n);
            self.include_dir(rest.as_str())
        }
    }

    fn include_file(&self, path: &str) -> (r: bool) {
        let n: usize = path.unicode_len();
        if n < 3 {
            return false;
        }
        path.get_char(n - 3) == '.' && path.get_char(n - 2) == 'r' && path.get_char(n - 1) == 's'
    }
}

} // verus!
