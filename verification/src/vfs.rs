use vstd::prelude::*;

use crate::filter::Filter;
use crate::line_endings::LineEndings;
use crate::normalize::{flavor_of, normalize_newlines, normalized};
use crate::paths::spec_join;
use crate::roots::{spec_built_from, FileType, RootEntry, Roots, VfsRoot};
use crate::tasks::{bulk_files_view, TaskResult, VfsTask};

verus! {

/// Identifies one file in the table: a dense index, stable for the life
/// of the table, never reused.
#[derive(Debug, Clone, Copy, PartialEq, Eq, Hash, Structural)]
pub struct VfsFile(pub u32);

/// One slot of the file table.
pub struct VfsFileData {
    pub root: VfsRoot,
    pub path: String,
    pub text: String,
    pub line_endings: LineEndings,
    pub is_overlayed: bool,
    pub live: bool,
}

/// The mathematical shadow of a file-table slot.
pub ghost struct FileRec {
    pub root: VfsRoot,
    pub path: Seq<char>,
    pub text: Seq<char>,
    pub line_endings: LineEndings,
    pub is_overlayed: bool,
    pub live: bool,
}

impl View for VfsFileData {
    type V = FileRec;

    open spec fn view(&self) -> FileRec {
        FileRec {
            root: self.root,
            path: self.path@,
            text: self.text@,
            line_endings: self.line_endings,
            is_overlayed: self.is_overlayed,
            live: self.live,
        }
    }
}

/// An observable change, drained by the host through `commit_changes`.
#[derive(Debug, Clone)]
pub enum VfsChange {
    /// Emitted once per root after its initial scan, with every file the
    /// root holds at that point.
    AddRoot { root: VfsRoot, files: Vec<(VfsFile, String, String)> },
    AddFile { root: VfsRoot, file: VfsFile, path: String, text: String },
    RemoveFile { root: VfsRoot, file: VfsFile, path: String },
    ChangeFile { file: VfsFile, text: String },
}

/// The mathematical shadow of a change.
pub ghost enum ChangeRec {
    AddRoot { root: VfsRoot, files: Seq<(VfsFile, Seq<char>, Seq<char>)> },
    AddFile { root: VfsRoot, file: VfsFile, path: Seq<char>, text: Seq<char> },
    RemoveFile { root: VfsRoot, file: VfsFile, path: Seq<char> },
    ChangeFile { file: VfsFile, text: Seq<char> },
}

/// The view of the file list inside an `AddRoot` change.
pub open spec fn root_files_view(v: Seq<(VfsFile, String, String)>) -> Seq<
    (VfsFile, Seq<char>, Seq<char>),
> {
    v.map_values(|t: (VfsFile, String, String)| (t.0, t.1@, t.2@))
}

impl View for VfsChange {
    type V = ChangeRec;

    open spec fn view(&self) -> ChangeRec {
        match self {
            VfsChange::AddRoot { root, files } => ChangeRec::AddRoot {
                root: *root,
                files: root_files_view(files@),
            },
            VfsChange::AddFile { root, file, path, text } => ChangeRec::AddFile {
                root: *root,
                file: *file,
                path: path@,
                text: text@,
            },
            VfsChange::RemoveFile { root, file, path } => ChangeRec::RemoveFile {
                root: *root,
                file: *file,
                path: path@,
            },
            VfsChange::ChangeFile { file, text } => ChangeRec::ChangeFile {
                file: *file,
                text: text@,
            },
        }
    }
}

/// The view of an optional text.
pub open spec fn opt_text_view(o: Option<String>) -> Option<Seq<char>> {
    match o {
        Some(t) => Some(t@),
        None => None,
    }
}

/// Whether slot `i` is the live file at `(root, path)`.
pub open spec fn live_match(files: Seq<FileRec>, i: int, root: VfsRoot, path: Seq<char>) -> bool {
    files[i].live && files[i].root == root && files[i].path == path
}

/// The first live slot at `(root, path)` from `i` on.
pub open spec fn spec_find_live_from(
    files: Seq<FileRec>,
    root: VfsRoot,
    path: Seq<char>,
    i: int,
) -> Option<int>
    decreases files.len() - i,
{
    if i < 0 || i >= files.len() {
        None
    } else if live_match(files, i, root, path) {
        Some(i)
    } else {
        spec_find_live_from(files, root, path, i + 1)
    }
}

/// The live slot holding the file at `(root, path)`, if any.
pub open spec fn spec_find_live(files: Seq<FileRec>, root: VfsRoot, path: Seq<char>) -> Option<
    int,
> {
    spec_find_live_from(files, root, path, 0)
}

pub proof fn lemma_find_live_from(files: Seq<FileRec>, root: VfsRoot, path: Seq<char>, i: int)
    requires
        i >= 0,
    ensures
        match spec_find_live_from(files, root, path, i) {
            Some(j) => i <= j < files.len() && live_match(files, j, root, path) && forall|m: int|
                i <= m < j ==> !live_match(files, m, root, path),
            None => forall|m: int| i <= m < files.len() ==> !live_match(files, m, root, path),
        },
    decreases files.len() - i,
{
    if i < files.len() && !live_match(files, i, root, path) {
        lemma_find_live_from(files, root, path, i + 1);
    }
}

pub proof fn lemma_find_live(files: Seq<FileRec>, root: VfsRoot, path: Seq<char>)
    ensures
        match spec_find_live(files, root, path) {
            Some(j) => 0 <= j < files.len() && live_match(files, j, root, path),
            None => forall|m: int| 0 <= m < files.len() ==> !live_match(files, m, root, path),
        },
{
    lemma_find_live_from(files, root, path, 0);
}

/// A new live slot appended at the end of the table.
pub open spec fn spec_add_file(
    files: Seq<FileRec>,
    root: VfsRoot,
    path: Seq<char>,
    text: Seq<char>,
    line_endings: LineEndings,
    is_overlayed: bool,
) -> Seq<FileRec> {
    files.push(FileRec { root, path, text, line_endings, is_overlayed, live: true })
}

/// Slot `i` with its text and overlay bit replaced; everything else,
/// the recorded line endings included, stays.
pub open spec fn spec_set_text(
    files: Seq<FileRec>,
    i: int,
    text: Seq<char>,
    is_overlayed: bool,
) -> Seq<FileRec> {
    files.update(i, FileRec { text, is_overlayed, ..files[i] })
}

/// Slot `i` turned into a tombstone: no longer live, with empty path and
/// empty text, so that later files can never collide with it.
pub open spec fn spec_tombstone(files: Seq<FileRec>, i: int) -> Seq<FileRec> {
    files.update(
        i,
        FileRec { path: Seq::empty(), text: Seq::empty(), live: false, ..files[i] },
    )
}

/// A worker report about the current on-disk state of one file.
pub ghost struct SingleReport {
    pub root: VfsRoot,
    pub path: Seq<char>,
    pub text: Option<Seq<char>>,
    pub line_endings: LineEndings,
}

/// How the controller reacts to a single-file report. An overlayed file
/// is never touched by disk state: the report is discarded. Otherwise
/// the table and the change log move by the four-way table: absent and
/// still absent is a no-op, newly present inserts and logs `AddFile`,
/// newly absent tombstones and logs `RemoveFile`, and present text is
/// replaced, and `ChangeFile` logged, only when it differs.
pub open spec fn spec_apply_single(
    files: Seq<FileRec>,
    pending: Seq<ChangeRec>,
    r: SingleReport,
) -> (Seq<FileRec>, Seq<ChangeRec>) {
    match spec_find_live(files, r.root, r.path) {
        Some(i) => if files[i].is_overlayed {
            (files, pending)
        } else {
            match r.text {
                None => (
                    spec_tombstone(files, i),
                    pending.push(
                        ChangeRec::RemoveFile {
                            root: r.root,
                            file: VfsFile(i as u32),
                            path: r.path,
                        },
                    ),
                ),
                Some(t) => if files[i].text != t {
                    (
                        spec_set_text(files, i, t, false),
                        pending.push(ChangeRec::ChangeFile { file: VfsFile(i as u32), text: t }),
                    )
                } else {
                    (files, pending)
                },
            }
        },
        None => match r.text {
            None => (files, pending),
            Some(t) => (
                spec_add_file(files, r.root, r.path, t, r.line_endings, false),
                pending.push(
                    ChangeRec::AddFile {
                        root: r.root,
                        file: VfsFile(files.len() as u32),
                        path: r.path,
                        text: t,
                    },
                ),
            ),
        },
    }
}

/// How the controller folds a bulk load into the table, from entry `k`
/// on. A path that already has a live file, an overlay opened before the
/// scan finished included, keeps its slot and its current text; any
/// other scanned file is inserted disk-backed. `acc` collects the file
/// list of the one `AddRoot` change the fold emits.
pub open spec fn spec_apply_bulk_from(
    files: Seq<FileRec>,
    root: VfsRoot,
    incoming: Seq<(Seq<char>, Seq<char>, LineEndings)>,
    k: int,
    acc: Seq<(VfsFile, Seq<char>, Seq<char>)>,
) -> (Seq<FileRec>, Seq<(VfsFile, Seq<char>, Seq<char>)>)
    decreases incoming.len() - k,
{
    if k < 0 || k >= incoming.len() {
        (files, acc)
    } else {
        let p = incoming[k].0;
        let t = incoming[k].1;
        let le = incoming[k].2;
        match spec_find_live(files, root, p) {
            Some(i) => spec_apply_bulk_from(
                files,
                root,
                incoming,
                k + 1,
                acc.push((VfsFile(i as u32), p, files[i].text)),
            ),
            None => spec_apply_bulk_from(
                spec_add_file(files, root, p, t, le, false),
                root,
                incoming,
                k + 1,
                acc.push((VfsFile(files.len() as u32), p, t)),
            ),
        }
    }
}

/// The file table's invariant, relative to the number of configured
/// roots: every live slot points at a configured root, and within one
/// root a path has at most one live slot.
pub open spec fn files_wf(files: Seq<FileRec>, nroots: int) -> bool {
    &&& forall|i: int|
        0 <= i < files.len() && (#[trigger] files[i]).live ==> files[i].root.0 < nroots
    &&& forall|i: int, j: int|
        0 <= i < j < files.len() && (#[trigger] files[i]).live && (#[trigger] files[j]).live ==> !(
        files[i].root == files[j].root && files[i].path == files[j].path)
}

pub proof fn lemma_files_wf_add(
    files: Seq<FileRec>,
    nroots: int,
    root: VfsRoot,
    path: Seq<char>,
    text: Seq<char>,
    line_endings: LineEndings,
    is_overlayed: bool,
)
    requires
        files_wf(files, nroots),
        spec_find_live(files, root, path) is None,
        root.0 < nroots,
    ensures
        files_wf(spec_add_file(files, root, path, text, line_endings, is_overlayed), nroots),
{
    lemma_find_live(files, root, path);
    let post = spec_add_file(files, root, path, text, line_endings, is_overlayed);
    assert forall|i: int, j: int|
        0 <= i < j < post.len() && (#[trigger] post[i]).live && (#[trigger] post[j]).live implies !(
    post[i].root == post[j].root && post[i].path == post[j].path) by {
        if j == files.len() {
            assert(!live_match(files, i, root, path));
        }
    }
}

pub proof fn lemma_files_wf_set_text(
    files: Seq<FileRec>,
    nroots: int,
    i: int,
    text: Seq<char>,
    is_overlayed: bool,
)
    requires
        files_wf(files, nroots),
        0 <= i < files.len(),
    ensures
        files_wf(spec_set_text(files, i, text, is_overlayed), nroots),
{
    let post = spec_set_text(files, i, text, is_overlayed);
    assert forall|m: int, j: int|
        0 <= m < j < post.len() && (#[trigger] post[m]).live && (#[trigger] post[j]).live implies !(
    post[m].root == post[j].root && post[m].path == post[j].path) by {
        assert(files[m].live && files[j].live);
    }
}

pub proof fn lemma_files_wf_tombstone(files: Seq<FileRec>, nroots: int, i: int)
    requires
        files_wf(files, nroots),
        0 <= i < files.len(),
    ensures
        files_wf(spec_tombstone(files, i), nroots),
{
    let post = spec_tombstone(files, i);
    assert forall|m: int, j: int|
        0 <= m < j < post.len() && (#[trigger] post[m]).live && (#[trigger] post[j]).live implies !(
    post[m].root == post[j].root && post[m].path == post[j].path) by {
        assert(files[m].live && files[j].live);
    }
}

/// The transition of `load`, given the result of path resolution.
pub open spec fn spec_load_at(
    found: Option<(int, Seq<char>)>,
    fm: Seq<FileRec>,
    cm: Seq<ChangeRec>,
    disk: Option<Seq<char>>,
) -> (Seq<FileRec>, Seq<ChangeRec>, Option<int>) {
    match found {
        None => (fm, cm, None),
        Some((ri, rel)) => {
            let root = VfsRoot(ri as u32);
            match spec_find_live(fm, root, rel) {
                Some(i) => (fm, cm, Some(i)),
                None => {
                    let t = match disk {
                        Some(raw) => normalized(raw),
                        None => Seq::<char>::empty(),
                    };
                    let le = match disk {
                        Some(raw) => flavor_of(raw),
                        None => LineEndings::Unix,
                    };
                    (
                        spec_add_file(fm, root, rel, t, le, false),
                        cm.push(
                            ChangeRec::AddFile {
                                root,
                                file: VfsFile(fm.len() as u32),
                                path: rel,
                                text: t,
                            },
                        ),
                        Some(fm.len() as int),
                    )
                },
            }
        },
    }
}

/// The transition of `add_file_overlay`, given the result of path
/// resolution.
pub open spec fn spec_add_overlay_at(
    found: Option<(int, Seq<char>)>,
    fm: Seq<FileRec>,
    cm: Seq<ChangeRec>,
    text: Seq<char>,
) -> (Seq<FileRec>, Seq<ChangeRec>, Option<int>) {
    let nt = normalized(text);
    let le = flavor_of(text);
    match found {
        None => (fm, cm, None),
        Some((ri, rel)) => {
            let root = VfsRoot(ri as u32);
            match spec_find_live(fm, root, rel) {
                Some(i) => (
                    spec_set_text(fm, i, nt, true),
                    cm.push(ChangeRec::ChangeFile { file: VfsFile(i as u32), text: nt }),
                    Some(i),
                ),
                None => (
                    spec_add_file(fm, root, rel, nt, le, true),
                    cm.push(
                        ChangeRec::AddFile {
                            root,
                            file: VfsFile(fm.len() as u32),
                            path: rel,
                            text: nt,
                        },
                    ),
                    Some(fm.len() as int),
                ),
            }
        },
    }
}

/// The transition of `change_file_overlay`, given the result of path
/// resolution.
pub open spec fn spec_change_overlay_at(
    found: Option<(int, Seq<char>)>,
    fm: Seq<FileRec>,
    cm: Seq<ChangeRec>,
    text: Seq<char>,
) -> (Seq<FileRec>, Seq<ChangeRec>) {
    let nt = normalized(text);
    match found {
        None => (fm, cm),
        Some((ri, rel)) => match spec_find_live(fm, VfsRoot(ri as u32), rel) {
            Some(i) => (
                spec_set_text(fm, i, nt, true),
                cm.push(ChangeRec::ChangeFile { file: VfsFile(i as u32), text: nt }),
            ),
            None => (fm, cm),
        },
    }
}

/// The virtual file system: the single-threaded owner of the file table,
/// the root registry and the pending change log.
///
/// The host wires it to an I/O worker: `new` hands back the root handles
/// to scan, the worker's results come back through `handle_task`, and
/// overlay commands arrive directly. `commit_changes` drains the log.
pub struct Vfs<F> {
    pub roots: Roots<F>,
    pub files: Vec<VfsFileData>,
    pub pending_changes: Vec<VfsChange>,
}

impl<F: Filter> Vfs<F> {
    /// The mathematical shadow of the file table.
    pub open spec fn files_model(self) -> Seq<FileRec> {
        self.files@.map_values(|fd: VfsFileData| fd@)
    }

    /// The mathematical shadow of the pending change log.
    pub open spec fn changes_model(self) -> Seq<ChangeRec> {
        self.pending_changes@.map_values(|c: VfsChange| c@)
    }

    /// The table's invariant: handles fit in 32 bits, every live slot
    /// points at a configured root, and within one root a path has at
    /// most one live slot.
    pub open spec fn wf(self) -> bool {
        &&& self.roots.wf()
        &&& self.files@.len() <= u32::MAX
        &&& files_wf(self.files_model(), self.roots.roots@.len() as int)
    }

    /// Builds the controller: constructs the root registry and returns,
    /// beside it, one handle per configured root, in registry order. The
    /// host asks its I/O worker to scan each returned root and feeds the
    /// results back through `handle_task`.
    pub fn new(entries: Vec<RootEntry<F>>) -> (r: (Vfs<F>, Vec<VfsRoot>))
        requires
            entries@.len() <= u32::MAX,
        ensures
            r.0.wf(),
            spec_built_from(r.0.roots.roots@, entries@),
            r.0.files_model() == Seq::<FileRec>::empty(),
            r.0.changes_model() == Seq::<ChangeRec>::empty(),
            r.1@.len() == r.0.roots.roots@.len(),
            forall|i: int| 0 <= i < r.1@.len() ==> (#[trigger] r.1@[i]).0 == i,
    {
        let roots = Roots::new(entries);
        let n: usize = roots.len();
        let mut handles: Vec<VfsRoot> = Vec::new();
        let mut i: usize = 0;
        while i < n
            invariant
                0 <= i <= n,
                n <= u32::MAX,
                handles@.len() == i,
                forall|m: int| 0 <= m < i ==> (#[trigger] handles@[m]).0 == m,
            decreases n - i,
        {
            handles.push(VfsRoot(i as u32));
            i = i + 1;
        }
        let vfs = Vfs { roots, files: Vec::new(), pending_changes: Vec::new() };
        proof {
            assert(vfs.files_model() =~= Seq::<FileRec>::empty());
            assert(vfs.changes_model() =~= Seq::<ChangeRec>::empty());
        }
        (vfs, handles)
    }

    /// How many roots are configured.
    pub fn n_roots(&self) -> (r: usize)
        ensures
            r == self.roots.roots@.len(),
    {
        self.roots.len()
    }

    /// The configured path of `root`.
    pub fn root2path(&self, root: VfsRoot) -> (r: String)
        requires
            root.0 < self.roots.roots@.len(),
        ensures
            r@ == self.roots.roots@[root.0 as int].path@,
    {
        self.roots.path(root).clone()
    }

    /// The live file the registry resolves `path` to, if any.
    pub open spec fn spec_path2file(self, path: Seq<char>) -> Option<int> {
        match self.roots.spec_find(path, FileType::File) {
            Some((ri, rel)) => spec_find_live(self.files_model(), VfsRoot(ri as u32), rel),
            None => None,
        }
    }

    /// Resolves an absolute path to the live file at it, or `None` when
    /// no root owns the path or no file is loaded there.
    pub fn path2file(&self, path: &str) -> (r: Option<VfsFile>)
        requires
            self.wf(),
        ensures
            match r {
                Some(f) => self.spec_path2file(path@) == Some(f.0 as int),
                None => self.spec_path2file(path@) is None,
            },
    {
        match self.roots.find(path, FileType::File) {
            Some((root, rel)) => self.find_file(root, &rel),
            None => None,
        }
    }

    /// The absolute path of the live file `file`: its root's path,
    /// followed by its root-relative path.
    pub fn file2path(&self, file: VfsFile) -> (r: String)
        requires
            self.wf(),
            file.0 < self.files@.len(),
            self.files_model()[file.0 as int].live,
        ensures
            r@ == spec_join(
                self.roots.roots@[self.files_model()[file.0 as int].root.0 as int].path@,
                self.files_model()[file.0 as int].path,
            ),
    {
        let fd = &self.files[file.0 as usize];
        self.roots.join(fd.root, fd.path.as_str())
    }

    /// The line-ending flavor recorded for `file`.
    pub fn file_line_endings(&self, file: VfsFile) -> (r: LineEndings)
        requires
            file.0 < self.files@.len(),
        ensures
            r == self.files_model()[file.0 as int].line_endings,
    {
        self.files[file.0 as usize].line_endings
    }

    /// Hands the accumulated changes to the host and clears the log.
    /// The table itself does not move.
    pub fn commit_changes(&mut self) -> (r: Vec<VfsChange>)
        ensures
            final(self).roots == old(self).roots,
            final(self).files == old(self).files,
            final(self).pending_changes@.len() == 0,
            r@ == old(self).pending_changes@,
    {
        let mut out: Vec<VfsChange> = Vec::new();
        core::mem::swap(&mut out, &mut self.pending_changes);
        out
    }

    /// The live slot holding `(root, path)`, as a handle.
    fn find_file(&self, root: VfsRoot, path: &String) -> (r: Option<VfsFile>)
        requires
            self.wf(),
        ensures
            match r {
                Some(f) => spec_find_live(self.files_model(), root, path@) == Some(f.0 as int),
                None => spec_find_live(self.files_model(), root, path@) is None,
            },
    {
        let n: usize = self.files.len();
        let mut i: usize = 0;
        while i < n
            invariant
                0 <= i <= n,
                n == self.files@.len(),
                n <= u32::MAX,
                spec_find_live(self.files_model(), root, path@) == spec_find_live_from(
                    self.files_model(),
                    root,
                    path@,
                    i as int,
                ),
            decreases n - i,
        {
            let fd = &self.files[i];
            if fd.live && fd.root == root && fd.path == *path {
                proof {
                    assert(live_match(self.files_model(), i as int, root, path@));
                }
                return Some(VfsFile(i as u32));
            }
            proof {
                assert(!live_match(self.files_model(), i as int, root, path@));
            }
            i = i + 1;
        }
        None
    }

    /// The transition of `load`: resolve the path; hand back the live
    /// file when one is already there; otherwise insert a disk-backed
    /// file holding the normalized disk text, an empty Unix-flavored one
    /// when the disk had nothing, and log `AddFile`.
    pub open spec fn spec_load(self, path: Seq<char>, disk: Option<Seq<char>>) -> (
        Seq<FileRec>,
        Seq<ChangeRec>,
        Option<int>,
    ) {
        spec_load_at(
            self.roots.spec_find(path, FileType::File),
            self.files_model(),
            self.changes_model(),
            disk,
        )
    }

    /// Idempotent eager load. `disk` carries what the host read at
    /// `path`, raw: `None` when the file was absent or unreadable. When
    /// the file is already in the table the disk text is ignored and no
    /// change is logged; repeating the call returns the same handle.
    pub fn load(&mut self, path: &str, disk: Option<String>) -> (r: Option<VfsFile>)
        requires
            old(self).wf(),
            old(self).files@.len() < u32::MAX,
        ensures
            final(self).wf(),
            final(self).roots == old(self).roots,
            final(self).files_model() == old(self).spec_load(path@, opt_text_view(disk)).0,
            final(self).changes_model() == old(self).spec_load(path@, opt_text_view(disk)).1,
            match r {
                Some(f) => old(self).spec_load(path@, opt_text_view(disk)).2 == Some(f.0 as int),
                None => old(self).spec_load(path@, opt_text_view(disk)).2 is None,
            },
    {
        match self.roots.find(path, FileType::File) {
            None => None,
            Some((root, rel)) => match self.find_file(root, &rel) {
                Some(f) => Some(f),
                None => {
                    let (text, le) = match disk {
                        Some(raw) => {
                            let mut raw = raw;
                            let le = normalize_newlines(&mut raw);
                            (raw, le)
                        },
                        None => (String::new(), LineEndings::Unix),
                    };
                    proof {
                        lemma_files_wf_add(
                            self.files_model(),
                            self.roots.roots@.len() as int,
                            root,
                            rel@,
                            text@,
                            le,
                            false,
                        );
                    }
                    let f = self.add_file_event(root, rel, text, le, false);
                    Some(f)
                },
            },
        }
    }

    /// The transition of `add_file_overlay`: normalize the text, resolve
    /// the path; an existing file takes the overlay text and is marked
    /// overlayed, with `ChangeFile` logged; an unknown path inserts an
    /// overlayed file and logs `AddFile`; an unresolvable path does
    /// nothing.
    pub open spec fn spec_add_file_overlay(self, path: Seq<char>, text: Seq<char>) -> (
        Seq<FileRec>,
        Seq<ChangeRec>,
        Option<int>,
    ) {
        spec_add_overlay_at(
            self.roots.spec_find(path, FileType::File),
            self.files_model(),
            self.changes_model(),
            text,
        )
    }

    /// Opens an editor buffer over `path`. From here on, disk reports
    /// for the file are discarded until the overlay is removed.
    pub fn add_file_overlay(&mut self, path: &str, text: String) -> (r: Option<VfsFile>)
        requires
            old(self).wf(),
            old(self).files@.len() < u32::MAX,
        ensures
            final(self).wf(),
            final(self).roots == old(self).roots,
            final(self).files_model() == old(self).spec_add_file_overlay(path@, text@).0,
            final(self).changes_model() == old(self).spec_add_file_overlay(path@, text@).1,
            match r {
                Some(f) => old(self).spec_add_file_overlay(path@, text@).2 == Some(f.0 as int),
                None => old(self).spec_add_file_overlay(path@, text@).2 is None,
            },
    {
        let mut text = text;
        let le = normalize_newlines(&mut text);
        match self.roots.find(path, FileType::File) {
            None => None,
            Some((root, rel)) => match self.find_file(root, &rel) {
                Some(f) => {
                    proof {
                        lemma_find_live(self.files_model(), root, rel@);
                        lemma_files_wf_set_text(
                            self.files_model(),
                            self.roots.roots@.len() as int,
                            f.0 as int,
                            text@,
                            true,
                        );
                    }
                    self.change_file_event(f, text, true);
                    Some(f)
                },
                None => {
                    proof {
                        lemma_files_wf_add(
                            self.files_model(),
                            self.roots.roots@.len() as int,
                            root,
                            rel@,
                            text@,
                            le,
                            true,
                        );
                    }
                    let f = self.add_file_event(root, rel, text, le, true);
                    Some(f)
                },
            },
        }
    }

    /// The transition of `change_file_overlay`: the resolved file takes
    /// the normalized text and stays overlayed, and `ChangeFile` is
    /// logged; an unresolvable path does nothing.
    pub open spec fn spec_change_file_overlay(self, path: Seq<char>, text: Seq<char>) -> (
        Seq<FileRec>,
        Seq<ChangeRec>,
    ) {
        spec_change_overlay_at(
            self.roots.spec_find(path, FileType::File),
            self.files_model(),
            self.changes_model(),
            text,
        )
    }

    /// Replaces the text of an existing overlay. Calling this for a
    /// path whose file was never added is a programmer error: the
    /// caller must ensure the file exists wherever the path resolves.
    pub fn change_file_overlay(&mut self, path: &str, new_text: String)
        requires
            old(self).wf(),
            match old(self).roots.spec_find(path@, FileType::File) {
                Some((ri, rel)) => spec_find_live(
                    old(self).files_model(),
                    VfsRoot(ri as u32),
                    rel,
                ) is Some,
                None => true,
            },
        ensures
            final(self).wf(),
            final(self).roots == old(self).roots,
            final(self).files_model() == old(self).spec_change_file_overlay(path@, new_text@).0,
            final(self).changes_model() == old(self).spec_change_file_overlay(
                path@,
                new_text@,
            ).1,
    {
        let mut new_text = new_text;
        let _le = normalize_newlines(&mut new_text);
        match self.roots.find(path, FileType::File) {
            None => {},
            Some((root, rel)) => match self.find_file(root, &rel) {
                Some(f) => {
                    proof {
                        lemma_find_live(self.files_model(), root, rel@);
                        lemma_files_wf_set_text(
                            self.files_model(),
                            self.roots.roots@.len() as int,
                            f.0 as int,
                            new_text@,
                            true,
                        );
                    }
                    self.change_file_event(f, new_text, true);
                },
                None => {
                    proof {
                        assert(false);
                    }
                },
            },
        }
    }

    /// The transition of `remove_file_overlay`: the resolved file goes
    /// back to the disk's view. With a readable disk text it takes that
    /// text, as read, and is no longer overlayed, with `ChangeFile`
    /// logged; with the file gone from disk it is tombstoned and
    /// `RemoveFile` logged.
    pub open spec fn spec_remove_file_overlay(
        self,
        path: Seq<char>,
        disk: Option<Seq<char>>,
    ) -> (Seq<FileRec>, Seq<ChangeRec>, Option<int>) {
        let fm = self.files_model();
        let cm = self.changes_model();
        match self.roots.spec_find(path, FileType::File) {
            None => (fm, cm, None),
            Some((ri, rel)) => {
                let root = VfsRoot(ri as u32);
                match spec_find_live(fm, root, rel) {
                    Some(i) => match disk {
                        Some(raw) => (
                            spec_set_text(fm, i, raw, false),
                            cm.push(
                                ChangeRec::ChangeFile { file: VfsFile(i as u32), text: raw },
                            ),
                            Some(i),
                        ),
                        None => (
                            spec_tombstone(fm, i),
                            cm.push(
                                ChangeRec::RemoveFile {
                                    root,
                                    file: VfsFile(i as u32),
                                    path: rel,
                                },
                            ),
                            Some(i),
                        ),
                    },
                    None => (fm, cm, None),
                }
            },
        }
    }

    /// Closes the editor buffer over `path` and restores the disk's
    /// view. `disk` carries what the host read back from the file, raw:
    /// `None` when it is gone or unreadable, in which case the file is
    /// removed. Calling this for a path whose file was never added is a
    /// programmer error, as for `change_file_overlay`.
    pub fn remove_file_overlay(&mut self, path: &str, disk: Option<String>) -> (r: Option<
        VfsFile,
    >)
        requires
            old(self).wf(),
            match old(self).roots.spec_find(path@, FileType::File) {
                Some((ri, rel)) => spec_find_live(
                    old(self).files_model(),
                    VfsRoot(ri as u32),
                    rel,
                ) is Some,
                None => true,
            },
        ensures
            final(self).wf(),
            final(self).roots == old(self).roots,
            final(self).files_model() == old(self).spec_remove_file_overlay(
                path@,
                opt_text_view(disk),
            ).0,
            final(self).changes_model() == old(self).spec_remove_file_overlay(
                path@,
                opt_text_view(disk),
            ).1,
            match r {
                Some(f) => old(self).spec_remove_file_overlay(path@, opt_text_view(disk)).2
                    == Some(f.0 as int),
                None => old(self).spec_remove_file_overlay(path@, opt_text_view(disk)).2 is None,
            },
    {
        match self.roots.find(path, FileType::File) {
            None => None,
            Some((root, rel)) => match self.find_file(root, &rel) {
                Some(f) => {
                    proof {
                        lemma_find_live(self.files_model(), root, rel@);
                    }
                    match disk {
                        Some(text) => {
                            proof {
                                lemma_files_wf_set_text(
                                    self.files_model(),
                                    self.roots.roots@.len() as int,
                                    f.0 as int,
                                    text@,
                                    false,
                                );
                            }
                            self.change_file_event(f, text, false);
                        },
                        None => {
                            proof {
                                lemma_files_wf_tombstone(
                                    self.files_model(),
                                    self.roots.roots@.len() as int,
                                    f.0 as int,
                                );
                            }
                            self.remove_file_event(root, rel, f);
                        },
                    }
                    Some(f)
                },
                None => {
                    proof {
                        assert(false);
                    }
                    None
                },
            },
        }
    }

    /// Applies one worker result to the table, under overlay-wins
    /// precedence.
    ///
    /// A bulk load folds the scanned files in as `spec_apply_bulk_from`
    /// says, keeping the slot and current text of every path already
    /// present, overlays included, and logs a single `AddRoot` carrying
    /// the whole listing. A single-file report moves the table as
    /// `spec_apply_single` says; in particular a report for an overlayed
    /// file is discarded, and a report repeating the current text logs
    /// nothing.
    pub fn handle_task(&mut self, task: VfsTask)
        requires
            old(self).wf(),
            match task.0 {
                TaskResult::BulkLoadRoot { root, files } => root.0 < old(
                    self,
                ).roots.roots@.len() && old(self).files@.len() + files@.len() <= u32::MAX,
                TaskResult::SingleFile { root, .. } => root.0 < old(self).roots.roots@.len() && old(
                    self,
                ).files@.len() < u32::MAX,
            },
        ensures
            final(self).wf(),
            final(self).roots == old(self).roots,
            match task.0 {
                TaskResult::BulkLoadRoot { root, files } => {
                    let folded = spec_apply_bulk_from(
                        old(self).files_model(),
                        root,
                        bulk_files_view(files@),
                        0,
                        Seq::empty(),
                    );
                    final(self).files_model() == folded.0 && final(self).changes_model() == old(
                        self,
                    ).changes_model().push(ChangeRec::AddRoot { root, files: folded.1 })
                },
                TaskResult::SingleFile { root, path, text, line_endings } => {
                    let stepped = spec_apply_single(
                        old(self).files_model(),
                        old(self).changes_model(),
                        SingleReport { root, path: path@, text: opt_text_view(text), line_endings },
                    );
                    final(self).files_model() == stepped.0 && final(self).changes_model()
                        == stepped.1
                },
            },
    {
        match task.0 {
            TaskResult::BulkLoadRoot { root, files } => {
                let ghost fm0 = self.files_model();
                let ghost inc = bulk_files_view(files@);
                let mut cur_files: Vec<(VfsFile, String, String)> = Vec::new();
                let n: usize = files.len();
                let mut k: usize = 0;
                proof {
                    assert(root_files_view(cur_files@) =~= Seq::<
                        (VfsFile, Seq<char>, Seq<char>),
                    >::empty());
                }
                while k < n
                    invariant
                        0 <= k <= n,
                        n == files@.len(),
                        inc == bulk_files_view(files@),
                        self.wf(),
                        self.roots == old(self).roots,
                        self.pending_changes == old(self).pending_changes,
                        root.0 < self.roots.roots@.len(),
                        self.files@.len() <= old(self).files@.len() + k,
                        old(self).files@.len() + n <= u32::MAX,
                        spec_apply_bulk_from(fm0, root, inc, 0, Seq::empty())
                            == spec_apply_bulk_from(
                            self.files_model(),
                            root,
                            inc,
                            k as int,
                            root_files_view(cur_files@),
                        ),
                    decreases n - k,
                {
                    proof {
                        assert(inc[k as int] == (files@[k as int].0@, files@[k as int].1@, files@[k as int].2));
                    }
                    let p: String = files[k].0.clone();
                    let ghost accb = root_files_view(cur_files@);
                    let ghost fmb = self.files_model();
                    match self.find_file(root, &p) {
                        Some(f) => {
                            proof {
                                lemma_find_live(self.files_model(), root, p@);
                            }
                            let t: String = self.files[f.0 as usize].text.clone();
                            cur_files.push((f, p, t));
                            proof {
                                assert(root_files_view(cur_files@) =~= accb.push(
                                    (f, inc[k as int].0, fmb[f.0 as int].text),
                                ));
                            }
                        },
                        None => {
                            let t: String = files[k].1.clone();
                            let le: LineEndings = files[k].2;
                            let t2: String = t.clone();
                            proof {
                                lemma_files_wf_add(
                                    self.files_model(),
                                    self.roots.roots@.len() as int,
                                    root,
                                    p@,
                                    t@,
                                    le,
                                    false,
                                );
                            }
                            let f = self.raw_add_file(root, p.clone(), t, le, false);
                            cur_files.push((f, p, t2));
                            proof {
                                assert(root_files_view(cur_files@) =~= accb.push(
                                    (f, inc[k as int].0, inc[k as int].1),
                                ));
                            }
                        },
                    }
                    k = k + 1;
                }
                proof {
                    assert(spec_apply_bulk_from(
                        self.files_model(),
                        root,
                        inc,
                        n as int,
                        root_files_view(cur_files@),
                    ) == (self.files_model(), root_files_view(cur_files@)));
                }
                let ghost before = self.changes_model();
                self.pending_changes.push(VfsChange::AddRoot { root, files: cur_files });
                proof {
                    assert(self.changes_model() =~= before.push(
                        ChangeRec::AddRoot {
                            root,
                            files: spec_apply_bulk_from(fm0, root, inc, 0, Seq::empty()).1,
                        },
                    ));
                }
            },
            TaskResult::SingleFile { root, path, text, line_endings } => {
                let existing = self.find_file(root, &path);
                proof {
                    lemma_find_live(self.files_model(), root, path@);
                }
                if let Some(f) = existing {
                    if self.files[f.0 as usize].is_overlayed {
                        return ;
                    }
                }
                match (existing, text) {
                    (Some(f), None) => {
                        proof {
                            lemma_files_wf_tombstone(
                                self.files_model(),
                                self.roots.roots@.len() as int,
                                f.0 as int,
                            );
                        }
                        self.remove_file_event(root, path, f);
                    },
                    (None, Some(t)) => {
                        proof {
                            lemma_files_wf_add(
                                self.files_model(),
                                self.roots.roots@.len() as int,
                                root,
                                path@,
                                t@,
                                line_endings,
                                false,
                            );
                        }
                        self.add_file_event(root, path, t, line_endings, false);
                    },
                    (Some(f), Some(t)) => {
                        let same = self.files[f.0 as usize].text == t;
                        if !same {
                            proof {
                                lemma_files_wf_set_text(
                                    self.files_model(),
                                    self.roots.roots@.len() as int,
                                    f.0 as int,
                                    t@,
                                    false,
                                );
                            }
                            self.change_file_event(f, t, false);
                        }
                    },
                    (None, None) => {},
                }
            },
        }
    }

    /// Appends a live slot; no change is logged.
    fn raw_add_file(
        &mut self,
        root: VfsRoot,
        path: String,
        text: String,
        line_endings: LineEndings,
        is_overlayed: bool,
    ) -> (r: VfsFile)
        requires
            old(self).files@.len() < u32::MAX,
        ensures
            final(self).roots == old(self).roots,
            final(self).pending_changes == old(self).pending_changes,
            final(self).files@.len() == old(self).files@.len() + 1,
            final(self).files_model() == spec_add_file(
                old(self).files_model(),
                root,
                path@,
                text@,
                line_endings,
                is_overlayed,
            ),
            r.0 == old(self).files@.len(),
    {
        let file = VfsFile(self.files.len() as u32);
        let ghost before = self.files_model();
        self.files.push(VfsFileData { root, path, text, line_endings, is_overlayed, live: true });
        proof {
            assert(self.files_model() =~= spec_add_file(
                before,
                root,
                path@,
                text@,
                line_endings,
                is_overlayed,
            ));
        }
        file
    }

    /// Replaces a slot's text and overlay bit; no change is logged.
    fn raw_change_file(&mut self, file: VfsFile, new_text: String, is_overlayed: bool)
        requires
            file.0 < old(self).files@.len(),
        ensures
            final(self).roots == old(self).roots,
            final(self).pending_changes == old(self).pending_changes,
            final(self).files@.len() == old(self).files@.len(),
            final(self).files_model() == spec_set_text(
                old(self).files_model(),
                file.0 as int,
                new_text@,
                is_overlayed,
            ),
    {
        let ghost before = self.files_model();
        let i = file.0 as usize;
        self.files[i].text = new_text;
        self.files[i].is_overlayed = is_overlayed;
        proof {
            assert(self.files_model() =~= spec_set_text(
                before,
                file.0 as int,
                new_text@,
                is_overlayed,
            ));
        }
    }

    /// Tombstones a slot; no change is logged.
    fn raw_remove_file(&mut self, file: VfsFile)
        requires
            file.0 < old(self).files@.len(),
        ensures
            final(self).roots == old(self).roots,
            final(self).pending_changes == old(self).pending_changes,
            final(self).files@.len() == old(self).files@.len(),
            final(self).files_model() == spec_tombstone(old(self).files_model(), file.0 as int),
    {
        let ghost before = self.files_model();
        let i = file.0 as usize;
        self.files[i].path = String::new();
        self.files[i].text = String::new();
        self.files[i].live = false;
        proof {
            assert(self.files_model() =~= spec_tombstone(before, file.0 as int));
        }
    }

    /// Inserts a file and logs `AddFile`.
    fn add_file_event(
        &mut self,
        root: VfsRoot,
        path: String,
        text: String,
        line_endings: LineEndings,
        is_overlay: bool,
    ) -> (r: VfsFile)
        requires
            old(self).files@.len() < u32::MAX,
        ensures
            final(self).roots == old(self).roots,
            final(self).files@.len() == old(self).files@.len() + 1,
            final(self).files_model() == spec_add_file(
                old(self).files_model(),
                root,
                path@,
                text@,
                line_endings,
                is_overlay,
            ),
            final(self).changes_model() == old(self).changes_model().push(
                ChangeRec::AddFile {
                    root,
                    file: VfsFile(old(self).files@.len() as u32),
                    path: path@,
                    text: text@,
                },
            ),
            r.0 == old(self).files@.len(),
    {
        let path2 = path.clone();
        let text2 = text.clone();
        let file = self.raw_add_file(root, path, text, line_endings, is_overlay);
        let ghost before = self.changes_model();
        self.pending_changes.push(VfsChange::AddFile { root, file, path: path2, text: text2 });
        proof {
            assert(self.changes_model() =~= before.push(
                ChangeRec::AddFile { root, file, path: path2@, text: text2@ },
            ));
        }
        file
    }

    /// Replaces a file's text and logs `ChangeFile`.
    fn change_file_event(&mut self, file: VfsFile, text: String, is_overlay: bool)
        requires
            file.0 < old(self).files@.len(),
        ensures
            final(self).roots == old(self).roots,
            final(self).files@.len() == old(self).files@.len(),
            final(self).files_model() == spec_set_text(
                old(self).files_model(),
                file.0 as int,
                text@,
                is_overlay,
            ),
            final(self).changes_model() == old(self).changes_model().push(
                ChangeRec::ChangeFile { file, text: text@ },
            ),
    {
        let text2 = text.clone();
        self.raw_change_file(file, text, is_overlay);
        let ghost before = self.changes_model();
        self.pending_changes.push(VfsChange::ChangeFile { file, text: text2 });
        proof {
            assert(self.changes_model() =~= before.push(
                ChangeRec::ChangeFile { file, text: text2@ },
            ));
        }
    }

    /// Tombstones a file and logs `RemoveFile`.
    fn remove_file_event(&mut self, root: VfsRoot, path: String, file: VfsFile)
        requires
            file.0 < old(self).files@.len(),
        ensures
            final(self).roots == old(self).roots,
            final(self).files@.len() == old(self).files@.len(),
            final(self).files_model() == spec_tombstone(old(self).files_model(), file.0 as int),
            final(self).changes_model() == old(self).changes_model().push(
                ChangeRec::RemoveFile { root, file, path: path@ },
            ),
    {
        self.raw_remove_file(file);
        let ghost before = self.changes_model();
        let ghost p = path@;
        self.pending_changes.push(VfsChange::RemoveFile { root, file, path });
        proof {
            assert(self.changes_model() =~= before.push(
                ChangeRec::RemoveFile { root, file, path: p },
            ));
        }
    }
}

/// Which file a change names; every file of an `AddRoot` listing counts.
pub open spec fn change_mentions(c: ChangeRec, f: VfsFile) -> bool {
    match c {
        ChangeRec::AddRoot { files, .. } => exists|k: int|
            0 <= k < files.len() && (#[trigger] files[k]).0 == f,
        ChangeRec::AddFile { file, .. } => file == f,
        ChangeRec::RemoveFile { file, .. } => file == f,
        ChangeRec::ChangeFile { file, .. } => file == f,
    }
}

/// A sequence of single-file disk reports applied in order.
pub open spec fn spec_apply_reports(
    files: Seq<FileRec>,
    pending: Seq<ChangeRec>,
    reports: Seq<SingleReport>,
) -> (Seq<FileRec>, Seq<ChangeRec>)
    decreases reports.len(),
{
    if reports.len() == 0 {
        (files, pending)
    } else {
        let stepped = spec_apply_single(files, pending, reports[0]);
        spec_apply_reports(stepped.0, stepped.1, reports.skip(1))
    }
}

proof fn lemma_find_live_from_at(
    files: Seq<FileRec>,
    root: VfsRoot,
    path: Seq<char>,
    i: int,
    j: int,
)
    requires
        0 <= i <= j < files.len(),
        live_match(files, j, root, path),
        forall|m: int| i <= m < j ==> !live_match(files, m, root, path),
    ensures
        spec_find_live_from(files, root, path, i) == Some(j),
    decreases j - i,
{
    if i < j {
        lemma_find_live_from_at(files, root, path, i + 1, j);
    }
}

/// The first live match is at `j` when `j` matches and nothing before
/// it does.
pub proof fn lemma_find_live_at(files: Seq<FileRec>, root: VfsRoot, path: Seq<char>, j: int)
    requires
        0 <= j < files.len(),
        live_match(files, j, root, path),
        forall|m: int| 0 <= m < j ==> !live_match(files, m, root, path),
    ensures
        spec_find_live(files, root, path) == Some(j),
{
    lemma_find_live_from_at(files, root, path, 0, j);
}

/// One disk report leaves an overlayed slot exactly as it is and logs
/// nothing that names it.
pub proof fn lemma_overlay_shielded_step(
    files: Seq<FileRec>,
    pending: Seq<ChangeRec>,
    r: SingleReport,
    i: int,
)
    requires
        files.len() <= u32::MAX,
        0 <= i < files.len(),
        files[i].live,
        files[i].is_overlayed,
    ensures
        ({
            let stepped = spec_apply_single(files, pending, r);
            &&& files.len() <= stepped.0.len() <= files.len() + 1
            &&& stepped.0[i] == files[i]
            &&& pending.len() <= stepped.1.len()
            &&& stepped.1.take(pending.len() as int) == pending
            &&& forall|m: int|
                pending.len() <= m < stepped.1.len() ==> !change_mentions(
                    #[trigger] stepped.1[m],
                    VfsFile(i as u32),
                )
        }),
{
    lemma_find_live(files, r.root, r.path);
    let stepped = spec_apply_single(files, pending, r);
    match spec_find_live(files, r.root, r.path) {
        Some(j) => {
            if files[j].is_overlayed {
                assert(stepped.1.take(pending.len() as int) =~= pending);
            } else {
                assert(j != i);
                assert(stepped.1.take(pending.len() as int) =~= pending);
            }
        },
        None => {
            assert(!live_match(files, i, r.root, r.path));
            assert(stepped.1.take(pending.len() as int) =~= pending);
        },
    }
}

/// Overlay precedence: while a file is overlayed, no sequence of disk
/// reports moves its slot, and nothing the reports append to the change
/// log names its handle. Only the overlay calls themselves can touch
/// an overlayed file.
pub proof fn lemma_overlay_precedence(
    files: Seq<FileRec>,
    pending: Seq<ChangeRec>,
    reports: Seq<SingleReport>,
    i: int,
)
    requires
        files.len() + reports.len() <= u32::MAX,
        0 <= i < files.len(),
        files[i].live,
        files[i].is_overlayed,
    ensures
        ({
            let folded = spec_apply_reports(files, pending, reports);
            &&& files.len() <= folded.0.len() <= files.len() + reports.len()
            &&& folded.0[i] == files[i]
            &&& pending.len() <= folded.1.len()
            &&& folded.1.take(pending.len() as int) == pending
            &&& forall|m: int|
                pending.len() <= m < folded.1.len() ==> !change_mentions(
                    #[trigger] folded.1[m],
                    VfsFile(i as u32),
                )
        }),
    decreases reports.len(),
{
    let folded = spec_apply_reports(files, pending, reports);
    if reports.len() == 0 {
        assert(folded.1.take(pending.len() as int) =~= pending);
    } else {
        let stepped = spec_apply_single(files, pending, reports[0]);
        lemma_overlay_shielded_step(files, pending, reports[0], i);
        lemma_overlay_precedence(stepped.0, stepped.1, reports.skip(1), i);
        assert(folded == spec_apply_reports(stepped.0, stepped.1, reports.skip(1)));
        assert(folded.1.take(pending.len() as int) =~= pending) by {
            assert(folded.1.take(stepped.1.len() as int) == stepped.1);
            assert forall|m: int| 0 <= m < pending.len() implies folded.1[m] == pending[m] by {
                assert(folded.1.take(stepped.1.len() as int)[m] == folded.1[m]);
                assert(stepped.1.take(pending.len() as int)[m] == stepped.1[m]);
            }
        }
        assert forall|m: int|
            pending.len() <= m < folded.1.len() implies !change_mentions(
            #[trigger] folded.1[m],
            VfsFile(i as u32),
        ) by {
            if m < stepped.1.len() {
                assert(folded.1.take(stepped.1.len() as int)[m] == folded.1[m]);
                assert(folded.1[m] == stepped.1[m]);
            }
        }
    }
}

/// After a disk report for a file nobody overlays, the table shows
/// exactly what the report said: the reported text under that root and
/// path, or no live file at all when the report said the file is gone.
/// Slots of other files do not move. Folded over a drained event queue,
/// this is what makes the quiescent state agree with the disk.
pub proof fn lemma_single_report_reflects(
    files: Seq<FileRec>,
    pending: Seq<ChangeRec>,
    r: SingleReport,
    nroots: int,
)
    requires
        files_wf(files, nroots),
        match spec_find_live(files, r.root, r.path) {
            Some(i) => !files[i].is_overlayed,
            None => true,
        },
    ensures
        ({
            let stepped = spec_apply_single(files, pending, r);
            &&& match r.text {
                Some(t) => spec_find_live(stepped.0, r.root, r.path) matches Some(j)
                    && stepped.0[j].live && stepped.0[j].text == t && !stepped.0[j].is_overlayed,
                None => spec_find_live(stepped.0, r.root, r.path) is None,
            }
            &&& forall|m: int|
                0 <= m < files.len() && !((#[trigger] files[m]).root == r.root && files[m].path
                    == r.path) ==> stepped.0[m] == files[m]
        }),
{
    lemma_find_live_from(files, r.root, r.path, 0);
    let stepped = spec_apply_single(files, pending, r);
    match spec_find_live(files, r.root, r.path) {
        Some(i) => {
            match r.text {
                Some(t) => {
                    if files[i].text != t {
                        lemma_find_live_at(stepped.0, r.root, r.path, i);
                    }
                },
                None => {
                    assert forall|m: int| 0 <= m < stepped.0.len() implies !live_match(
                        stepped.0,
                        m,
                        r.root,
                        r.path,
                    ) by {
                        if m != i && live_match(stepped.0, m, r.root, r.path) {
                            assert(live_match(files, m, r.root, r.path));
                            if m < i {
                                assert(false);
                            } else {
                                assert(files[i].live && files[m].live);
                                assert(false);
                            }
                        }
                    }
                    lemma_find_live(stepped.0, r.root, r.path);
                },
            }
        },
        None => {
            match r.text {
                Some(t) => {
                    assert forall|m: int| 0 <= m < files.len() implies !live_match(
                        stepped.0,
                        m,
                        r.root,
                        r.path,
                    ) by {
                        assert(!live_match(files, m, r.root, r.path));
                        assert(stepped.0[m] == files[m]);
                    }
                    assert(live_match(stepped.0, files.len() as int, r.root, r.path));
                    lemma_find_live_at(stepped.0, r.root, r.path, files.len() as int);
                },
                None => {},
            }
        },
    }
}

/// Loading is idempotent: with the registry unchanged, a second `load`
/// of the same path finds what the first one put there, hands back the
/// same slot, and appends nothing to the change log, whatever either
/// read from disk.
pub proof fn lemma_load_idempotent(
    found: Option<(int, Seq<char>)>,
    fm: Seq<FileRec>,
    cm: Seq<ChangeRec>,
    disk1: Option<Seq<char>>,
    disk2: Option<Seq<char>>,
)
    ensures
        ({
            let once = spec_load_at(found, fm, cm, disk1);
            let again = spec_load_at(found, once.0, once.1, disk2);
            again.0 == once.0 && again.1 == once.1 && again.2 == once.2
        }),
{
    match found {
        None => {},
        Some((ri, rel)) => {
            let root = VfsRoot(ri as u32);
            lemma_find_live_from(fm, root, rel, 0);
            match spec_find_live(fm, root, rel) {
                Some(i) => {},
                None => {
                    let once = spec_load_at(found, fm, cm, disk1);
                    assert forall|m: int| 0 <= m < fm.len() implies !live_match(
                        once.0,
                        m,
                        root,
                        rel,
                    ) by {
                        assert(!live_match(fm, m, root, rel));
                        assert(once.0[m] == fm[m]);
                    }
                    assert(live_match(once.0, fm.len() as int, root, rel));
                    lemma_find_live_at(once.0, root, rel, fm.len() as int);
                },
            }
        },
    }
}

/// Opening an overlay at a path with no file yet and then changing it
/// with the same text appends exactly two changes, and exactly one of
/// them is a `ChangeFile`: the opening logs `AddFile`, the change logs
/// the one `ChangeFile`. The file ends overlayed, holding the
/// normalized text.
pub proof fn lemma_overlay_add_then_change(
    found: Option<(int, Seq<char>)>,
    fm: Seq<FileRec>,
    cm: Seq<ChangeRec>,
    text: Seq<char>,
)
    requires
        match found {
            Some((ri, rel)) => spec_find_live(fm, VfsRoot(ri as u32), rel) is None,
            None => true,
        },
    ensures
        ({
            let opened = spec_add_overlay_at(found, fm, cm, text);
            let changed = spec_change_overlay_at(found, opened.0, opened.1, text);
            let appended = changed.1.skip(cm.len() as int);
            match found {
                Some((ri, rel)) => {
                    &&& appended.len() == 2
                    &&& appended[0] is AddFile
                    &&& appended[1] is ChangeFile
                    &&& spec_find_live(changed.0, VfsRoot(ri as u32), rel) == Some(fm.len() as int)
                    &&& changed.0[fm.len() as int].text == normalized(text)
                    &&& changed.0[fm.len() as int].is_overlayed
                },
                None => appended.len() == 0,
            }
        }),
{
    let opened = spec_add_overlay_at(found, fm, cm, text);
    let changed = spec_change_overlay_at(found, opened.0, opened.1, text);
    match found {
        None => {
            assert(changed.1.skip(cm.len() as int) =~= Seq::<ChangeRec>::empty());
        },
        Some((ri, rel)) => {
            let root = VfsRoot(ri as u32);
            lemma_find_live_from(fm, root, rel, 0);
            assert forall|m: int| 0 <= m < fm.len() implies !live_match(
                opened.0,
                m,
                root,
                rel,
            ) by {
                assert(!live_match(fm, m, root, rel));
                assert(opened.0[m] == fm[m]);
            }
            assert(live_match(opened.0, fm.len() as int, root, rel));
            lemma_find_live_at(opened.0, root, rel, fm.len() as int);
            assert forall|m: int| 0 <= m < fm.len() implies !live_match(
                changed.0,
                m,
                root,
                rel,
            ) by {
                assert(!live_match(fm, m, root, rel));
                assert(changed.0[m] == fm[m]);
            }
            assert(live_match(changed.0, fm.len() as int, root, rel));
            lemma_find_live_at(changed.0, root, rel, fm.len() as int);
            assert(changed.1.skip(cm.len() as int) =~= seq![
                changed.1[cm.len() as int],
                changed.1[cm.len() as int + 1],
            ]);
        },
    }
}

/// One report moves a well-formed table to a well-formed table.
pub proof fn lemma_apply_single_wf(
    files: Seq<FileRec>,
    pending: Seq<ChangeRec>,
    r: SingleReport,
    nroots: int,
)
    requires
        files_wf(files, nroots),
        r.root.0 < nroots,
    ensures
        files_wf(spec_apply_single(files, pending, r).0, nroots),
{
    lemma_find_live(files, r.root, r.path);
    match spec_find_live(files, r.root, r.path) {
        Some(i) => {
            if !files[i].is_overlayed {
                match r.text {
                    None => lemma_files_wf_tombstone(files, nroots, i),
                    Some(t) => {
                        if files[i].text != t {
                            lemma_files_wf_set_text(files, nroots, i, t, false);
                        }
                    },
                }
            }
        },
        None => {
            match r.text {
                Some(t) => lemma_files_wf_add(
                    files,
                    nroots,
                    r.root,
                    r.path,
                    t,
                    r.line_endings,
                    false,
                ),
                None => {},
            }
        },
    }
}

/// The quiescent state agrees with the disk: drain any non-empty run of
/// reports for one file, none of whose slots is overlayed when the run
/// starts, and the table shows exactly what the last report said — the
/// last reported text under that root and path, or no live file at all
/// when the last report said the file is gone.
pub proof fn lemma_reports_reflect_last(
    files: Seq<FileRec>,
    pending: Seq<ChangeRec>,
    reports: Seq<SingleReport>,
    nroots: int,
    root: VfsRoot,
    path: Seq<char>,
)
    requires
        files_wf(files, nroots),
        root.0 < nroots,
        reports.len() > 0,
        forall|k: int|
            0 <= k < reports.len() ==> (#[trigger] reports[k]).root == root && reports[k].path
                == path,
        match spec_find_live(files, root, path) {
            Some(i) => !files[i].is_overlayed,
            None => true,
        },
    ensures
        ({
            let folded = spec_apply_reports(files, pending, reports);
            match reports.last().text {
                Some(t) => spec_find_live(folded.0, root, path) matches Some(j)
                    && folded.0[j].live && folded.0[j].text == t,
                None => spec_find_live(folded.0, root, path) is None,
            }
        }),
    decreases reports.len(),
{
    let stepped = spec_apply_single(files, pending, reports[0]);
    lemma_single_report_reflects(files, pending, reports[0], nroots);
    lemma_apply_single_wf(files, pending, reports[0], nroots);
    if reports.len() == 1 {
        assert(reports.last() == reports[0]);
        assert(spec_apply_reports(files, pending, reports) == spec_apply_reports(
            stepped.0,
            stepped.1,
            reports.skip(1),
        ));
    } else {
        let rest = reports.skip(1);
        assert forall|k: int| 0 <= k < rest.len() implies (#[trigger] rest[k]).root == root
            && rest[k].path == path by {
            assert(rest[k] == reports[k + 1]);
        }
        assert(rest.last() == reports.last());
        lemma_reports_reflect_last(stepped.0, stepped.1, rest, nroots, root, path);
    }
}

} // verus!
