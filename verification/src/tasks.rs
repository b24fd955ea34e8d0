use vstd::prelude::*;

use crate::filter::Filter;
use crate::line_endings::LineEndings;
use crate::normalize::{flavor_of, normalize_newlines, normalized};
use crate::roots::{FileType, RootData, Roots, VfsRoot};

verus! {

/// What the I/O worker sends to the controller.
#[derive(Debug)]
pub enum TaskResult {
    /// Every file found by the initial recursive scan of a root, with its
    /// normalized text and its on-disk line-ending flavor.
    BulkLoadRoot { root: VfsRoot, files: Vec<(String, String, LineEndings)> },
    /// The current on-disk state of a single file; `text` is `None` when
    /// the file is absent or unreadable.
    SingleFile { root: VfsRoot, path: String, text: Option<String>, line_endings: LineEndings },
}

/// Opaque envelope around a worker-produced result. The host forwards it
/// into `handle_task` on the controller thread.
#[derive(Debug)]
pub struct VfsTask(pub TaskResult);

/// The classified event vocabulary the I/O worker consumes.
#[derive(Debug, Clone, Copy, PartialEq, Eq, Structural)]
pub enum ChangeKind {
    Create,
    Write,
    Remove,
}

/// A raw notification from a platform watcher, with paths as plain
/// strings.
#[derive(Debug)]
pub enum RawEvent {
    NoticeWrite(String),
    NoticeRemove(String),
    Chmod(String),
    Rescan,
    Create(String),
    Write(String),
    Remove(String),
    Rename(String, String),
    Error(String),
}

/// Reclassifies a raw watcher notification into the worker's vocabulary:
/// notices, permission changes, rescans and errors are dropped, a rename
/// becomes a removal of the source and a creation of the destination, and
/// the rest pass through.
pub fn classify_change(event: RawEvent) -> (r: Vec<(String, ChangeKind)>)
    ensures
        match event {
            RawEvent::Create(p) => r@.len() == 1 && r@[0].0@ == p@ && r@[0].1
                == ChangeKind::Create,
            RawEvent::Write(p) => r@.len() == 1 && r@[0].0@ == p@ && r@[0].1 == ChangeKind::Write,
            RawEvent::Remove(p) => r@.len() == 1 && r@[0].0@ == p@ && r@[0].1
                == ChangeKind::Remove,
            RawEvent::Rename(src, dst) => r@.len() == 2 && r@[0].0@ == src@ && r@[0].1
                == ChangeKind::Remove && r@[1].0@ == dst@ && r@[1].1 == ChangeKind::Create,
            _ => r@.len() == 0,
        },
{
    match event {
        RawEvent::NoticeWrite(_) => Vec::new(),
        RawEvent::NoticeRemove(_) => Vec::new(),
        RawEvent::Chmod(_) => Vec::new(),
        RawEvent::Rescan => Vec::new(),
        RawEvent::Error(_) => Vec::new(),
        RawEvent::Create(p) => {
            let mut out: Vec<(String, ChangeKind)> = Vec::new();
            out.push((p, ChangeKind::Create));
            out
        },
        RawEvent::Write(p) => {
            let mut out: Vec<(String, ChangeKind)> = Vec::new();
            out.push((p, ChangeKind::Write));
            out
        },
        RawEvent::Remove(p) => {
            let mut out: Vec<(String, ChangeKind)> = Vec::new();
            out.push((p, ChangeKind::Remove));
            out
        },
        RawEvent::Rename(src, dst) => {
            let mut out: Vec<(String, ChangeKind)> = Vec::new();
            out.push((src, ChangeKind::Remove));
            out.push((dst, ChangeKind::Create));
            out
        },
    }
}

/// The view of a scanned listing: pairs of an absolute path and the raw
/// text read from it.
pub open spec fn listing_view(v: Seq<(String, String)>) -> Seq<(Seq<char>, Seq<char>)> {
    v.map_values(|t: (String, String)| (t.0@, t.1@))
}

/// The view of the file list of a bulk load: relative path, normalized
/// text, line-ending flavor.
pub open spec fn bulk_files_view(v: Seq<(String, String, LineEndings)>) -> Seq<
    (Seq<char>, Seq<char>, LineEndings),
> {
    v.map_values(|t: (String, String, LineEndings)| (t.0@, t.1@, t.2))
}

/// Which files of a scanned listing the root keeps, in listing order:
/// those the root owns as files, with normalized text and recorded
/// line-ending flavor.
pub open spec fn spec_scan<F: Filter>(
    rd: RootData<F>,
    listing: Seq<(Seq<char>, Seq<char>)>,
) -> Seq<(Seq<char>, Seq<char>, LineEndings)>
    decreases listing.len(),
{
    if listing.len() == 0 {
        Seq::empty()
    } else {
        let pre = spec_scan(rd, listing.drop_last());
        match rd.spec_contains(listing.last().0, FileType::File) {
            Some(rel) => pre.push(
                (rel, normalized(listing.last().1), flavor_of(listing.last().1)),
            ),
            None => pre,
        }
    }
}

/// The compute half of an initial root scan. The host walks the root on
/// disk and reads every file it meets into `listing`; this keeps the
/// files the root's filter and nesting exclusions accept, normalizes
/// their texts, and wraps them as the bulk-load message for the
/// controller.
pub fn bulk_load_root<F: Filter>(
    roots: &Roots<F>,
    root: VfsRoot,
    listing: Vec<(String, String)>,
) -> (r: TaskResult)
    requires
        root.0 < roots.roots@.len(),
    ensures
        r matches TaskResult::BulkLoadRoot { root: r_root, files } && r_root == root
            && bulk_files_view(files@) == spec_scan(
            roots.roots@[root.0 as int],
            listing_view(listing@),
        ),
{
    let ghost all = listing_view(listing@);
    let ghost rd = roots.roots@[root.0 as int];
    let n: usize = listing.len();
    let mut files: Vec<(String, String, LineEndings)> = Vec::new();
    let mut k: usize = 0;
    proof {
        assert(all.take(0) =~= Seq::<(Seq<char>, Seq<char>)>::empty());
        assert(bulk_files_view(files@) =~= spec_scan(rd, all.take(0)));
    }
    while k < n
        invariant
            0 <= k <= n,
            n == listing@.len(),
            root.0 < roots.roots@.len(),
            rd == roots.roots@[root.0 as int],
            all == listing_view(listing@),
            bulk_files_view(files@) == spec_scan(rd, all.take(k as int)),
        decreases n - k,
    {
        proof {
            assert(all[k as int] == (listing@[k as int].0@, listing@[k as int].1@));
            assert(all.take(k as int + 1).drop_last() =~= all.take(k as int));
            assert(all.take(k as int + 1).last() == all[k as int]);
        }
        let ghost before = bulk_files_view(files@);
        let path: String = listing[k].0.clone();
        match roots.contains(root, path.as_str(), FileType::File) {
            Some(rel) => {
                let mut text: String = listing[k].1.clone();
                let le = normalize_newlines(&mut text);
                files.push((rel, text, le));
                proof {
                    assert(bulk_files_view(files@) =~= before.push(
                        (
                            rd.spec_contains(all[k as int].0, FileType::File)->Some_0,
                            normalized(all[k as int].1),
                            flavor_of(all[k as int].1),
                        ),
                    ));
                }
            },
            None => {},
        }
        k = k + 1;
    }
    proof {
        assert(all.take(n as int) =~= all);
    }
    TaskResult::BulkLoadRoot { root, files }
}

/// Every file a scan yields was accepted by the root: its relative
/// path comes from `spec_contains` on some listed path. With the
/// gating of `spec_is_included`, a file under a filtered-out directory
/// therefore never enters a bulk load, and so never reaches the change
/// log through one.
pub proof fn lemma_scan_respects_filter<F: Filter>(
    rd: RootData<F>,
    listing: Seq<(Seq<char>, Seq<char>)>,
    k: int,
)
    requires
        0 <= k < spec_scan(rd, listing).len(),
    ensures
        exists|m: int|
            0 <= m < listing.len() && rd.spec_contains(#[trigger] listing[m].0, FileType::File)
                == Some(spec_scan(rd, listing)[k].0),
    decreases listing.len(),
{
    if listing.len() > 0 {
        let pre = spec_scan(rd, listing.drop_last());
        if k < pre.len() {
            lemma_scan_respects_filter(rd, listing.drop_last(), k);
            let m = choose|m: int|
                0 <= m < listing.drop_last().len() && rd.spec_contains(
                    #[trigger] listing.drop_last()[m].0,
                    FileType::File,
                ) == Some(spec_scan(rd, listing.drop_last())[k].0);
            assert(listing[m] == listing.drop_last()[m]);
            assert(rd.spec_contains(listing[m].0, FileType::File) == Some(
                spec_scan(rd, listing)[k].0,
            ));
        } else {
            assert(rd.spec_contains(listing[listing.len() - 1].0, FileType::File) == Some(
                spec_scan(rd, listing)[k].0,
            ));
        }
    }
}

} // verus!
