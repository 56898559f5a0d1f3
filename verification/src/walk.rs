//! A directory snapshot as plain data: what the recursive walk of the note
//! filter consumes. The caller lists the file system into this shape (a
//! symbolic link is reported as `Other` rather than followed, so a snapshot
//! is always a finite tree); the walk itself and its bookkeeping are in
//! `note`.
use vstd::prelude::*;

verus! {

/// One node of a directory snapshot, each carrying its full path: a regular
/// file, a directory with its entries, a path that does not exist, an entry
/// that could not be read, or anything else (a symbolic link, a device),
/// which the walk skips silently.
pub enum FsNode {
    File { path: String },
    Dir { path: String, entries: Vec<FsNode> },
    Missing { path: String },
    Unreadable { path: String },
    Other { path: String },
}

/// The kind of a non-fatal diagnostic the walk records.
#[derive(Clone, Copy, Debug, PartialEq, Eq, Structural)]
pub enum DiagKind {
    MissingPath,
    EntryReadError,
}

/// A non-fatal diagnostic: a path that was skipped, and why.
#[derive(Clone, Debug)]
pub struct Diagnostic {
    pub kind: DiagKind,
    pub path: String,
}

/// The mathematical value of a diagnostic.
pub struct DiagView {
    pub kind: DiagKind,
    pub path: Seq<char>,
}

impl View for Diagnostic {
    type V = DiagView;

    open spec fn view(&self) -> DiagView {
        DiagView { kind: self.kind, path: self.path@ }
    }
}

impl DeepView for Diagnostic {
    type V = DiagView;

    open spec fn deep_view(&self) -> DiagView {
        self@
    }
}

/// The regular files under a snapshot node, in walk order: a file is
/// itself; a directory contributes its entries' files in entry order;
/// anything else contributes nothing.
pub open spec fn files_of(n: FsNode) -> Seq<Seq<char>>
    decreases n,
{
    match n {
        FsNode::File { path } => seq![path@],
        FsNode::Dir { entries, .. } => files_of_seq(entries@, 0),
        _ => Seq::empty(),
    }
}

pub open spec fn files_of_seq(s: Seq<FsNode>, i: int) -> Seq<Seq<char>>
    decreases s, s.len() - i,
{
    if i < 0 || i >= s.len() {
        Seq::empty()
    } else {
        files_of(s[i]) + files_of_seq(s, i + 1)
    }
}

/// The diagnostics a walk of the snapshot records, in walk order: one
/// `MissingPath` per missing node, one `EntryReadError` per unreadable
/// node.
pub open spec fn diags_of(n: FsNode) -> Seq<DiagView>
    decreases n,
{
    match n {
        FsNode::Missing { path } => seq![DiagView { kind: DiagKind::MissingPath, path: path@ }],
        FsNode::Unreadable { path } => seq![
            DiagView { kind: DiagKind::EntryReadError, path: path@ },
        ],
        FsNode::Dir { entries, .. } => diags_of_seq(entries@, 0),
        _ => Seq::empty(),
    }
}

pub open spec fn diags_of_seq(s: Seq<FsNode>, i: int) -> Seq<DiagView>
    decreases s, s.len() - i,
{
    if i < 0 || i >= s.len() {
        Seq::empty()
    } else {
        diags_of(s[i]) + diags_of_seq(s, i + 1)
    }
}

/// A missing path contributes no candidate file, only a `MissingPath`
/// diagnostic: adding it to a filter leaves the candidate set as it was.
pub proof fn lemma_missing_path(p: String)
    ensures
        files_of(FsNode::Missing { path: p }) == Seq::<Seq<char>>::empty(),
        diags_of(FsNode::Missing { path: p }) == seq![
            DiagView { kind: DiagKind::MissingPath, path: p@ },
        ],
{
}

} // verus!
