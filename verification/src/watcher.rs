//! Validation of watched roots, and normalization of raw filesystem
//! notifications into the logical events the pipeline consumes. The
//! blocking subscription loop itself is operating-system work and lives
//! with the caller; every decision it takes is made here.

use vstd::prelude::*;

verus! {

/// What a probe of one configured root found on disk. The caller
/// performs the probe; the library decides from these plain facts.
#[derive(Debug)]
pub struct RootStatus {
    pub path: String,
    pub present: bool,
    pub is_dir: bool,
}

/// A root is fit for watching when it names an existing directory.
pub open spec fn root_ok(r: RootStatus) -> bool {
    r.present && r.is_dir
}

/// Every configured root is fit for watching.
pub open spec fn all_roots_ok(rs: Seq<RootStatus>) -> bool {
    forall|i: int| 0 <= i < rs.len() ==> root_ok(#[trigger] rs[i])
}

/// The position of the first root that is not fit for watching.
pub open spec fn first_bad_root(rs: Seq<RootStatus>) -> int
    decreases rs.len(),
{
    if rs.len() == 0 {
        0
    } else if !root_ok(rs[0]) {
        0
    } else {
        1 + first_bad_root(rs.drop_first())
    }
}

proof fn lemma_first_bad_root(rs: Seq<RootStatus>, i: int)
    requires
        0 <= i < rs.len(),
        forall|j: int| 0 <= j < i ==> root_ok(#[trigger] rs[j]),
        !root_ok(rs[i]),
    ensures
        first_bad_root(rs) == i,
        !all_roots_ok(rs),
    decreases i,
{
    if i > 0 {
        let tail = rs.drop_first();
        assert forall|j: int| 0 <= j < i - 1 implies root_ok(#[trigger] tail[j]) by {
            assert(tail[j] == rs[j + 1]);
        }
        assert(tail[i - 1] == rs[i]);
        lemma_first_bad_root(tail, i - 1);
    }
}

/// Relies on `std::sync::mpsc::RecvError`, the value a receive loop gets
/// when its channel closes; the watcher only carries it in its error.
#[verifier::external_type_specification]
#[verifier::external_body]
pub struct ExRecvError(std::sync::mpsc::RecvError);

/// The failure modes of root validation and of a running watch.
#[derive(Debug)]
pub enum WatcherError {
    PathIsNotADir,
    PathDoesNotExist,
    NotifyError(std::sync::mpsc::RecvError),
}

/// A logical change to the watched trees, as the pipeline consumes it.
#[derive(Debug)]
pub enum WatchEvent {
    Create(String),
    Remove(String),
    Rename(String, String),
}

/// The mathematical content of a [`WatchEvent`].
pub enum WatchEventView {
    Create(Seq<char>),
    Remove(Seq<char>),
    Rename(Seq<char>, Seq<char>),
}

impl View for WatchEvent {
    type V = WatchEventView;

    open spec fn view(&self) -> WatchEventView {
        match self {
            WatchEvent::Create(p) => WatchEventView::Create(p@),
            WatchEvent::Remove(p) => WatchEventView::Remove(p@),
            WatchEvent::Rename(s, d) => WatchEventView::Rename(s@, d@),
        }
    }
}

/// A raw notification from the operating system's watch subscription,
/// reduced to the facts the watcher reads: the kind of change and the
/// paths involved. Kinds the index does not track arrive as `Other`.
#[derive(Debug)]
pub enum FsChange {
    Create(String),
    Remove(String),
    Rename(String, String),
    Other,
}

/// The watch loop's translation step: creates, removes and renames are
/// forwarded as logical events, one per notification and in arrival
/// order; every other kind of notification is dropped.
pub fn normalize_change(c: FsChange) -> (r: Option<WatchEvent>)
    ensures
        c matches FsChange::Create(p) ==> (r matches Some(ev) && ev matches WatchEvent::Create(q)
            && q@ == p@),
        c matches FsChange::Remove(p) ==> (r matches Some(ev) && ev matches WatchEvent::Remove(q)
            && q@ == p@),
        c matches FsChange::Rename(a, b) ==> (r matches Some(ev) && ev matches WatchEvent::Rename(
        x, y) && x@ == a@ && y@ == b@),
        c is Other <==> r is None,
{
    match c {
        FsChange::Create(p) => Some(WatchEvent::Create(p)),
        FsChange::Remove(p) => Some(WatchEvent::Remove(p)),
        FsChange::Rename(a, b) => Some(WatchEvent::Rename(a, b)),
        FsChange::Other => None,
    }
}

/// The watcher's validated state: the roots it is to subscribe to,
/// in configuration order.
#[derive(Debug)]
pub struct FsWatcher {
    paths: Vec<String>,
}

impl FsWatcher {
    /// The validated root paths, in configuration order.
    pub closed spec fn paths(self) -> Seq<Seq<char>> {
        self.paths.deep_view()
    }

    /// Validates every configured root before any watching starts. The
    /// watcher is constructed only when each root names an existing
    /// directory; otherwise the first offending root decides the error,
    /// a missing entry being reported before a non-directory one.
    pub fn new(roots: &Vec<RootStatus>) -> (r: Result<FsWatcher, WatcherError>)
        ensures
            r is Ok <==> all_roots_ok(roots@),
            r matches Ok(w) ==> (w.paths().len() == roots@.len() && forall|i: int|
                0 <= i < roots@.len() ==> w.paths()[i] == #[trigger] roots@[i].path@),
            !all_roots_ok(roots@) ==> (r matches Err(e) && (if !roots@[first_bad_root(
                roots@,
            )].present {
                e is PathDoesNotExist
            } else {
                e is PathIsNotADir
            })),
    {
        let n = roots.len();
        let mut paths: Vec<String> = Vec::new();
        let mut i: usize = 0;
        while i < n
            invariant
                n == roots@.len(),
                i <= n,
                paths@.len() == i,
                forall|j: int| 0 <= j < i ==> root_ok(#[trigger] roots@[j]),
                forall|j: int| 0 <= j < i ==> paths.deep_view()[j] == #[trigger] roots@[j].path@,
            decreases n - i,
        {
            if !roots[i].present {
                proof {
                    lemma_first_bad_root(roots@, i as int);
                }
                return Err(WatcherError::PathDoesNotExist);
            }
            if !roots[i].is_dir {
                proof {
                    lemma_first_bad_root(roots@, i as int);
                }
                return Err(WatcherError::PathIsNotADir);
            }
            paths.push(roots[i].path.clone());
            i += 1;
        }
        Ok(FsWatcher { paths })
    }
}

} // verus!
