use vstd::prelude::*;
use crate::codec::{tree_wf, TreeV, WorkingTree};
use crate::content::CoreError;
use crate::diff::{diff, manifest_diff, DiffReport};
use crate::model::str_eq;
use vstd::pervasive::VecAdditionalExecFns;

verus! {

/// An immutable snapshot of a working tree with its metadata.
pub struct Revision {
    parent: Option<u64>,
    tree: WorkingTree,
    message: String,
    author: String,
    timestamp: u64,
}

pub struct RevisionV {
    pub parent: Option<u64>,
    pub tree: TreeV,
    pub message: Seq<char>,
    pub author: Seq<char>,
    pub timestamp: u64,
}

impl View for Revision {
    type V = RevisionV;

    closed spec fn view(&self) -> RevisionV {
        RevisionV {
            parent: self.parent,
            tree: self.tree@,
            message: self.message@,
            author: self.author@,
            timestamp: self.timestamp,
        }
    }
}

impl Clone for Revision {
    fn clone(&self) -> (r: Revision)
        ensures
            r@ == self@,
    {
        Revision {
            parent: self.parent,
            tree: self.tree.clone(),
            message: self.message.clone(),
            author: self.author.clone(),
            timestamp: self.timestamp,
        }
    }
}

impl Revision {
    /// The parent revision's id, if any.
    pub fn parent(&self) -> (r: Option<u64>)
        ensures
            r == self@.parent,
    {
        self.parent
    }

    /// The commit message.
    pub fn message(&self) -> (r: &String)
        ensures
            r@ == self@.message,
    {
        &self.message
    }

    /// The author.
    pub fn author(&self) -> (r: &String)
        ensures
            r@ == self@.author,
    {
        &self.author
    }

    /// The time of the commit.
    pub fn timestamp(&self) -> (r: u64)
        ensures
            r == self@.timestamp,
    {
        self.timestamp
    }
}

/// The history of one project: revision `i` has id `i` and, but for the first, parent `i - 1`.
/// The head is the last revision.
pub struct Repository {
    revisions: Vec<Revision>,
}

pub open spec fn revisions_view(s: Seq<Revision>) -> Seq<RevisionV> {
    s.map_values(|r: Revision| r@)
}

impl View for Repository {
    type V = Seq<RevisionV>;

    closed spec fn view(&self) -> Seq<RevisionV> {
        revisions_view(self.revisions@)
    }
}

/// A history is well formed: each revision's parent is the one before it and every tree is well formed.
pub open spec fn history_wf(h: Seq<RevisionV>) -> bool {
    &&& h.len() < u64::MAX
    &&& forall|i: int| 0 <= i < h.len() ==> (#[trigger] h[i]).parent == (if i == 0 {
        None::<u64>
    } else {
        Some((i - 1) as u64)
    })
    &&& forall|i: int| 0 <= i < h.len() ==> tree_wf((#[trigger] h[i]).tree)
}

/// The id of the head revision.
pub open spec fn head_of(h: Seq<RevisionV>) -> Option<u64> {
    if h.len() == 0 {
        None
    } else {
        Some((h.len() - 1) as u64)
    }
}

/// The history after committing `t`, and the outcome: `NothingToCommit` when the head
/// already holds exactly `t`, else the id of the new head revision.
pub open spec fn commit_step(
    h: Seq<RevisionV>,
    t: TreeV,
    message: Seq<char>,
    author: Seq<char>,
    timestamp: u64,
) -> (Seq<RevisionV>, Result<u64, CoreError>) {
    if h.len() > 0 && h.last().tree == t {
        (h, Err(CoreError::NothingToCommit))
    } else {
        (
            h.push(RevisionV { parent: head_of(h), tree: t, message, author, timestamp }),
            Ok(h.len() as u64),
        )
    }
}

/// The revision ids of a history, newest first.
pub open spec fn log_of(h: Seq<RevisionV>) -> Seq<u64> {
    Seq::new(h.len(), |i: int| (h.len() - 1 - i) as u64)
}

/// Whether history `a` is a prefix of history `b`, so that `b` fast-forwards `a`.
pub open spec fn is_prefix(a: Seq<RevisionV>, b: Seq<RevisionV>) -> bool {
    a.len() <= b.len() && b.subrange(0, a.len() as int) == a
}

fn same_revision(a: &Revision, b: &Revision) -> (r: bool)
    ensures
        r == (a@ == b@),
{
    let r = a.parent == b.parent && a.timestamp == b.timestamp && str_eq(&a.message, &b.message)
        && str_eq(&a.author, &b.author) && a.tree.same_as(&b.tree);
    proof {
        if a.parent == b.parent && a.timestamp == b.timestamp && a.message@ == b.message@
            && a.author@ == b.author@ && a.tree@ == b.tree@ {
            assert(a@ == b@);
        }
    }
    r
}

impl Repository {
    pub open spec fn wf(&self) -> bool {
        history_wf(self@)
    }

    /// An initialized project history with no revision yet.
    pub fn new() -> (r: Repository)
        ensures
            r@ == Seq::<RevisionV>::empty(),
            r.wf(),
    {
        let r = Repository { revisions: Vec::new() };
        assert(r@ =~= Seq::<RevisionV>::empty());
        r
    }

    /// The id of the head revision, if any.
    pub fn head(&self) -> (r: Option<u64>)
        requires
            self.wf(),
        ensures
            r == head_of(self@),
    {
        if self.revisions.len() == 0 {
            None
        } else {
            Some((self.revisions.len() - 1) as u64)
        }
    }

    /// The revision with id `id`, or `UnknownRevision`.
    pub fn revision(&self, id: u64) -> (r: Result<&Revision, CoreError>)
        ensures
            r is Ok <==> id < self@.len(),
            r is Ok ==> r->Ok_0@ == self@[id as int],
            r is Err ==> r->Err_0 == CoreError::UnknownRevision,
    {
        if id < self.revisions.len() as u64 {
            Ok(&self.revisions[id as usize])
        } else {
            Err(CoreError::UnknownRevision)
        }
    }

    /// Records `tree` as a new head revision whose parent is the current head; fails with
    /// `NothingToCommit`, changing nothing, when the head already holds exactly `tree`.
    pub fn commit(&mut self, tree: WorkingTree, message: String, author: String, timestamp: u64) -> (r: Result<u64, CoreError>)
        requires
            old(self).wf(),
            old(self)@.len() + 1 < u64::MAX,
            tree_wf(tree@),
        ensures
            final(self).wf(),
            (final(self)@, r) == commit_step(old(self)@, tree@, message@, author@, timestamp),
    {
        let n = self.revisions.len();
        if n > 0 && self.revisions[n - 1].tree.same_as(&tree) {
            return Err(CoreError::NothingToCommit);
        }
        let parent = self.head();
        let ghost rv = RevisionV { parent: head_of(self@), tree: tree@, message: message@, author: author@, timestamp };
        self.revisions.push(Revision { parent, tree, message, author, timestamp });
        assert(self@ =~= old(self)@.push(rv));
        Ok(n as u64)
    }

    /// Reconstructs the working tree of revision `id`, or fails with `UnknownRevision`.
    pub fn read(&self, id: u64) -> (r: Result<WorkingTree, CoreError>)
        requires
            self.wf(),
        ensures
            r is Ok <==> id < self@.len(),
            r is Ok ==> r->Ok_0@ == self@[id as int].tree && tree_wf(r->Ok_0@),
            r is Err ==> r->Err_0 == CoreError::UnknownRevision,
    {
        if id < self.revisions.len() as u64 {
            Ok(self.revisions[id as usize].tree.clone())
        } else {
            Err(CoreError::UnknownRevision)
        }
    }

    /// The revision ids, most recent first.
    pub fn log(&self) -> (r: Vec<u64>)
        requires
            self.wf(),
        ensures
            r@ == log_of(self@),
    {
        let n = self.revisions.len();
        let mut out: Vec<u64> = Vec::new();
        let mut k: usize = n;
        while k > 0
            invariant
                n == self@.len(),
                n < u64::MAX,
                k <= n,
                out@ == log_of(self@).subrange(0, (n - k) as int),
            decreases k,
        {
            k = k - 1;
            out.push(k as u64);
            assert(out@ =~= log_of(self@).subrange(0, (n - k) as int));
        }
        assert(out@ =~= log_of(self@));
        out
    }

    /// Whether this history is a prefix of `other`.
    pub fn is_prefix_of(&self, other: &Repository) -> (r: bool)
        ensures
            r == is_prefix(self@, other@),
    {
        if self.revisions.len() > other.revisions.len() {
            return false;
        }
        let mut i: usize = 0;
        while i < self.revisions.len()
            invariant
                self@.len() <= other@.len(),
                i <= self@.len(),
                forall|k: int| 0 <= k < i ==> self@[k] == other@[k],
            decreases self@.len() - i,
        {
            if !same_revision(&self.revisions[i], &other.revisions[i]) {
                proof {
                    assert(other@.subrange(0, self@.len() as int)[i as int] != self@[i as int]);
                }
                return false;
            }
            i = i + 1;
        }
        assert(other@.subrange(0, self@.len() as int) =~= self@);
        true
    }

    fn extend_from(&mut self, other: &Repository)
        requires
            is_prefix(old(self)@, other@),
        ensures
            final(self)@ == other@,
    {
        let mut i: usize = self.revisions.len();
        while i < other.revisions.len()
            invariant
                old(self)@.len() <= i <= other@.len(),
                self@ == other@.subrange(0, i as int),
            decreases other@.len() - i,
        {
            let rev = other.revisions[i].clone();
            assert(rev@ == other@[i as int]);
            let ghost rv = rev@;
            let ghost pre = self.revisions@;
            self.revisions.push(rev);
            assert(self.revisions@ == pre.push(rev));
            assert(revisions_view(pre.push(rev)) =~= revisions_view(pre).push(rv));
            assert(self@ =~= other@.subrange(0, i as int + 1));
            i = i + 1;
        }
        assert(self@ =~= other@);
    }

    /// Sends this history to `remote`. It succeeds only when the remote's history is a
    /// prefix of this one (a fast-forward), and the remote then holds this history; otherwise
    /// it fails with `RemoteRejected` and changes nothing.
    pub fn push(&self, remote: &mut Repository) -> (r: Result<(), CoreError>)
        ensures
            r is Ok <==> is_prefix(old(remote)@, self@),
            r is Ok ==> final(remote)@ == self@,
            r is Err ==> final(remote)@ == old(remote)@ && r->Err_0 == CoreError::RemoteRejected,
    {
        if !remote.is_prefix_of(self) {
            return Err(CoreError::RemoteRejected);
        }
        remote.extend_from(self);
        Ok(())
    }

    /// Takes the history of `remote`. It succeeds only when this history is a prefix of the
    /// remote's, and this history then equals it; otherwise it fails with `RemoteRejected`
    /// and changes nothing.
    pub fn pull(&mut self, remote: &Repository) -> (r: Result<(), CoreError>)
        ensures
            r is Ok <==> is_prefix(old(self)@, remote@),
            r is Ok ==> final(self)@ == remote@,
            r is Err ==> final(self)@ == old(self)@ && r->Err_0 == CoreError::RemoteRejected,
    {
        if !self.is_prefix_of(remote) {
            return Err(CoreError::RemoteRejected);
        }
        self.extend_from(remote);
        Ok(())
    }
}

/// Committing the same tree twice in a row: the second commit yields `NothingToCommit`
/// and leaves the history, and so the head, as the first left it.
pub proof fn lemma_commit_idempotent(
    h: Seq<RevisionV>,
    t: TreeV,
    m1: Seq<char>,
    a1: Seq<char>,
    t1: u64,
    m2: Seq<char>,
    a2: Seq<char>,
    t2: u64,
)
    ensures
        commit_step(commit_step(h, t, m1, a1, t1).0, t, m2, a2, t2) == (
            commit_step(h, t, m1, a1, t1).0,
            Err::<u64, CoreError>(CoreError::NothingToCommit),
        ),
{
}

/// One side of a comparison: the live working tree or a committed revision.
#[derive(Debug, Clone, Copy, PartialEq, Eq, Structural)]
pub enum Side {
    Working,
    Revision(u64),
}

/// Whether `s` names a tree that exists in history `h`.
pub open spec fn side_known(h: Seq<RevisionV>, s: Side) -> bool {
    match s {
        Side::Working => true,
        Side::Revision(id) => id < h.len(),
    }
}

/// The tree that `s` names.
pub open spec fn side_tree(h: Seq<RevisionV>, working: TreeV, s: Side) -> TreeV {
    match s {
        Side::Working => working,
        Side::Revision(id) => h[id as int].tree,
    }
}

fn side_manifest<'a>(repo: &'a Repository, working: &'a WorkingTree, s: Side) -> (r: Result<&'a crate::model::Manifest, CoreError>)
    ensures
        r is Ok <==> side_known(repo@, s),
        r is Ok ==> r->Ok_0@ == side_tree(repo@, working@, s).manifest,
        r is Err ==> r->Err_0 == CoreError::UnknownRevision,
{
    match s {
        Side::Working => Ok(working.manifest()),
        Side::Revision(id) => match repo.revision(id) {
            Ok(rev) => Ok(rev.tree.manifest()),
            Err(e) => Err(e),
        },
    }
}

/// Compares two sides of a project: each is the working tree or a revision of `repo`.
/// Fails with `UnknownRevision` when a side names a revision that does not exist.
pub fn diff_sides(repo: &Repository, working: &WorkingTree, a: Side, b: Side) -> (r: Result<DiffReport, CoreError>)
    ensures
        r is Ok <==> side_known(repo@, a) && side_known(repo@, b),
        r is Ok ==> r->Ok_0@ == manifest_diff(
            side_tree(repo@, working@, a).manifest,
            side_tree(repo@, working@, b).manifest,
        ),
        r is Err ==> r->Err_0 == CoreError::UnknownRevision,
{
    let ma = match side_manifest(repo, working, a) {
        Ok(m) => m,
        Err(e) => return Err(e),
    };
    let mb = match side_manifest(repo, working, b) {
        Ok(m) => m,
        Err(e) => return Err(e),
    };
    Ok(diff(ma, mb))
}

} // verus!

verus! {

/// The histories of all projects, each under its project id.
pub struct Projects {
    ids: Vec<String>,
    repos: Vec<Repository>,
}

pub struct ProjectsV {
    pub ids: Seq<Seq<char>>,
    pub histories: Seq<Seq<RevisionV>>,
}

impl View for Projects {
    type V = ProjectsV;

    closed spec fn view(&self) -> ProjectsV {
        ProjectsV {
            ids: crate::model::strs_view(self.ids@),
            histories: self.repos@.map_values(|r: Repository| r@),
        }
    }
}

/// The position of project `id`, if it is known.
pub open spec fn project_index(p: ProjectsV, id: Seq<char>) -> Option<int> {
    if exists|k: int| 0 <= k < p.ids.len() && p.ids[k] == id {
        Some(choose|k: int| 0 <= k < p.ids.len() && p.ids[k] == id)
    } else {
        None
    }
}

impl Projects {
    /// Project ids are unique, and every history is well formed.
    pub open spec fn wf(&self) -> bool {
        &&& self@.ids.len() == self@.histories.len()
        &&& forall|i: int, j: int| 0 <= i < j < self@.ids.len() ==> self@.ids[i] != self@.ids[j]
        &&& forall|i: int| 0 <= i < self@.histories.len() ==> history_wf(#[trigger] self@.histories[i])
    }

    /// A registry that knows no project yet.
    pub fn new() -> (r: Projects)
        ensures
            r.wf(),
            r@.ids.len() == 0,
    {
        let r = Projects { ids: Vec::new(), repos: Vec::new() };
        assert(r@.ids =~= Seq::<Seq<char>>::empty());
        assert(r@.histories =~= Seq::<Seq<RevisionV>>::empty());
        r
    }

    /// Returns the position of project `id`, creating an empty history for it when it is
    /// unknown; opening a known project changes nothing.
    pub fn open_or_init(&mut self, id: &String) -> (k: usize)
        requires
            old(self).wf(),
        ensures
            final(self).wf(),
            k < final(self)@.ids.len(),
            final(self)@.ids[k as int] == id@,
            project_index(old(self)@, id@) is Some ==> final(self)@ == old(self)@ && k
                == project_index(old(self)@, id@)->Some_0,
            project_index(old(self)@, id@) is None ==> final(self)@ == (ProjectsV {
                ids: old(self)@.ids.push(id@),
                histories: old(self)@.histories.push(Seq::empty()),
            }) && k == old(self)@.ids.len(),
    {
        let mut i: usize = 0;
        while i < self.ids.len()
            invariant
                self.wf(),
                i <= self@.ids.len(),
                self@.ids.len() == self.ids@.len(),
                forall|j: int| 0 <= j < i ==> self@.ids[j] != id@,
            decreases self.ids@.len() - i,
        {
            assert(self@.ids[i as int] == self.ids@[i as int]@);
            if str_eq(&self.ids[i], id) {
                proof {
                    let c = choose|c: int| 0 <= c < self@.ids.len() && self@.ids[c] == id@;
                    if c != i {
                        if c < i {
                            assert(self@.ids[c] != self@.ids[i as int]);
                        } else {
                            assert(self@.ids[i as int] != self@.ids[c]);
                        }
                    }
                }
                return i;
            }
            i = i + 1;
        }
        let ghost pre = self@;
        let n = self.ids.len();
        self.ids.push(id.clone());
        self.repos.push(Repository::new());
        proof {
            assert(self@.ids =~= pre.ids.push(id@));
            assert(self@.histories =~= pre.histories.push(Seq::empty()));
            assert(forall|i: int| 0 <= i < self@.histories.len() ==> #[trigger] self@.histories[i] == (if i < n { pre.histories[i] } else { Seq::empty() }));
        }
        n
    }

    /// The history of project `id`, if it is known.
    pub fn history(&self, id: &String) -> (r: Option<&Repository>)
        requires
            self.wf(),
        ensures
            match project_index(self@, id@) {
                Some(k) => r is Some && r->Some_0@ == self@.histories[k],
                None => r is None,
            },
    {
        let mut i: usize = 0;
        while i < self.ids.len()
            invariant
                self.wf(),
                i <= self@.ids.len(),
                self@.ids.len() == self.ids@.len(),
                self@.histories.len() == self.repos@.len(),
                forall|j: int| 0 <= j < i ==> self@.ids[j] != id@,
            decreases self.ids@.len() - i,
        {
            assert(self@.ids[i as int] == self.ids@[i as int]@);
            if str_eq(&self.ids[i], id) {
                proof {
                    let c = choose|c: int| 0 <= c < self@.ids.len() && self@.ids[c] == id@;
                    if c != i {
                        if c < i {
                            assert(self@.ids[c] != self@.ids[i as int]);
                        } else {
                            assert(self@.ids[i as int] != self@.ids[c]);
                        }
                    }
                }
                return Some(&self.repos[i]);
            }
            i = i + 1;
        }
        None
    }

    /// Commits `tree` to project `id`, opening the project first when it is unknown.
    pub fn commit(&mut self, id: &String, tree: WorkingTree, message: String, author: String, timestamp: u64) -> (r: Result<u64, CoreError>)
        requires
            old(self).wf(),
            tree_wf(tree@),
            forall|i: int| 0 <= i < old(self)@.histories.len() ==> #[trigger] old(self)@.histories[i].len() + 1 < u64::MAX,
        ensures
            final(self).wf(),
            ({
                let h = match project_index(old(self)@, id@) {
                    Some(k) => old(self)@.histories[k],
                    None => Seq::empty(),
                };
                let k = match project_index(old(self)@, id@) {
                    Some(k) => k,
                    None => old(self)@.ids.len() as int,
                };
                &&& final(self)@.ids == (if project_index(old(self)@, id@) is Some { old(self)@.ids } else { old(self)@.ids.push(id@) })
                &&& final(self)@.histories.len() == final(self)@.ids.len()
                &&& final(self)@.histories[k] == commit_step(h, tree@, message@, author@, timestamp).0
                &&& r == commit_step(h, tree@, message@, author@, timestamp).1
                &&& forall|j: int| 0 <= j < final(self)@.histories.len() && j != k ==> #[trigger] final(self)@.histories[j] == old(self)@.histories[j]
            }),
    {
        let k = self.open_or_init(id);
        let ghost mid = self@;
        let mut repo = Repository::new();
        self.repos.set_and_swap(k, &mut repo);
        assert(repo@ == mid.histories[k as int]);
        assert(repo.wf());
        let r = repo.commit(tree, message, author, timestamp);
        let ghost hv = repo@;
        self.repos.set(k, repo);
        proof {
            assert(self@.ids == mid.ids);
            assert(self@.histories =~= mid.histories.update(k as int, hv));
        }
        r
    }
}

} // verus!
