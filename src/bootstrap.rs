use crate::layout::Layout;
use crate::project::{checkout_action, clones_project, local_path_of, CloneCommand, Project};
use vstd::prelude::*;

verus! {

/// The (url, target) pairs a bootstrap clones, given for each repository
/// handled so far the project it resolved to and whether its local
/// directory already existed.
pub open spec fn clones_needed(project_dir: Seq<char>, outcomes: Seq<(Project, bool)>) -> Seq<
    (Seq<char>, Seq<char>),
>
    decreases outcomes.len(),
{
    if outcomes.len() == 0 {
        Seq::empty()
    } else {
        let earlier = clones_needed(project_dir, outcomes.drop_last());
        let (project, exists) = outcomes.last();
        if exists {
            earlier
        } else {
            earlier.push(
                (
                    project.ssh_url_to_repo@,
                    local_path_of(project_dir, project.path_with_namespace@),
                ),
            )
        }
    }
}

/// How many of the handled repositories had no local directory.
pub open spec fn missing_count(outcomes: Seq<(Project, bool)>) -> nat
    decreases outcomes.len(),
{
    if outcomes.len() == 0 {
        0
    } else if outcomes.last().1 {
        missing_count(outcomes.drop_last())
    } else {
        missing_count(outcomes.drop_last()) + 1
    }
}

/// One bootstrap: walks the repositories of a layout in order. For the
/// repository that `next_repository` names, the caller resolves the project
/// on the remote, checks whether its local directory exists, and reports both
/// to `resolved`, which says whether to clone.
pub struct BootstrapRun {
    repos: Vec<String>,
    project_dir: String,
    next: usize,
    outcomes: Ghost<Seq<(Project, bool)>>,
    issued: Ghost<Seq<(Seq<char>, Seq<char>)>>,
}

impl BootstrapRun {
    pub closed spec fn repositories(&self) -> Seq<Seq<char>> {
        self.repos@.map_values(|s: String| s@)
    }

    pub closed spec fn project_dir(&self) -> Seq<char> {
        self.project_dir@
    }

    /// For each repository handled so far, its project and whether its
    /// directory existed.
    pub closed spec fn outcomes(&self) -> Seq<(Project, bool)> {
        self.outcomes@
    }

    /// The (url, target) of every clone the run has asked for, in order.
    pub closed spec fn issued(&self) -> Seq<(Seq<char>, Seq<char>)> {
        self.issued@
    }

    pub closed spec fn position(&self) -> nat {
        self.next as nat
    }

    pub open spec fn is_done(&self) -> bool {
        self.position() == self.repositories().len()
    }

    pub closed spec fn wf(&self) -> bool {
        &&& self.next <= self.repos@.len()
        &&& self.outcomes@.len() == self.next
        &&& self.issued@ == clones_needed(self.project_dir@, self.outcomes@)
    }

    /// A run over `layout` that checks repositories out under `project_dir`.
    pub fn new(layout: Layout, project_dir: &str) -> (r: BootstrapRun)
        ensures
            r.wf(),
            r.repositories() == layout.repos@.map_values(|s: String| s@),
            r.project_dir() == project_dir@,
            r.position() == 0,
            r.outcomes() == Seq::<(Project, bool)>::empty(),
            r.issued() == Seq::<(Seq<char>, Seq<char>)>::empty(),
    {
        BootstrapRun {
            repos: layout.repos,
            project_dir: project_dir.to_owned(),
            next: 0,
            outcomes: Ghost(Seq::empty()),
            issued: Ghost(Seq::empty()),
        }
    }

    /// The repository to resolve next, or `None` once all are handled.
    pub fn next_repository(&self) -> (r: Option<String>)
        requires
            self.wf(),
        ensures
            r is None <==> self.is_done(),
            r matches Some(repo) ==> repo@ == self.repositories()[self.position() as int],
    {
        if self.next < self.repos.len() {
            Some(self.repos[self.next].clone())
        } else {
            None
        }
    }

    /// Takes the project the current repository resolved to and whether its
    /// local directory exists; moves to the next repository and returns the
    /// clone to run, which is none exactly when the directory exists.
    pub fn resolved(&mut self, project: &Project, exists: bool) -> (r: Option<CloneCommand>)
        requires
            old(self).wf(),
            !old(self).is_done(),
        ensures
            final(self).wf(),
            final(self).repositories() == old(self).repositories(),
            final(self).project_dir() == old(self).project_dir(),
            final(self).position() == old(self).position() + 1,
            final(self).outcomes() == old(self).outcomes().push((*project, exists)),
            exists <==> r is None,
            r matches Some(cmd) ==> clones_project(cmd, *project, old(self).project_dir()),
            r matches Some(cmd) ==> final(self).issued() == old(self).issued().push(
                (cmd.url@, cmd.target@),
            ),
            r is None ==> final(self).issued() == old(self).issued(),
    {
        let queued = self.repos.len();
        assert(self.next < queued);
        let action = checkout_action(project, self.project_dir.as_str(), exists);
        let ghost outcomes = self.outcomes@.push((*project, exists));
        assert(outcomes.drop_last() =~= self.outcomes@);
        self.outcomes = Ghost(outcomes);
        self.issued = Ghost(clones_needed(self.project_dir@, outcomes));
        self.next = self.next + 1;
        action
    }

    /// Over a whole run, the clones asked for are one per repository whose
    /// directory did not exist, targeting that project's local path, in
    /// layout order; a repository whose directory existed gets none.
    pub proof fn lemma_one_clone_per_missing_checkout(&self)
        requires
            self.wf(),
        ensures
            self.issued() == clones_needed(self.project_dir(), self.outcomes()),
            self.issued().len() == missing_count(self.outcomes()),
            (forall|i: int| 0 <= i < self.outcomes().len() ==> #[trigger] self.outcomes()[i].1)
                ==> self.issued().len() == 0,
    {
        lemma_clones_needed_len(self.project_dir(), self.outcomes());
        if forall|i: int| 0 <= i < self.outcomes().len() ==> #[trigger] self.outcomes()[i].1 {
            lemma_no_missing(self.outcomes());
        }
    }
}

proof fn lemma_clones_needed_len(project_dir: Seq<char>, outcomes: Seq<(Project, bool)>)
    ensures
        clones_needed(project_dir, outcomes).len() == missing_count(outcomes),
    decreases outcomes.len(),
{
    if outcomes.len() > 0 {
        lemma_clones_needed_len(project_dir, outcomes.drop_last());
    }
}

proof fn lemma_no_missing(outcomes: Seq<(Project, bool)>)
    requires
        forall|i: int| 0 <= i < outcomes.len() ==> #[trigger] outcomes[i].1,
    ensures
        missing_count(outcomes) == 0,
    decreases outcomes.len(),
{
    if outcomes.len() > 0 {
        let rest = outcomes.drop_last();
        assert forall|i: int| 0 <= i < rest.len() implies #[trigger] rest[i].1 by {
            assert(rest[i] == outcomes[i]);
        }
        lemma_no_missing(rest);
        assert(outcomes.last().1);
    }
}

} // verus!
