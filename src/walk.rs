use crate::project::{Group, Project};
use vstd::prelude::*;

verus! {

broadcast use Seq::group_seq_flatten;

/// Namespaced paths of `groups`, in order.
pub open spec fn group_paths(groups: Seq<Group>) -> Seq<Seq<char>> {
    groups.map_values(|g: Group| g.full_path@)
}

/// Whether `chain` starts at `root` and each of its groups is a child of the
/// one before it under `children`.
pub open spec fn is_chain(
    children: spec_fn(Seq<char>) -> Seq<Seq<char>>,
    root: Seq<char>,
    chain: Seq<Seq<char>>,
) -> bool {
    &&& chain.len() >= 1
    &&& chain[0] == root
    &&& forall|i: int|
        0 <= i < chain.len() - 1 ==> #[trigger] children(chain[i]).contains(chain[i + 1])
}

/// Whether `g` is `root` or one of its descendants under `children`.
pub open spec fn descends_from(
    children: spec_fn(Seq<char>) -> Seq<Seq<char>>,
    root: Seq<char>,
    g: Seq<char>,
) -> bool {
    exists|chain: Seq<Seq<char>>| #[trigger] is_chain(children, root, chain) && chain.last() == g
}

proof fn lemma_in_flatten<A>(s: Seq<Seq<A>>, q: int, o: int)
    requires
        0 <= q < s.len(),
        0 <= o < s[q].len(),
    ensures
        s.flatten().contains(s[q][o]),
    decreases q,
{
    assert(s.flatten() == s[0] + s.drop_first().flatten());
    if q == 0 {
        assert(s.flatten()[o] == s[0][o]);
    } else {
        lemma_in_flatten(s.drop_first(), q - 1, o);
        assert(s.drop_first()[q - 1] == s[q]);
        let i = choose|i: int|
            0 <= i < s.drop_first().flatten().len() && s.drop_first().flatten()[i] == s[q][o];
        assert(s.flatten()[s[0].len() + i] == s[q][o]);
    }
}

/// Breadth-first walk over a group and all of its descendant subgroups,
/// gathering the projects of every group visited.
///
/// The walk does no remote work itself: for the group that `current` names,
/// the caller fetches its direct subgroups and its projects and hands both to
/// `record`. Groups are queued in the order they are discovered, the root
/// first, and each queued group is visited exactly once.
pub struct GroupWalk {
    groups: Vec<String>,
    next: usize,
    projects: Vec<Project>,
    subgroup_reports: Ghost<Seq<Seq<Seq<char>>>>,
    project_reports: Ghost<Seq<Seq<Project>>>,
    origin: Ghost<Seq<(int, int)>>,
}

impl GroupWalk {
    /// Every group queued so far, the root first.
    pub closed spec fn discovered(&self) -> Seq<Seq<char>> {
        self.groups@.map_values(|s: String| s@)
    }

    /// The group the walk started from.
    pub closed spec fn root(&self) -> Seq<char> {
        self.discovered()[0]
    }

    /// How many queued groups have been recorded.
    pub closed spec fn visited_count(&self) -> nat {
        self.next as nat
    }

    /// For each visited group, in order, the paths of its direct subgroups.
    pub closed spec fn subgroup_reports(&self) -> Seq<Seq<Seq<char>>> {
        self.subgroup_reports@
    }

    /// For each visited group, in order, its projects.
    pub closed spec fn project_reports(&self) -> Seq<Seq<Project>> {
        self.project_reports@
    }

    /// The projects gathered so far.
    pub closed spec fn gathered(&self) -> Seq<Project> {
        self.projects@
    }

    pub open spec fn is_finished(&self) -> bool {
        self.visited_count() == self.discovered().len()
    }

    pub closed spec fn wf(&self) -> bool {
        &&& 1 <= self.groups@.len()
        &&& self.next <= self.groups@.len()
        &&& self.subgroup_reports@.len() == self.next
        &&& self.project_reports@.len() == self.next
        &&& self.discovered() == seq![self.root()] + self.subgroup_reports@.flatten()
        &&& self.projects@ == self.project_reports@.flatten()
        &&& forall|i: int|
            0 <= i < self.next ==> i < 1 + (#[trigger] self.subgroup_reports@.subrange(
                0,
                i,
            )).flatten().len()
        &&& self.origin@.len() == self.groups@.len()
        &&& forall|k: int| 1 <= k < self.groups@.len() ==> self.origin_ok(k)
        &&& forall|k1: int, k2: int|
            1 <= k1 < self.groups@.len() && 1 <= k2 < self.groups@.len() && k1 != k2 ==> #[trigger] self.origin@[k1]
                != #[trigger] self.origin@[k2]
    }

    /// The queued group `k` is child number `origin[k].1` in the report of
    /// the visited group `origin[k].0`, which was queued before it.
    closed spec fn origin_ok(&self, k: int) -> bool {
        let (p, o) = self.origin@[k];
        &&& 0 <= p < self.next
        &&& p < k
        &&& 0 <= o < self.subgroup_reports@[p].len()
        &&& self.subgroup_reports@[p][o] == self.discovered()[k]
    }

    /// Whether the visited groups were answered by a remote whose groups have
    /// direct subgroups `children` and projects `projects_of`.
    pub open spec fn answered_by(
        &self,
        children: spec_fn(Seq<char>) -> Seq<Seq<char>>,
        projects_of: spec_fn(Seq<char>) -> Seq<Project>,
    ) -> bool {
        &&& forall|i: int|
            0 <= i < self.visited_count() ==> #[trigger] self.subgroup_reports()[i] == children(
                self.discovered()[i],
            )
        &&& forall|i: int|
            0 <= i < self.visited_count() ==> #[trigger] self.project_reports()[i] == projects_of(
                self.discovered()[i],
            )
    }

    /// A walk that starts at the group `root`.
    pub fn new(root: &str) -> (w: GroupWalk)
        ensures
            w.wf(),
            w.discovered() == seq![root@],
            w.root() == root@,
            w.visited_count() == 0,
            w.subgroup_reports() == Seq::<Seq<Seq<char>>>::empty(),
            w.project_reports() == Seq::<Seq<Project>>::empty(),
            w.gathered() == Seq::<Project>::empty(),
    {
        let mut groups: Vec<String> = Vec::new();
        groups.push(root.to_owned());
        let ghost origin = seq![(0int, 0int)];
        let w = GroupWalk {
            groups,
            next: 0,
            projects: Vec::new(),
            subgroup_reports: Ghost(Seq::empty()),
            project_reports: Ghost(Seq::empty()),
            origin: Ghost(origin),
        };
        assert(w.discovered() =~= seq![root@]);
        assert(w.subgroup_reports@.flatten() =~= Seq::<Seq<char>>::empty());
        assert(w.discovered() =~= seq![w.root()] + w.subgroup_reports@.flatten());
        assert(w.projects@ =~= w.project_reports@.flatten());
        w
    }

    /// The group whose subgroups and projects the walk needs next, or `None`
    /// once every queued group has been visited.
    pub fn current(&self) -> (r: Option<String>)
        requires
            self.wf(),
        ensures
            r is None <==> self.is_finished(),
            r matches Some(g) ==> g@ == self.discovered()[self.visited_count() as int],
    {
        if self.next < self.groups.len() {
            Some(self.groups[self.next].clone())
        } else {
            None
        }
    }

    /// Records the direct subgroups and the projects of the current group:
    /// the subgroups are queued behind every group already queued, and the
    /// projects are appended to those gathered.
    pub fn record(&mut self, subgroups: &Vec<Group>, projects: Vec<Project>)
        requires
            old(self).wf(),
            !old(self).is_finished(),
        ensures
            final(self).wf(),
            final(self).root() == old(self).root(),
            final(self).discovered() == old(self).discovered() + group_paths(subgroups@),
            final(self).visited_count() == old(self).visited_count() + 1,
            final(self).subgroup_reports() == old(self).subgroup_reports().push(
                group_paths(subgroups@),
            ),
            final(self).project_reports() == old(self).project_reports().push(projects@),
            final(self).gathered() == old(self).gathered() + projects@,
    {
        let queued = self.groups.len();
        assert(self.next < queued);
        self.next = self.next + 1;
        let ghost old_groups = self.discovered();
        let ghost old_reports = self.subgroup_reports@;
        let ghost old_projects = self.projects@;
        let mut added: Vec<String> = Vec::new();
        let mut k: usize = 0;
        while k < subgroups.len()
            invariant
                k <= subgroups@.len(),
                added@.len() == k,
                forall|j: int| 0 <= j < k ==> #[trigger] added@[j]@ == subgroups@[j].full_path@,
            decreases subgroups@.len() - k,
        {
            added.push(subgroups[k].full_path.clone());
            k = k + 1;
        }
        self.groups.append(&mut added);
        assert(self.discovered() =~= old_groups + group_paths(subgroups@));
        let ghost gathered = projects@;
        let mut projects = projects;
        self.projects.append(&mut projects);
        self.subgroup_reports = Ghost(old_reports.push(group_paths(subgroups@)));
        self.project_reports = Ghost(self.project_reports@.push(gathered));
        let ghost old_origin = self.origin@;
        let ghost parent = (self.next - 1) as int;
        let ghost old_len = old_groups.len();
        self.origin = Ghost(
            Seq::new(
                self.groups@.len(),
                |k: int|
                    if k < old_len {
                        old_origin[k]
                    } else {
                        (parent, k - old_len)
                    },
            ),
        );
        assert forall|k: int| 1 <= k < self.groups@.len() implies self.origin_ok(k) by {
            if k < old_len {
                assert(old(self).origin_ok(k));
                let (p, o) = old_origin[k];
                assert(self.subgroup_reports@[p] == old_reports[p]);
                assert(self.discovered()[k] == old_groups[k]);
            } else {
                assert(self.subgroup_reports@[parent] == group_paths(subgroups@));
                assert(self.discovered()[k] == group_paths(subgroups@)[k - old_len]);
            }
        }
        assert forall|k1: int, k2: int|
            1 <= k1 < self.groups@.len() && 1 <= k2 < self.groups@.len() && k1 != k2 implies #[trigger] self.origin@[k1]
                != #[trigger] self.origin@[k2] by {
            if k1 < old_len {
                assert(old(self).origin_ok(k1));
            }
            if k2 < old_len {
                assert(old(self).origin_ok(k2));
            }
            if k1 < old_len && k2 < old_len {
                assert(old_origin[k1] != old_origin[k2]);
            }
        }
        assert(self.projects@ =~= old_projects + gathered);
        assert(self.discovered() =~= seq![self.root()] + self.subgroup_reports@.flatten()) by {
            assert(old_groups[0] == self.discovered()[0]);
        }
        assert forall|i: int| 0 <= i < self.next implies i < 1 + (
        #[trigger] self.subgroup_reports@.subrange(0, i)).flatten().len() by {
            if i < self.next - 1 {
                assert(self.subgroup_reports@.subrange(0, i) =~= old_reports.subrange(0, i));
            } else {
                assert(self.subgroup_reports@.subrange(0, i) =~= old_reports);
            }
        }
    }

    /// The projects gathered by the walk.
    pub fn into_projects(self) -> (r: Vec<Project>)
        ensures
            r@ == self.gathered(),
    {
        self.projects
    }

    /// A finished walk has visited the root and every subgroup that any
    /// visited group reported, each exactly once, and gathered the
    /// concatenation of their projects. Asked of a remote whose groups have
    /// direct subgroups `children` and projects `projects_of`, the visited
    /// groups are the root followed by the children of every visited group,
    /// and the result is the projects of all of them.
    pub proof fn lemma_finished_walk_covers_descendants(
        &self,
        children: spec_fn(Seq<char>) -> Seq<Seq<char>>,
        projects_of: spec_fn(Seq<char>) -> Seq<Project>,
    )
        requires
            self.wf(),
            self.is_finished(),
            self.answered_by(children, projects_of),
        ensures
            self.discovered() == seq![self.root()] + self.discovered().map_values(
                children,
            ).flatten(),
            self.gathered() == self.discovered().map_values(projects_of).flatten(),
    {
        assert(self.subgroup_reports() =~= self.discovered().map_values(children));
        assert(self.project_reports() =~= self.discovered().map_values(projects_of));
    }

    /// Whether `children` describes a strict hierarchy below `root`: no group
    /// lists a child twice, `root` is no group's child, and no two different
    /// groups share a child.
    pub open spec fn strict_hierarchy(
        children: spec_fn(Seq<char>) -> Seq<Seq<char>>,
        root: Seq<char>,
    ) -> bool {
        &&& forall|g: Seq<char>| #[trigger] children(g).no_duplicates()
        &&& forall|g: Seq<char>, i: int|
            0 <= i < children(g).len() ==> #[trigger] children(g)[i] != root
        &&& forall|g1: Seq<char>, g2: Seq<char>, i: int, j: int|
            g1 != g2 && 0 <= i < children(g1).len() && 0 <= j < children(g2).len()
                ==> #[trigger] children(g1)[i] != #[trigger] children(g2)[j]
    }

    proof fn lemma_distinct_before(
        &self,
        children: spec_fn(Seq<char>) -> Seq<Seq<char>>,
        projects_of: spec_fn(Seq<char>) -> Seq<Project>,
        j: int,
    )
        requires
            self.wf(),
            self.answered_by(children, projects_of),
            Self::strict_hierarchy(children, self.root()),
            0 <= j < self.discovered().len(),
        ensures
            forall|i: int| 0 <= i < j ==> self.discovered()[i] != self.discovered()[j],
        decreases j,
    {
        assert forall|i: int| 0 <= i < j implies self.discovered()[i] != self.discovered()[j] by {
            assert(self.origin_ok(j));
            let (pj, oj) = self.origin@[j];
            assert(self.subgroup_reports()[pj] == children(self.discovered()[pj]));
            let cj = children(self.discovered()[pj]);
            assert(self.discovered()[j] == cj[oj]);
            if i > 0 {
                assert(self.origin_ok(i));
                let (pi, oi) = self.origin@[i];
                assert(self.subgroup_reports()[pi] == children(self.discovered()[pi]));
                let ci = children(self.discovered()[pi]);
                assert(self.discovered()[i] == ci[oi]);
                if self.discovered()[i] == self.discovered()[j] {
                    if pi == pj {
                        assert(self.origin@[i] != self.origin@[j]);
                        assert(cj.no_duplicates());
                    } else if self.discovered()[pi] == self.discovered()[pj] {
                        if pi < pj {
                            self.lemma_distinct_before(children, projects_of, pj);
                        } else {
                            self.lemma_distinct_before(children, projects_of, pi);
                        }
                    } else {
                        assert(ci[oi] != cj[oj]);
                    }
                }
            }
        }
    }

    /// Asked of a strict hierarchy, the walk never queues a group twice, so
    /// no group is visited twice.
    pub proof fn lemma_no_group_queued_twice(
        &self,
        children: spec_fn(Seq<char>) -> Seq<Seq<char>>,
        projects_of: spec_fn(Seq<char>) -> Seq<Project>,
    )
        requires
            self.wf(),
            self.answered_by(children, projects_of),
            Self::strict_hierarchy(children, self.root()),
        ensures
            self.discovered().no_duplicates(),
    {
        assert forall|i: int, j: int|
            0 <= i < self.discovered().len() && 0 <= j < self.discovered().len() && i
                != j implies self.discovered()[i] != self.discovered()[j] by {
            if i < j {
                self.lemma_distinct_before(children, projects_of, j);
            } else {
                self.lemma_distinct_before(children, projects_of, i);
            }
        }
    }

    /// Every queued group other than the root is a child of a group that the
    /// walk visited, and queued, before it.
    pub proof fn lemma_queued_group_has_earlier_parent(
        &self,
        children: spec_fn(Seq<char>) -> Seq<Seq<char>>,
        projects_of: spec_fn(Seq<char>) -> Seq<Project>,
        k: int,
    )
        requires
            self.wf(),
            self.answered_by(children, projects_of),
            1 <= k < self.discovered().len(),
        ensures
            exists|p: int|
                0 <= p < k && p < self.visited_count() && #[trigger] children(
                    self.discovered()[p],
                ).contains(self.discovered()[k]),
    {
        assert(self.origin_ok(k));
        let (p, o) = self.origin@[k];
        assert(self.subgroup_reports()[p] == children(self.discovered()[p]));
        assert(children(self.discovered()[p])[o] == self.discovered()[k]);
        assert(children(self.discovered()[p]).contains(self.discovered()[k]));
        assert(0 <= p < k && p < self.visited_count());
    }

    proof fn lemma_queued_descends(
        &self,
        children: spec_fn(Seq<char>) -> Seq<Seq<char>>,
        projects_of: spec_fn(Seq<char>) -> Seq<Project>,
        k: int,
    )
        requires
            self.wf(),
            self.answered_by(children, projects_of),
            0 <= k < self.discovered().len(),
        ensures
            descends_from(children, self.root(), self.discovered()[k]),
        decreases k,
    {
        if k == 0 {
            let chain = seq![self.root()];
            assert(is_chain(children, self.root(), chain));
        } else {
            self.lemma_queued_group_has_earlier_parent(children, projects_of, k);
            let p = choose|p: int|
                0 <= p < k && p < self.visited_count() && #[trigger] children(
                    self.discovered()[p],
                ).contains(self.discovered()[k]);
            self.lemma_queued_descends(children, projects_of, p);
            let chain = choose|chain: Seq<Seq<char>>|
                #[trigger] is_chain(children, self.root(), chain) && chain.last()
                    == self.discovered()[p];
            let longer = chain.push(self.discovered()[k]);
            assert forall|i: int| 0 <= i < longer.len() - 1 implies #[trigger] children(
                longer[i],
            ).contains(longer[i + 1]) by {
                if i < chain.len() - 1 {
                    assert(children(chain[i]).contains(chain[i + 1]));
                }
            }
            assert(is_chain(children, self.root(), longer));
            assert(longer.last() == self.discovered()[k]);
        }
    }

    proof fn lemma_descendant_queued(
        &self,
        children: spec_fn(Seq<char>) -> Seq<Seq<char>>,
        projects_of: spec_fn(Seq<char>) -> Seq<Project>,
        chain: Seq<Seq<char>>,
    )
        requires
            self.wf(),
            self.is_finished(),
            self.answered_by(children, projects_of),
            is_chain(children, self.root(), chain),
        ensures
            self.discovered().contains(chain.last()),
        decreases chain.len(),
    {
        if chain.len() == 1 {
            assert(self.discovered()[0] == chain.last());
        } else {
            let shorter = chain.drop_last();
            assert forall|i: int| 0 <= i < shorter.len() - 1 implies #[trigger] children(
                shorter[i],
            ).contains(shorter[i + 1]) by {
                assert(children(chain[i]).contains(chain[i + 1]));
            }
            self.lemma_descendant_queued(children, projects_of, shorter);
            let p = shorter.last();
            let g = chain.last();
            let j = chain.len() - 2;
            assert(0 <= j < chain.len() - 1);
            assert(children(chain[j]).contains(chain[j + 1]));
            assert(chain[j] == p && chain[j + 1] == g);
            let q = choose|q: int| 0 <= q < self.discovered().len() && self.discovered()[q] == p;
            assert(self.subgroup_reports()[q] == children(p));
            let o = choose|o: int| 0 <= o < children(p).len() && #[trigger] children(p)[o] == g;
            lemma_in_flatten(self.subgroup_reports@, q, o);
            let i = choose|i: int|
                0 <= i < self.subgroup_reports@.flatten().len()
                    && self.subgroup_reports@.flatten()[i] == g;
            assert(self.discovered()[i + 1] == g);
        }
    }

    /// Asked of a strict hierarchy, a finished walk has queued, and visited,
    /// exactly the root and its descendants, each once, and gathered the
    /// concatenation of their projects: as a multiset, the union of the
    /// projects of the root and of every descendant.
    pub proof fn lemma_walk_visits_exactly_the_descendants(
        &self,
        children: spec_fn(Seq<char>) -> Seq<Seq<char>>,
        projects_of: spec_fn(Seq<char>) -> Seq<Project>,
    )
        requires
            self.wf(),
            self.is_finished(),
            self.answered_by(children, projects_of),
            Self::strict_hierarchy(children, self.root()),
        ensures
            forall|g: Seq<char>|
                #[trigger] self.discovered().contains(g) <==> descends_from(
                    children,
                    self.root(),
                    g,
                ),
            self.discovered().no_duplicates(),
            self.gathered() == self.discovered().map_values(projects_of).flatten(),
    {
        assert forall|g: Seq<char>|
            #[trigger] self.discovered().contains(g) <==> descends_from(
                children,
                self.root(),
                g,
            ) by {
            if self.discovered().contains(g) {
                let k = choose|k: int| 0 <= k < self.discovered().len() && self.discovered()[k] == g;
                self.lemma_queued_descends(children, projects_of, k);
            }
            if descends_from(children, self.root(), g) {
                let chain = choose|chain: Seq<Seq<char>>|
                    #[trigger] is_chain(children, self.root(), chain) && chain.last() == g;
                self.lemma_descendant_queued(children, projects_of, chain);
            }
        }
        self.lemma_no_group_queued_twice(children, projects_of);
        self.lemma_finished_walk_covers_descendants(children, projects_of);
    }

    /// A finished walk from a group without subgroups visits that group alone
    /// and gathers exactly its projects.
    pub proof fn lemma_group_without_subgroups(
        &self,
        children: spec_fn(Seq<char>) -> Seq<Seq<char>>,
        projects_of: spec_fn(Seq<char>) -> Seq<Project>,
    )
        requires
            self.wf(),
            self.is_finished(),
            self.answered_by(children, projects_of),
            children(self.root()) == Seq::<Seq<char>>::empty(),
        ensures
            self.discovered() == seq![self.root()],
            self.gathered() == projects_of(self.root()),
    {
        let reports = self.subgroup_reports();
        assert(reports[0] == children(self.discovered()[0]));
        if self.next > 1 {
            assert(reports.subrange(0, 1) =~= seq![reports[0]]);
            assert(1 < 1 + reports.subrange(0, 1).flatten().len());
        }
        assert(self.discovered() =~= seq![self.root()]);
        assert(self.project_reports() =~= seq![projects_of(self.root())]);
    }
}

} // verus!
