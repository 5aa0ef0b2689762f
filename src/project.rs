use vstd::prelude::*;

verus! {

/// A repository record as the remote reports it.
#[derive(Debug, Clone, PartialEq, Eq)]
pub struct Project {
    pub id: usize,
    pub name: String,
    pub path_with_namespace: String,
    pub description: Option<String>,
    pub ssh_url_to_repo: String,
}

/// A remote namespace holding projects and nested subgroups.
#[derive(Debug, Clone, PartialEq, Eq)]
pub struct Group {
    pub id: usize,
    pub name: String,
    pub full_path: String,
}

/// One invocation of the version-control binary: clone `url` into `target`.
#[derive(Debug, Clone, PartialEq, Eq)]
pub struct CloneCommand {
    pub url: String,
    pub target: String,
}

/// The directory a project is checked out into: `{project_dir}/{path}`.
pub open spec fn local_path_of(project_dir: Seq<char>, path: Seq<char>) -> Seq<char> {
    project_dir + seq!['/'] + path
}

/// Local checkout directory of the project at `path_with_namespace`.
pub fn local_path(project_dir: &str, path_with_namespace: &str) -> (r: String)
    ensures
        r@ == local_path_of(project_dir@, path_with_namespace@),
{
    let mut r = project_dir.to_owned();
    r.append("/");
    r.append(path_with_namespace);
    proof {
        reveal_strlit("/");
    }
    assert(r@ =~= local_path_of(project_dir@, path_with_namespace@));
    r
}

/// Two projects with different namespaced paths never share a local
/// directory under the same project root.
pub proof fn lemma_local_path_injective(project_dir: Seq<char>, a: Seq<char>, b: Seq<char>)
    requires
        a != b,
    ensures
        local_path_of(project_dir, a) != local_path_of(project_dir, b),
{
    let prefix = project_dir + seq!['/'];
    assert(local_path_of(project_dir, a) == prefix + a);
    assert(local_path_of(project_dir, b) == prefix + b);
    if prefix + a == prefix + b {
        assert(a =~= (prefix + a).subrange(prefix.len() as int, (prefix + a).len() as int));
        assert(b =~= (prefix + b).subrange(prefix.len() as int, (prefix + b).len() as int));
    }
}

/// Whether a clone command copies `project` into its directory under `project_dir`.
pub open spec fn clones_project(cmd: CloneCommand, project: Project, project_dir: Seq<char>) -> bool {
    &&& cmd.url@ == project.ssh_url_to_repo@
    &&& cmd.target@ == local_path_of(project_dir, project.path_with_namespace@)
}

/// The clone that brings `project` under `project_dir`.
pub fn clone_command(project: &Project, project_dir: &str) -> (r: CloneCommand)
    ensures
        clones_project(r, *project, project_dir@),
{
    CloneCommand {
        url: project.ssh_url_to_repo.clone(),
        target: local_path(project_dir, project.path_with_namespace.as_str()),
    }
}

/// What a checkout needs: nothing when the local directory already exists,
/// else exactly one clone of the project.
pub fn checkout_action(project: &Project, project_dir: &str, exists: bool) -> (r: Option<CloneCommand>)
    ensures
        exists <==> r is None,
        r matches Some(cmd) ==> clones_project(cmd, *project, project_dir@),
{
    if exists {
        None
    } else {
        Some(clone_command(project, project_dir))
    }
}

/// What opening a selected project does: the clone to run, if its directory
/// is missing, and the one line to print, its local path.
#[derive(Debug, Clone, PartialEq, Eq)]
pub struct OpenPlan {
    pub clone: Option<CloneCommand>,
    pub line: String,
}

/// Plans the opening of `project` under `project_dir`, given whether its
/// local directory exists.
pub fn open_plan(project: &Project, project_dir: &str, exists: bool) -> (r: OpenPlan)
    ensures
        exists <==> r.clone is None,
        r.clone matches Some(cmd) ==> clones_project(cmd, *project, project_dir@),
        r.line@ == local_path_of(project_dir@, project.path_with_namespace@),
{
    OpenPlan {
        clone: checkout_action(project, project_dir, exists),
        line: local_path(project_dir, project.path_with_namespace.as_str()),
    }
}

/// Arguments handed to the version-control binary for `cmd`.
pub fn clone_arguments(cmd: &CloneCommand) -> (r: Vec<String>)
    ensures
        r@.len() == 3,
        r@[0]@ == "clone"@,
        r@[1] == cmd.url,
        r@[2] == cmd.target,
{
    let mut args: Vec<String> = Vec::new();
    args.push("clone".to_owned());
    args.push(cmd.url.clone());
    args.push(cmd.target.clone());
    proof {
        reveal_strlit("clone");
    }
    args
}

/// Whether candidate `i` is the one and only candidate whose namespaced path
/// is `text`.
pub open spec fn is_only_match(projects: Seq<Project>, text: Seq<char>, i: int) -> bool {
    &&& 0 <= i < projects.len()
    &&& projects[i].path_with_namespace@ == text
    &&& forall|j: int|
        0 <= j < projects.len() && j != i ==> #[trigger] projects[j].path_with_namespace@ != text
}

/// Index of the candidate whose namespaced path is exactly `text`; `None`
/// when no candidate or more than one has that path.
pub fn find_by_path(projects: &Vec<Project>, text: &str) -> (r: Option<usize>)
    ensures
        r matches Some(i) ==> is_only_match(projects@, text@, i as int),
        r is None ==> forall|i: int| !is_only_match(projects@, text@, i),
{
    let wanted = text.to_owned();
    let mut found: Option<usize> = None;
    let mut i: usize = 0;
    while i < projects.len()
        invariant
            i <= projects@.len(),
            wanted@ == text@,
            found is None ==> forall|j: int|
                0 <= j < i ==> #[trigger] projects@[j].path_with_namespace@ != text@,
            found matches Some(f) ==> f < i && projects@[f as int].path_with_namespace@ == text@
                && forall|j: int|
                0 <= j < i && j != f ==> #[trigger] projects@[j].path_with_namespace@ != text@,
        decreases projects@.len() - i,
    {
        if projects[i].path_with_namespace == wanted {
            match found {
                Some(f) => {
                    assert forall|k: int| !is_only_match(projects@, text@, k) by {
                        if k != f as int && 0 <= k < projects@.len() {
                            assert(projects@[f as int].path_with_namespace@ == text@);
                        } else if k == f as int {
                            assert(projects@[i as int].path_with_namespace@ == text@);
                        }
                    }
                    return None;
                },
                None => {
                    found = Some(i);
                },
            }
        }
        i = i + 1;
    }
    match found {
        Some(f) => Some(f),
        None => {
            assert forall|k: int| !is_only_match(projects@, text@, k) by {
                if 0 <= k < projects@.len() {
                    assert(projects@[k].path_with_namespace@ != text@);
                }
            }
            None
        },
    }
}

} // verus!
