use glazy::bootstrap::BootstrapRun;
use glazy::config::parse_config;
use glazy::layout::load_layout;
use glazy::project::{
    checkout_action, clone_arguments, clone_command, find_by_path, local_path, open_plan, Group,
    Project,
};
use glazy::walk::GroupWalk;

fn project(id: usize, path: &str) -> Project {
    Project {
        id,
        name: path.rsplit('/').next().unwrap().to_owned(),
        path_with_namespace: path.to_owned(),
        description: None,
        ssh_url_to_repo: format!("git@gitlab.example.com:{path}.git"),
    }
}

fn group(id: usize, path: &str) -> Group {
    Group { id, name: path.to_owned(), full_path: path.to_owned() }
}

const SCENARIO_CONFIG: &str = "gitlab {\n  url \"https://gitlab.example.com\"\n  token \"tok\"\n}\nlocal {\n  project_dir \"/tmp/ws\"\n}\n";

fn scenario_run() -> (BootstrapRun, String) {
    let config = parse_config(SCENARIO_CONFIG).unwrap();
    let layout = load_layout("repositories {\n  \"teamA/svc\"\n}\n").unwrap();
    let dir = config.local.project_dir.clone();
    (BootstrapRun::new(layout, &dir), dir)
}

#[test]
fn bootstrap_clones_missing_repository() {
    let (mut run, _) = scenario_run();
    let repo = run.next_repository().unwrap();
    assert_eq!(repo, "teamA/svc");
    let cmd = run.resolved(&project(1, &repo), false).unwrap();
    assert_eq!(cmd.target, "/tmp/ws/teamA/svc");
    assert_eq!(cmd.url, "git@gitlab.example.com:teamA/svc.git");
    assert_eq!(run.next_repository(), None);
}

#[test]
fn bootstrap_skips_existing_repository() {
    let (mut run, _) = scenario_run();
    let repo = run.next_repository().unwrap();
    assert_eq!(run.resolved(&project(1, &repo), true), None);
    assert_eq!(run.next_repository(), None);
}

#[test]
fn bootstrap_clones_once_per_missing_checkout() {
    let layout = load_layout("repositories {\n \"a/x\"\n \"a/y\"\n \"b/z\"\n}\n").unwrap();
    let mut run = BootstrapRun::new(layout, "/w");
    let exists = [false, true, false];
    let mut clones = Vec::new();
    let mut i = 0;
    while let Some(repo) = run.next_repository() {
        if let Some(cmd) = run.resolved(&project(i, &repo), exists[i]) {
            clones.push(cmd.target);
        }
        i += 1;
    }
    assert_eq!(i, 3);
    assert_eq!(clones, vec!["/w/a/x", "/w/b/z"]);
}

#[test]
fn open_selects_and_prints_local_path() {
    let candidates = vec![project(1, "teamA/api"), project(2, "teamA/svc"), project(3, "teamB/svc")];
    let chosen = find_by_path(&candidates, "teamA/svc").unwrap();
    assert_eq!(chosen, 1);
    let plan = open_plan(&candidates[chosen], "/tmp/ws", false);
    assert_eq!(plan.line, "/tmp/ws/teamA/svc");
    assert!(!plan.line.contains('\n'));
    assert_eq!(plan.clone.unwrap().target, "/tmp/ws/teamA/svc");
    let plan = open_plan(&candidates[chosen], "/tmp/ws", true);
    assert_eq!(plan.line, "/tmp/ws/teamA/svc");
    assert!(plan.clone.is_none());
}

#[test]
fn selection_text_must_match_exactly() {
    let candidates = vec![project(1, "teamA/svc")];
    assert_eq!(find_by_path(&candidates, "teamA/sv"), None);
    assert_eq!(find_by_path(&candidates, "1 teamA/svc"), None);
    assert_eq!(find_by_path(&vec![], "teamA/svc"), None);
}

#[test]
fn ambiguous_selection_is_refused() {
    let candidates = vec![project(1, "teamA/svc"), project(2, "teamA/api"), project(3, "teamA/svc")];
    assert_eq!(find_by_path(&candidates, "teamA/svc"), None);
    assert_eq!(find_by_path(&candidates, "teamA/api"), Some(1));
}

#[test]
fn local_paths_of_distinct_projects_differ() {
    assert_eq!(local_path("/tmp/ws", "teamA/svc"), "/tmp/ws/teamA/svc");
    assert_ne!(local_path("/tmp/ws", "teamA/svc"), local_path("/tmp/ws", "teamA/api"));
    assert_ne!(local_path("/r", "a/b"), local_path("/r", "a"));
}

#[test]
fn clone_command_and_arguments() {
    let p = project(7, "g/p");
    let cmd = clone_command(&p, "/d");
    assert_eq!(cmd.url, "git@gitlab.example.com:g/p.git");
    assert_eq!(cmd.target, "/d/g/p");
    assert_eq!(clone_arguments(&cmd), vec!["clone", "git@gitlab.example.com:g/p.git", "/d/g/p"]);
    assert_eq!(checkout_action(&p, "/d", true), None);
    assert_eq!(checkout_action(&p, "/d", false), Some(cmd));
}

#[test]
fn walk_of_group_without_subgroups_gathers_its_projects() {
    let mut walk = GroupWalk::new("top");
    assert_eq!(walk.current(), Some("top".to_owned()));
    walk.record(&vec![], vec![project(1, "top/a"), project(2, "top/b")]);
    assert_eq!(walk.current(), None);
    assert_eq!(walk.into_projects(), vec![project(1, "top/a"), project(2, "top/b")]);
}

#[test]
fn walk_visits_every_nested_group_once() {
    // top -> {top/x -> {top/x/deep}, top/y}
    let mut walk = GroupWalk::new("top");
    let mut visited = Vec::new();
    while let Some(g) = walk.current() {
        visited.push(g.clone());
        let (subs, projects) = match g.as_str() {
            "top" => (vec![group(2, "top/x"), group(3, "top/y")], vec![project(10, "top/r")]),
            "top/x" => (vec![group(4, "top/x/deep")], vec![project(11, "top/x/s")]),
            "top/y" => (vec![], vec![]),
            "top/x/deep" => (vec![], vec![project(12, "top/x/deep/t"), project(13, "top/x/deep/u")]),
            other => panic!("unexpected group {other}"),
        };
        walk.record(&subs, projects);
    }
    assert_eq!(visited, vec!["top", "top/x", "top/y", "top/x/deep"]);
    let mut ids: Vec<usize> = walk.into_projects().iter().map(|p| p.id).collect();
    ids.sort();
    assert_eq!(ids, vec![10, 11, 12, 13]);
}
