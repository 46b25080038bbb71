use watcher::diff::{DiffLine, Tag};
use watcher::node::{Node, NodeType, Scan, Stat};
use watcher::notification::{Notification, Timestamp};
use watcher::poll::{same_time, Observation};
use watcher::schedule::{drain, Cycle, Schedule};
use watcher::tree::FileTree;
use watcher::config::Config;

const NOW: Timestamp = Timestamp { secs: 1_700_000_000, nanos: 5 };

fn line(tag: Tag, text: &str) -> DiffLine {
    DiffLine { tag, text: text.to_string() }
}

fn seen(modified: Option<u128>, content: Option<&str>) -> Observation {
    Observation { modified, content: content.map(|s| s.to_string()) }
}

fn file_node(path: &str, modified: Option<u128>, content: Option<&str>) -> Node {
    Node {
        kind: NodeType::File,
        path: path.to_string(),
        name: path.rsplit('/').next().unwrap().to_string(),
        modified,
        content: content.map(|s| s.to_string()),
        children: Vec::new(),
    }
}

fn folder_node(path: &str, children: Vec<Node>) -> Node {
    Node {
        kind: NodeType::Folder,
        path: path.to_string(),
        name: path.rsplit('/').next().unwrap().to_string(),
        modified: None,
        content: None,
        children,
    }
}

fn note(path: &str, diff: Vec<DiffLine>) -> Notification {
    Notification { time: NOW, path: path.to_string(), diff }
}

#[test]
fn same_time_compares_known_and_unknown_times() {
    assert!(same_time(None, None));
    assert!(same_time(Some(3), Some(3)));
    assert!(!same_time(Some(3), Some(4)));
    assert!(!same_time(Some(3), None));
    assert!(!same_time(None, Some(0)));
}

#[test]
fn poll_reports_a_changed_file() {
    let mut node = file_node("/w/a.txt", Some(1), Some("hello\n"));
    let mut out = Vec::new();
    node.poll(&vec![seen(Some(2), Some("hello\nworld\n"))], NOW, &mut out);
    assert_eq!(out, vec![note("/w/a.txt", vec![line(Tag::Common, "hello"), line(Tag::Added, "world")])]);
    assert_eq!(node, file_node("/w/a.txt", Some(2), Some("hello\nworld\n")));
}

#[test]
fn poll_is_silent_on_an_unchanged_file() {
    let mut node = file_node("/w/a.txt", Some(1), Some("hello\n"));
    let mut out = Vec::new();
    node.poll(&vec![seen(Some(1), Some("something else"))], NOW, &mut out);
    assert_eq!(out, Vec::new());
    assert_eq!(node, file_node("/w/a.txt", Some(1), Some("hello\n")));
}

#[test]
fn poll_twice_reports_once() {
    let mut tree = folder_node(
        "/w",
        vec![
            file_node("/w/a.txt", Some(1), Some("a\n")),
            folder_node("/w/d", vec![file_node("/w/d/b.rs", Some(2), Some("b\n"))]),
        ],
    );
    let observations = vec![seen(Some(5), Some("a\nA\n")), seen(Some(6), Some("B\n"))];
    let mut out = Vec::new();
    tree.poll(&observations, NOW, &mut out);
    assert_eq!(out.len(), 2);
    let after_first = format!("{:?}", tree);
    let mut again = Vec::new();
    tree.poll(&observations, NOW, &mut again);
    assert_eq!(again, Vec::new());
    assert_eq!(format!("{:?}", tree), after_first);
}

#[test]
fn poll_suppresses_a_file_that_became_unreadable() {
    let mut node = file_node("/w/a.txt", Some(1), Some("hello\n"));
    let mut out = Vec::new();
    node.poll(&vec![seen(Some(2), None)], NOW, &mut out);
    assert_eq!(out, Vec::new());
    assert_eq!(node, file_node("/w/a.txt", Some(2), None));
}

#[test]
fn poll_suppresses_a_file_that_was_unreadable() {
    let mut node = file_node("/w/a.txt", Some(1), None);
    let mut out = Vec::new();
    node.poll(&vec![seen(Some(2), Some("now readable\n"))], NOW, &mut out);
    assert_eq!(out, Vec::new());
    assert_eq!(node, file_node("/w/a.txt", Some(2), Some("now readable\n")));
}

#[test]
fn poll_notices_a_time_that_became_unknown() {
    let mut node = file_node("/w/a.txt", Some(1), Some("a\n"));
    let mut out = Vec::new();
    node.poll(&vec![seen(None, Some("b\n"))], NOW, &mut out);
    assert_eq!(out, vec![note("/w/a.txt", vec![line(Tag::Removed, "a"), line(Tag::Added, "b")])]);
    assert_eq!(node.modified, None);
}

#[test]
fn poll_notices_a_time_that_became_known() {
    let mut node = file_node("/w/a.txt", None, Some("a\n"));
    let mut out = Vec::new();
    node.poll(&vec![seen(Some(0), Some("a\n"))], NOW, &mut out);
    assert_eq!(out, vec![note("/w/a.txt", vec![line(Tag::Common, "a")])]);
    assert_eq!(node.modified, Some(0));
}

#[test]
fn poll_treats_a_file_without_observation_as_unseen() {
    let mut tree = folder_node(
        "/w",
        vec![file_node("/w/a.txt", Some(1), Some("a\n")), file_node("/w/b.txt", Some(2), Some("b\n"))],
    );
    let mut out = Vec::new();
    tree.poll(&vec![seen(Some(1), None)], NOW, &mut out);
    assert_eq!(out, Vec::new());
    assert_eq!(tree.children[0], file_node("/w/a.txt", Some(1), Some("a\n")));
    assert_eq!(tree.children[1], file_node("/w/b.txt", None, None));
}

#[test]
fn poll_leaves_folders_alone() {
    let mut tree = folder_node("/w", vec![folder_node("/w/d", Vec::new())]);
    let mut out = Vec::new();
    tree.poll(&vec![seen(Some(9), Some("x"))], NOW, &mut out);
    assert_eq!(out, Vec::new());
    assert_eq!(tree, folder_node("/w", vec![folder_node("/w/d", Vec::new())]));
}

#[test]
fn poll_reports_in_walk_order_and_appends() {
    let mut tree = folder_node(
        "/w",
        vec![
            folder_node("/w/d", vec![file_node("/w/d/b.rs", Some(2), Some("b\n"))]),
            file_node("/w/a.txt", Some(1), Some("a\n")),
            file_node("/w/c.txt", Some(3), Some("c\n")),
        ],
    );
    let earlier = note("/earlier", Vec::new());
    let mut out = vec![earlier.clone()];
    let observations =
        vec![seen(Some(20), Some("b\nb2\n")), seen(Some(1), None), seen(Some(30), Some(""))];
    tree.poll(&observations, NOW, &mut out);
    assert_eq!(
        out,
        vec![
            earlier,
            note("/w/d/b.rs", vec![line(Tag::Common, "b"), line(Tag::Added, "b2")]),
            note("/w/c.txt", vec![line(Tag::Removed, "c")]),
        ]
    );
}

#[test]
fn refresh_holds_one_node_against_what_was_seen() {
    let mut node = file_node("/w/a.txt", Some(1), Some("one\n"));
    let mut out = Vec::new();
    node.refresh(Some(2), &Some("two\n".to_string()), NOW, &mut out);
    assert_eq!(out, vec![note("/w/a.txt", vec![line(Tag::Removed, "one"), line(Tag::Added, "two")])]);
    assert_eq!(node, file_node("/w/a.txt", Some(2), Some("two\n")));
    let mut folder = folder_node("/w", Vec::new());
    folder.refresh(Some(2), &Some("two\n".to_string()), NOW, &mut out);
    assert_eq!(out.len(), 1);
    assert_eq!(folder, folder_node("/w", Vec::new()));
}

#[test]
fn build_then_edit_then_poll() {
    let scan = Scan::Folder {
        path: "/w".to_string(),
        entries: vec![
            Scan::File { path: "/w/a.txt".to_string(), stat: Stat::At(100), content: Some("hello\n".to_string()) },
            Scan::File { path: "/w/b.log".to_string(), stat: Stat::At(100), content: Some("log\n".to_string()) },
        ],
    };
    let mut tree = FileTree::new("/w");
    tree.fill(&scan, &Config::default()).unwrap();
    assert_eq!(tree.head.children.len(), 1);
    assert_eq!(tree.head.children[0].name, "a.txt");
    assert_eq!(tree.head.children[0].kind, NodeType::File);
    let watched = tree.watched();
    assert_eq!(watched.len(), 1);
    assert_eq!(watched[0].path, "/w/a.txt");
    let mut out = Vec::new();
    tree.poll(&vec![seen(Some(200), Some("hello\nworld\n"))], NOW, &mut out);
    assert_eq!(out, vec![note("/w/a.txt", vec![line(Tag::Common, "hello"), line(Tag::Added, "world")])]);
}

#[test]
fn default_schedule() {
    let s = Schedule::default();
    assert_eq!(s.period_nanos, 1_000_000_000);
    assert_eq!(s.rebuild_every, 1000);
}

#[test]
fn tick_asks_for_a_rebuild_every_so_many_passes() {
    let schedule = Schedule { period_nanos: 1, rebuild_every: 3 };
    let mut cycle = Cycle::new();
    let asked: Vec<bool> = (0..7).map(|_| cycle.tick(&schedule)).collect();
    assert_eq!(asked, vec![false, false, true, false, false, true, false]);
    assert_eq!(cycle.count, 1);
}

#[test]
fn tick_with_the_default_schedule_rebuilds_at_the_thousandth_pass() {
    let schedule = Schedule::default();
    let mut cycle = Cycle::new();
    for _ in 0..999 {
        assert!(!cycle.tick(&schedule));
    }
    assert_eq!(cycle.count, 999);
    assert!(cycle.tick(&schedule));
    assert_eq!(cycle.count, 0);
}

#[test]
fn tick_never_rebuilds_without_an_interval() {
    let schedule = Schedule { period_nanos: 1, rebuild_every: 0 };
    let mut cycle = Cycle::new();
    for _ in 0..10 {
        assert!(!cycle.tick(&schedule));
    }
    assert_eq!(cycle.count, 10);
    let mut full = Cycle { count: usize::MAX };
    assert!(!full.tick(&schedule));
    assert_eq!(full.count, usize::MAX);
}

#[test]
fn tick_rebuilds_each_pass_with_an_interval_of_one() {
    let schedule = Schedule { period_nanos: 1, rebuild_every: 1 };
    let mut cycle = Cycle::new();
    assert!(cycle.tick(&schedule));
    assert!(cycle.tick(&schedule));
    assert_eq!(cycle.count, 0);
}

#[test]
fn drain_takes_the_latest_and_drops_the_rest() {
    let mut buffer = vec![note("/a", Vec::new()), note("/b", Vec::new()), note("/c", Vec::new())];
    assert_eq!(drain(&mut buffer), Some(note("/c", Vec::new())));
    assert_eq!(buffer, Vec::new());
    assert_eq!(drain(&mut buffer), None);
}
