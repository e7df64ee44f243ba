use cdn_index::path::{extension, PathComponent, TreePath};

fn named(parts: &[&str]) -> Vec<PathComponent> {
    parts.iter().map(|p| PathComponent::Normal(p.to_string())).collect()
}

fn with_front(front: PathComponent, parts: &[&str]) -> TreePath {
    let mut cs = vec![front];
    cs.extend(named(parts));
    TreePath::new(cs)
}

#[test]
fn web_path_joins_named_segments() {
    assert_eq!(TreePath::new(named(&["a", "b"])).to_web_path(), "a/b");
}

#[test]
fn web_path_of_single_segment_has_no_slash() {
    assert_eq!(TreePath::new(named(&["a"])).to_web_path(), "a");
}

#[test]
fn web_path_of_empty_path_is_empty() {
    assert_eq!(TreePath::new(vec![]).to_web_path(), "");
}

#[test]
fn web_path_ignores_leading_root() {
    let plain = TreePath::new(named(&["a", "b"])).to_web_path();
    let rooted = with_front(PathComponent::RootDir, &["a", "b"]).to_web_path();
    assert_eq!(plain, rooted);
}

#[test]
fn web_path_drops_dot_and_dot_dot() {
    let p = TreePath::new(vec![
        PathComponent::CurDir,
        PathComponent::Normal("a".to_string()),
        PathComponent::ParentDir,
        PathComponent::Normal("b".to_string()),
        PathComponent::Normal(String::new()),
    ]);
    assert_eq!(p.to_web_path(), "a/b");
}

#[test]
fn web_path_is_idempotent() {
    let once = with_front(PathComponent::CurDir, &["x", "y"]).to_web_path();
    let segs: Vec<&str> = once.split('/').collect();
    let twice = TreePath::new(named(&segs)).to_web_path();
    assert_eq!(once, twice);
}

#[test]
fn breadcrumbs_three_levels_deep() {
    let crumbs = with_front(PathComponent::CurDir, &["x", "y", "z"]).to_breadcrumbs();
    assert_eq!(crumbs.len(), 3);
    assert_eq!(crumbs[0].name, "x");
    assert_eq!(crumbs[0].path, "x");
    assert_eq!(crumbs[1].name, "y");
    assert_eq!(crumbs[1].path, "x/y");
    assert_eq!(crumbs[2].name, "z");
    assert_eq!(crumbs[2].path, "x/y/z");
}

#[test]
fn breadcrumbs_of_root_are_empty() {
    let crumbs = TreePath::new(vec![PathComponent::CurDir]).to_breadcrumbs();
    assert!(crumbs.is_empty());
}

#[test]
fn file_name_of_named_and_marker_paths() {
    assert_eq!(TreePath::new(named(&["a", "b.txt"])).file_name(), Some("b.txt".to_string()));
    assert_eq!(TreePath::new(vec![PathComponent::CurDir]).file_name(), None);
    assert_eq!(TreePath::new(vec![PathComponent::CurDir]).display_name(), "");
}

#[test]
fn extension_takes_text_after_last_dot() {
    assert_eq!(extension("a.tar.gz"), Some("gz".to_string()));
    assert_eq!(extension("report.pdf"), Some("pdf".to_string()));
    assert_eq!(extension("trailing."), Some(String::new()));
}

#[test]
fn extension_absent_cases() {
    assert_eq!(extension("README"), None);
    assert_eq!(extension(".bashrc"), None);
    assert_eq!(extension(".."), None);
    assert_eq!(extension(""), None);
}
