use cdn_index::entry::Timestamp;
use cdn_index::icon::Icon;
use cdn_index::listing::{build_listing, ignore, Child, Listing, VENDOR_DIR_NAME};
use cdn_index::path::{PathComponent, TreePath};

fn path(parts: &[&str]) -> TreePath {
    let mut cs = vec![PathComponent::CurDir];
    cs.extend(parts.iter().map(|p| PathComponent::Normal(p.to_string())));
    TreePath::new(cs)
}

fn child(parts: &[&str], is_dir: bool, secs: i64) -> Child {
    Child { path: path(parts), is_dir, len: 10, modified: Timestamp { secs, nanos: 0 } }
}

fn names(es: &[cdn_index::entry::Entry]) -> Vec<String> {
    es.iter().map(|e| e.name.clone()).collect()
}

#[test]
fn ignore_outputs_and_assets() {
    assert!(ignore(&path(&["_vendor"])));
    assert!(ignore(&path(&["sub", "index.html"])));
    assert!(ignore(&path(&["index.json"])));
    assert!(!ignore(&path(&["index.htm"])));
    assert!(!ignore(&path(&["a.txt"])));
    assert!(!ignore(&path(&[])));
}

#[test]
fn scenario_root_and_sub() {
    let root = build_listing(
        &path(&[]),
        &vec![child(&["a.txt"], false, 100), child(&["sub"], true, 50)],
    );
    assert_eq!(names(&root.json_entries), vec!["a.txt"]);
    assert_eq!(names(&root.html_entries), vec!["sub", "a.txt"]);
    assert!(root.breadcrumbs.is_empty());
    assert_eq!(root.vendor_dir, VENDOR_DIR_NAME);
    assert_eq!(root.html_entries[0].path, "sub");
    assert_eq!(root.html_entries[0].size, "directory");

    let sub = build_listing(&path(&["sub"]), &vec![child(&["sub", "b.txt"], false, 70)]);
    assert_eq!(names(&sub.json_entries), vec!["b.txt"]);
    assert_eq!(names(&sub.html_entries), vec!["b.txt"]);
    assert_eq!(sub.html_entries[0].path, "sub/b.txt");
    assert_eq!(sub.breadcrumbs.len(), 1);
    assert_eq!(sub.breadcrumbs[0].name, "sub");
    assert_eq!(sub.breadcrumbs[0].path, "sub");
}

#[test]
fn listings_order_directories_then_files() {
    let l = build_listing(
        &path(&[]),
        &vec![
            child(&["old.txt"], false, 1),
            child(&["zeta"], true, 9),
            child(&["new.txt"], false, 30),
            child(&["alpha"], true, 2),
            child(&["mid.txt"], false, 15),
        ],
    );
    assert_eq!(names(&l.json_entries), vec!["new.txt", "mid.txt", "old.txt"]);
    assert_eq!(
        names(&l.html_entries),
        vec!["alpha", "zeta", "new.txt", "mid.txt", "old.txt"]
    );
    let icons: Vec<Icon> = l.html_entries.iter().map(|e| e.icon).collect();
    assert_eq!(icons[..2], [Icon::Dir, Icon::Dir]);
    assert!(icons[2..].iter().all(|i| *i != Icon::Dir));
}

#[test]
fn outputs_of_earlier_run_are_not_listed() {
    let l = build_listing(
        &path(&[]),
        &vec![
            child(&["index.html"], false, 99),
            child(&["a.txt"], false, 5),
            child(&["_vendor"], true, 99),
            child(&["index.json"], false, 99),
        ],
    );
    assert_eq!(names(&l.json_entries), vec!["a.txt"]);
    assert_eq!(names(&l.html_entries), vec!["a.txt"]);
}

#[test]
fn rerun_gives_the_same_listing() {
    let fresh: Listing = build_listing(
        &path(&["d"]),
        &vec![child(&["d", "x.pdf"], false, 3), child(&["d", "y.png"], false, 4)],
    );
    let again = build_listing(
        &path(&["d"]),
        &vec![
            child(&["d", "x.pdf"], false, 3),
            child(&["d", "index.json"], false, 8),
            child(&["d", "y.png"], false, 4),
            child(&["d", "index.html"], false, 8),
        ],
    );
    assert_eq!(names(&fresh.json_entries), names(&again.json_entries));
    assert_eq!(names(&fresh.html_entries), names(&again.html_entries));
    assert_eq!(names(&again.json_entries), vec!["y.png", "x.pdf"]);
}

#[test]
fn empty_directory_has_empty_listings() {
    let l = build_listing(&path(&["e"]), &vec![]);
    assert!(l.json_entries.is_empty());
    assert!(l.html_entries.is_empty());
    assert_eq!(l.breadcrumbs.len(), 1);
}

#[test]
fn listed_directories_are_visited() {
    assert!(child(&["sub"], true, 0).is_listed_directory());
    assert!(!child(&["_vendor"], true, 0).is_listed_directory());
    assert!(!child(&["a.txt"], false, 0).is_listed_directory());
}
