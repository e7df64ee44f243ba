use cdn_index::entry::{text_before, Entry, Timestamp};
use cdn_index::icon::{icon, icon_for, Icon};
use cdn_index::order::{sort_entries, Order};
use cdn_index::path::{PathComponent, TreePath};

fn path(parts: &[&str]) -> TreePath {
    let mut cs = vec![PathComponent::CurDir];
    cs.extend(parts.iter().map(|p| PathComponent::Normal(p.to_string())));
    TreePath::new(cs)
}

fn at(secs: i64) -> Timestamp {
    Timestamp { secs, nanos: 0 }
}

#[test]
fn icon_of_lowercase_pdf() {
    assert_eq!(icon(&path(&["report.pdf"]), false), Icon::Pdf);
}

#[test]
fn icon_is_case_sensitive() {
    assert_eq!(icon(&path(&["report.PDF"]), false), Icon::Text);
}

#[test]
fn icon_of_directory() {
    assert_eq!(icon(&path(&["report.pdf"]), true), Icon::Dir);
    assert_eq!(icon(&path(&["sub"]), true), Icon::Dir);
}

#[test]
fn icon_of_extensionless_file_is_text() {
    assert_eq!(icon(&path(&["Makefile"]), false), Icon::Text);
}

#[test]
fn icon_table() {
    let cases = [
        ("comp", Icon::Comp),
        ("tgz", Icon::Compressed),
        ("bz2", Icon::Compressed),
        ("docx", Icon::Doc),
        ("xls", Icon::Xls),
        ("pptx", Icon::Ppt),
        ("markdown", Icon::Text),
        ("webp", Icon::Image),
        ("ps", Icon::Ps),
        ("ogg", Icon::Sound),
        ("webm", Icon::Movie),
        ("qt", Icon::Mov),
        ("java", Icon::Java),
        ("js", Icon::Js),
        ("php", Icon::Php),
        ("rs", Icon::Text),
    ];
    for (ext, want) in cases {
        assert_eq!(icon_for(&ext.to_string()), want, "{}", ext);
    }
    assert_eq!(icon(&path(&["a.tar.gz"]), false), Icon::Compressed);
}

#[test]
fn icon_asset_files() {
    assert_eq!(Icon::Dir.asset_file(), "dir.png");
    assert_eq!(Icon::Movie.asset_file(), "movie-ms.gif");
    assert_eq!(Icon::Compressed.asset_file(), "compressed.gif");
}

#[test]
fn entry_of_directory() {
    let e = Entry::new(&path(&["docs", "sub"]), true, 4096, at(7));
    assert_eq!(e.name, "sub");
    assert_eq!(e.path, "docs/sub");
    assert_eq!(e.icon, Icon::Dir);
    assert_eq!(e.size, "directory");
    assert_eq!(e.date, at(7));
}

#[test]
fn entry_of_file_has_size_text() {
    let e = Entry::new(&path(&["a.txt"]), false, 200, at(1));
    assert_eq!(e.size, "200 bytes");
    assert_eq!(e.icon, Icon::Text);
    let f = Entry::new(&path(&["big.zip"]), false, 1550, at(1));
    assert_eq!(f.size, "1.51 KiB");
}

#[test]
fn timestamps_compare_seconds_then_nanos() {
    let a = Timestamp { secs: 5, nanos: 10 };
    let b = Timestamp { secs: 5, nanos: 3 };
    assert!(a.is_later_than(&b));
    assert!(!b.is_later_than(&a));
    assert!(!a.is_later_than(&a));
    assert!(at(6).is_later_than(&a));
}

#[test]
fn text_order_is_lexicographic() {
    let s = |x: &str| x.to_string();
    assert!(text_before(&s("a"), &s("b")));
    assert!(text_before(&s("ab"), &s("abc")));
    assert!(!text_before(&s("abc"), &s("ab")));
    assert!(!text_before(&s("x"), &s("x")));
    assert!(text_before(&s("Z"), &s("a")));
}

#[test]
fn sort_by_name_ascending() {
    let es = ["c", "a", "b"]
        .iter()
        .map(|n| Entry::new(&path(&[n]), true, 0, at(0)))
        .collect();
    let sorted = sort_entries(es, Order::NameAscending);
    let names: Vec<&str> = sorted.iter().map(|e| e.name.as_str()).collect();
    assert_eq!(names, vec!["a", "b", "c"]);
}

#[test]
fn sort_by_date_descending_is_stable() {
    let es = [("old", 1), ("tie1", 5), ("new", 9), ("tie2", 5)]
        .iter()
        .map(|(n, t)| Entry::new(&path(&[n]), false, 0, at(*t)))
        .collect();
    let sorted = sort_entries(es, Order::DateDescending);
    let names: Vec<&str> = sorted.iter().map(|e| e.name.as_str()).collect();
    assert_eq!(names, vec!["new", "tie1", "tie2", "old"]);
    for w in sorted.windows(2) {
        assert!(!w[1].date.is_later_than(&w[0].date));
    }
}

#[test]
fn sort_of_empty_is_empty() {
    assert!(sort_entries(vec![], Order::DateDescending).is_empty());
}
