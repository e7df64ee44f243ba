//! What one directory's two listings hold, computed from the metadata of its
//! children.
use vstd::prelude::*;

use crate::entry::{entry_view_of, later, name_before, Entry, EntryView, Timestamp};
use crate::icon::Icon;
use crate::order::{
    lemma_sorted_by_is_sorted, lemma_sorted_by_permutes, precedes, sort_entries, sorted_by, views,
    Order,
};
use crate::path::{crumb_at, below_root, display_name_of, file_name_of, Breadcrumb, TreePath};

verus! {

/// The name of the directory, at the traversal root, that holds the bundled
/// page assets.
pub const VENDOR_DIR_NAME: &'static str = "_vendor";

/// A path is left out of every listing where its file name is the asset
/// directory's or that of a listing file.
pub open spec fn is_ignored(cs: Seq<crate::path::PathComponent>) -> bool {
    match file_name_of(cs) {
        Some(n) => n == VENDOR_DIR_NAME@ || n == "index.html"@ || n == "index.json"@,
        None => false,
    }
}

/// Whether `path` is left out of every listing.
pub fn ignore(path: &TreePath) -> (r: bool)
    ensures
        r == is_ignored(path.components@),
{
    match path.file_name() {
        Some(n) => n == String::from_str(VENDOR_DIR_NAME) || n == String::from_str("index.html")
            || n == String::from_str("index.json"),
        None => false,
    }
}

/// One child of a directory, with the metadata its entry is made from.
#[derive(Debug, Clone)]
pub struct Child {
    pub path: TreePath,
    pub is_dir: bool,
    pub len: u64,
    pub modified: Timestamp,
}

/// The child takes part in its directory's listings.
pub open spec fn is_listed(c: Child) -> bool {
    !is_ignored(c.path.components@)
}

/// The entry of a child.
pub open spec fn child_entry(c: Child) -> EntryView {
    entry_view_of(c.path.components@, c.is_dir, c.len, c.modified)
}

/// The entries of the listed children that are (where `dirs`) or are not
/// directories, in the order of the children.
pub open spec fn entries_of_kind(cs: Seq<Child>, dirs: bool) -> Seq<EntryView>
    decreases cs.len(),
{
    if cs.len() == 0 {
        Seq::empty()
    } else {
        let rest = entries_of_kind(cs.drop_last(), dirs);
        if is_listed(cs.last()) && cs.last().is_dir == dirs {
            rest.push(child_entry(cs.last()))
        } else {
            rest
        }
    }
}

/// The entries of the structured listing: the files, most recent first.
pub open spec fn json_listing(cs: Seq<Child>) -> Seq<EntryView> {
    sorted_by(Order::DateDescending, entries_of_kind(cs, false))
}

/// The entries of the page: the directories by name, then the files as in
/// the structured listing.
pub open spec fn html_listing(cs: Seq<Child>) -> Seq<EntryView> {
    sorted_by(Order::NameAscending, entries_of_kind(cs, true)) + json_listing(cs)
}

impl Child {
    /// The child is a directory that takes part in the listings, and so is
    /// itself indexed.
    pub fn is_listed_directory(&self) -> (r: bool)
        ensures
            r == (self.is_dir && is_listed(*self)),
    {
        self.is_dir && !ignore(&self.path)
    }
}

/// Everything that the two listings of one directory show.
#[derive(Debug)]
pub struct Listing {
    /// The asset directory, as the page links it.
    pub vendor_dir: String,
    /// The navigation trail of the directory.
    pub breadcrumbs: Vec<Breadcrumb>,
    /// The entries of the structured listing.
    pub json_entries: Vec<Entry>,
    /// The entries of the page.
    pub html_entries: Vec<Entry>,
}

fn copy_entries(v: &Vec<Entry>) -> (r: Vec<Entry>)
    ensures
        views(r@) == views(v@),
{
    let mut r: Vec<Entry> = Vec::new();
    let mut i: usize = 0;
    while i < v.len()
        invariant
            i <= v@.len(),
            views(r@) == views(v@).take(i as int),
        decreases v@.len() - i,
    {
        let e = &v[i];
        let c = Entry {
            name: e.name.clone(),
            path: e.path.clone(),
            icon: e.icon,
            date: e.date,
            size: e.size.clone(),
        };
        let ghost before = r@;
        r.push(c);
        assert(views(r@) =~= views(before).push(c@));
        assert(views(v@).take(i + 1) =~= views(v@).take(i as int).push(v@[i as int]@));
        i = i + 1;
    }
    assert(views(v@).take(i as int) =~= views(v@));
    r
}

/// The listings of the directory at `dir` whose children are `children`, in
/// the order in which the directory was read.
pub fn build_listing(dir: &TreePath, children: &Vec<Child>) -> (r: Listing)
    requires
        dir.components@.len() < usize::MAX,
        forall|i: int|
            0 <= i < children@.len() ==> #[trigger] children@[i].path.components@.len()
                < usize::MAX,
    ensures
        r.vendor_dir@ == VENDOR_DIR_NAME@,
        r.breadcrumbs@.len() == below_root(dir.components@).len(),
        forall|i: int|
            0 <= i < r.breadcrumbs@.len() ==> #[trigger] r.breadcrumbs@[i]@ == crumb_at(
                dir.components@,
                i,
            ),
        views(r.json_entries@) == json_listing(children@),
        views(r.html_entries@) == html_listing(children@),
{
    let mut directories: Vec<Entry> = Vec::new();
    let mut files: Vec<Entry> = Vec::new();
    let mut i: usize = 0;
    while i < children.len()
        invariant
            i <= children@.len(),
            forall|k: int|
                0 <= k < children@.len() ==> #[trigger] children@[k].path.components@.len()
                    < usize::MAX,
            views(directories@) == entries_of_kind(children@.take(i as int), true),
            views(files@) == entries_of_kind(children@.take(i as int), false),
        decreases children@.len() - i,
    {
        let c = &children[i];
        let ghost t = children@.take(i + 1);
        assert(t.drop_last() =~= children@.take(i as int));
        assert(t.last() == *c);
        if !ignore(&c.path) {
            let e = Entry::new(&c.path, c.is_dir, c.len, c.modified);
            if c.is_dir {
                let ghost before = directories@;
                directories.push(e);
                assert(views(directories@) =~= views(before).push(e@));
            } else {
                let ghost before = files@;
                files.push(e);
                assert(views(files@) =~= views(before).push(e@));
            }
        }
        i = i + 1;
    }
    assert(children@.take(i as int) =~= children@);
    let directories = sort_entries(directories, Order::NameAscending);
    let files = sort_entries(files, Order::DateDescending);
    let json_entries = copy_entries(&files);
    let mut html_entries = directories;
    let mut rest = files;
    let ghost d = html_entries@;
    let ghost f = rest@;
    html_entries.append(&mut rest);
    assert(views(html_entries@) =~= views(d) + views(f));
    Listing {
        vendor_dir: String::from_str(VENDOR_DIR_NAME),
        breadcrumbs: dir.to_breadcrumbs(),
        json_entries,
        html_entries,
    }
}

/// The name of neither the asset directory nor a listing file.
pub open spec fn is_content_name(n: Seq<char>) -> bool {
    n != VENDOR_DIR_NAME@ && n != "index.html"@ && n != "index.json"@
}

proof fn lemma_kind_members(cs: Seq<Child>, dirs: bool)
    ensures
        forall|i: int|
            0 <= i < entries_of_kind(cs, dirs).len() ==> {
                let e = #[trigger] entries_of_kind(cs, dirs)[i];
                &&& (e.icon == Icon::Dir) == dirs
                &&& is_content_name(e.name)
            },
    decreases cs.len(),
{
    if cs.len() > 0 {
        lemma_kind_members(cs.drop_last(), dirs);
        reveal_strlit("_vendor");
        reveal_strlit("index.html");
        reveal_strlit("index.json");
        let c = cs.last();
        let cc = c.path.components@;
        assert(display_name_of(cc).len() == 0 ==> is_content_name(display_name_of(cc)));
    }
}

proof fn lemma_sorted_members(order: Order, s: Seq<EntryView>)
    ensures
        forall|i: int|
            0 <= i < sorted_by(order, s).len() ==> s.contains(#[trigger] sorted_by(order, s)[i]),
{
    broadcast use vstd::seq_lib::group_to_multiset_ensures;

    lemma_sorted_by_permutes(order, s);
    assert forall|i: int| 0 <= i < sorted_by(order, s).len() implies s.contains(
        #[trigger] sorted_by(order, s)[i],
    ) by {
        let x = sorted_by(order, s)[i];
        assert(sorted_by(order, s).contains(x));
        assert(sorted_by(order, s).to_multiset().count(x) > 0);
    }
}

/// The structured listing holds exactly the entries of the listed children
/// that are not directories, each as often as such a child gives it.
pub proof fn lemma_json_lists_exactly_the_files(cs: Seq<Child>)
    ensures
        json_listing(cs).to_multiset() =~= entries_of_kind(cs, false).to_multiset(),
{
    lemma_sorted_by_permutes(Order::DateDescending, entries_of_kind(cs, false));
}

/// In the structured listing no entry is newer than the one before it.
pub proof fn lemma_json_newest_first(cs: Seq<Child>)
    ensures
        forall|i: int|
            0 <= i < json_listing(cs).len() - 1 ==> !later(
                #[trigger] json_listing(cs)[i + 1].date,
                json_listing(cs)[i].date,
            ),
{
    let s = json_listing(cs);
    lemma_sorted_by_is_sorted(Order::DateDescending, entries_of_kind(cs, false));
    assert forall|i: int| 0 <= i < s.len() - 1 implies !later(
        #[trigger] s[i + 1].date,
        s[i].date,
    ) by {
        assert(!precedes(Order::DateDescending, s[i + 1], s[i]));
    }
}

/// The page lists all directories before all files, the directories by name
/// and the files newest first.
pub proof fn lemma_html_directories_first(cs: Seq<Child>)
    ensures
        ({
            let h = html_listing(cs);
            let k = entries_of_kind(cs, true).len();
            &&& h.len() == k + entries_of_kind(cs, false).len()
            &&& forall|i: int| 0 <= i < k ==> (#[trigger] h[i]).icon == Icon::Dir
            &&& forall|i: int| k <= i < h.len() ==> (#[trigger] h[i]).icon != Icon::Dir
            &&& forall|i: int|
                0 <= i < k - 1 ==> !name_before(#[trigger] h[i + 1].name, h[i].name)
            &&& forall|i: int| k <= i < h.len() - 1 ==> !later(#[trigger] h[i + 1].date, h[i].date)
        }),
{
    let h = html_listing(cs);
    let ds = entries_of_kind(cs, true);
    let fs = entries_of_kind(cs, false);
    let sd = sorted_by(Order::NameAscending, ds);
    let sf = sorted_by(Order::DateDescending, fs);
    let k = ds.len();
    lemma_sorted_by_permutes(Order::NameAscending, ds);
    lemma_sorted_by_permutes(Order::DateDescending, fs);
    lemma_sorted_by_is_sorted(Order::NameAscending, ds);
    lemma_sorted_by_is_sorted(Order::DateDescending, fs);
    lemma_sorted_members(Order::NameAscending, ds);
    lemma_sorted_members(Order::DateDescending, fs);
    lemma_kind_members(cs, true);
    lemma_kind_members(cs, false);
    assert forall|i: int| 0 <= i < k implies (#[trigger] h[i]).icon == Icon::Dir by {
        assert(h[i] == sd[i]);
        assert(ds.contains(sd[i]));
    }
    assert forall|i: int| k <= i < h.len() implies (#[trigger] h[i]).icon != Icon::Dir by {
        assert(h[i] == sf[i - k]);
        assert(fs.contains(sf[i - k]));
    }
    assert forall|i: int| 0 <= i < k - 1 implies !name_before(#[trigger] h[i + 1].name, h[i].name) by {
        assert(h[i] == sd[i] && h[i + 1] == sd[i + 1]);
        assert(!precedes(Order::NameAscending, sd[i + 1], sd[i]));
    }
    assert forall|i: int| k <= i < h.len() - 1 implies !later(#[trigger] h[i + 1].date, h[i].date) by {
        assert(h[i] == sf[i - k] && h[i + 1] == sf[(i - k) + 1]);
        assert(!precedes(Order::DateDescending, sf[(i - k) + 1], sf[i - k]));
    }
}

/// Neither listing ever shows the asset directory or a listing file.
pub proof fn lemma_outputs_never_listed(cs: Seq<Child>)
    ensures
        forall|i: int|
            0 <= i < html_listing(cs).len() ==> is_content_name(#[trigger] html_listing(cs)[i].name),
        forall|i: int|
            0 <= i < json_listing(cs).len() ==> is_content_name(#[trigger] json_listing(cs)[i].name),
{
    let ds = entries_of_kind(cs, true);
    let fs = entries_of_kind(cs, false);
    let sd = sorted_by(Order::NameAscending, ds);
    let sf = sorted_by(Order::DateDescending, fs);
    let h = html_listing(cs);
    lemma_sorted_by_permutes(Order::NameAscending, ds);
    lemma_sorted_members(Order::NameAscending, ds);
    lemma_sorted_members(Order::DateDescending, fs);
    lemma_kind_members(cs, true);
    lemma_kind_members(cs, false);
    assert forall|i: int| 0 <= i < sf.len() implies is_content_name(#[trigger] sf[i].name) by {
        assert(fs.contains(sf[i]));
    }
    assert forall|i: int| 0 <= i < h.len() implies is_content_name(#[trigger] h[i].name) by {
        if i < sd.len() {
            assert(h[i] == sd[i]);
            assert(ds.contains(sd[i]));
        } else {
            assert(h[i] == sf[i - sd.len()]);
        }
    }
}

proof fn lemma_kind_of_listed(cs: Seq<Child>, dirs: bool)
    ensures
        entries_of_kind(cs, dirs) == entries_of_kind(cs.filter(|c: Child| is_listed(c)), dirs),
    decreases cs.len(),
{
    reveal(Seq::filter);
    if cs.len() > 0 {
        lemma_kind_of_listed(cs.drop_last(), dirs);
        let f = cs.filter(|c: Child| is_listed(c));
        let g = cs.drop_last().filter(|c: Child| is_listed(c));
        if is_listed(cs.last()) {
            assert(f == g.push(cs.last()));
            assert(f.drop_last() =~= g);
        } else {
            assert(f == g);
        }
    }
}

/// Both listings depend on the listed children alone: the asset directory
/// and the listing files of an earlier run change neither.
pub proof fn lemma_listing_ignores_outputs(cs: Seq<Child>)
    ensures
        json_listing(cs) == json_listing(cs.filter(|c: Child| is_listed(c))),
        html_listing(cs) == html_listing(cs.filter(|c: Child| is_listed(c))),
{
    lemma_kind_of_listed(cs, true);
    lemma_kind_of_listed(cs, false);
}

} // verus!
