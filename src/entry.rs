//! Listing entries and the two orders they are listed in.
use vstd::prelude::*;

use crate::icon::{icon, icon_of, Icon};
use crate::path::{display_name_of, web_path_of, TreePath};

verus! {

/// A modification time: seconds and nanoseconds since the Unix epoch, UTC.
#[derive(Debug, Clone, Copy, PartialEq, Eq, Structural)]
pub struct Timestamp {
    pub secs: i64,
    pub nanos: u32,
}

/// `a` is strictly later than `b`.
pub open spec fn later(a: Timestamp, b: Timestamp) -> bool {
    a.secs > b.secs || (a.secs == b.secs && a.nanos > b.nanos)
}

impl Timestamp {
    pub fn is_later_than(&self, other: &Timestamp) -> (r: bool)
        ensures
            r == later(*self, *other),
    {
        self.secs > other.secs || (self.secs == other.secs && self.nanos > other.nanos)
    }
}

/// `a` comes strictly before `b` in lexicographic order of code points.
pub open spec fn name_before(a: Seq<char>, b: Seq<char>) -> bool
    decreases a.len(),
{
    if a.len() == 0 {
        b.len() > 0
    } else if b.len() == 0 {
        false
    } else if a[0] != b[0] {
        (a[0] as u32) < (b[0] as u32)
    } else {
        name_before(a.drop_first(), b.drop_first())
    }
}

/// Lexicographic order of code points, which is the order of `String`.
pub fn text_before(a: &String, b: &String) -> (r: bool)
    ensures
        r == name_before(a@, b@),
{
    let n = a.as_str().unicode_len();
    let m = b.as_str().unicode_len();
    let mut i: usize = 0;
    assert(a@.skip(0) =~= a@);
    assert(b@.skip(0) =~= b@);
    while i < n && i < m
        invariant
            i <= n == a@.len(),
            i <= m == b@.len(),
            name_before(a@, b@) == name_before(a@.skip(i as int), b@.skip(i as int)),
        decreases n - i,
    {
        let x = a.as_str().get_char(i);
        let y = b.as_str().get_char(i);
        assert(a@.skip(i as int)[0] == x);
        assert(b@.skip(i as int)[0] == y);
        if x != y {
            return (x as u32) < (y as u32);
        }
        assert(a@.skip(i as int).drop_first() =~= a@.skip(i + 1));
        assert(b@.skip(i as int).drop_first() =~= b@.skip(i + 1));
        i = i + 1;
    }
    i == n && i < m
}

/// The text that the `size` crate writes for a byte count.
pub uninterp spec fn size_text_of(bytes: u64) -> Seq<char>;

/// Relies on `size::Size::from_bytes` and its `Display` impl: the
/// human-readable size text, a function of the byte count alone.
#[verifier::external_body]
fn format_size(bytes: u64) -> (r: String)
    ensures
        r@ == size_text_of(bytes),
{
    size::Size::from_bytes(bytes).to_string()
}

/// One file or directory of a listing.
#[derive(Debug, Clone)]
pub struct Entry {
    pub name: String,
    pub path: String,
    pub icon: Icon,
    pub date: Timestamp,
    pub size: String,
}

pub ghost struct EntryView {
    pub name: Seq<char>,
    pub path: Seq<char>,
    pub icon: Icon,
    pub date: Timestamp,
    pub size: Seq<char>,
}

impl View for Entry {
    type V = EntryView;

    open spec fn view(&self) -> EntryView {
        EntryView {
            name: self.name@,
            path: self.path@,
            icon: self.icon,
            date: self.date,
            size: self.size@,
        }
    }
}

/// The size column: a marker for directories, the size text for files.
pub open spec fn size_field_of(is_dir: bool, len: u64) -> Seq<char> {
    if is_dir {
        "directory"@
    } else {
        size_text_of(len)
    }
}

/// The entry of the filesystem object at `cs`.
pub open spec fn entry_view_of(
    cs: Seq<crate::path::PathComponent>,
    is_dir: bool,
    len: u64,
    modified: Timestamp,
) -> EntryView {
    EntryView {
        name: display_name_of(cs),
        path: web_path_of(cs),
        icon: icon_of(cs, is_dir),
        date: modified,
        size: size_field_of(is_dir, len),
    }
}

impl Entry {
    /// The entry of the object at `path`, from its metadata: whether it is a
    /// directory, its length in bytes and its modification time.
    pub fn new(path: &TreePath, is_dir: bool, len: u64, modified: Timestamp) -> (r: Entry)
        requires
            path.components@.len() < usize::MAX,
        ensures
            r@ == entry_view_of(path.components@, is_dir, len, modified),
    {
        let size = if is_dir {
            String::from_str("directory")
        } else {
            format_size(len)
        };
        Entry {
            name: path.display_name(),
            path: path.to_web_path(),
            icon: icon(path, is_dir),
            date: modified,
            size,
        }
    }
}

} // verus!
