//! Paths as sequences of components, their web form and their breadcrumbs.
use vstd::prelude::*;

verus! {

/// One component of a filesystem path.
#[derive(Debug, Clone)]
pub enum PathComponent {
    /// The root marker of an absolute path.
    RootDir,
    /// The `.` marker.
    CurDir,
    /// The `..` marker.
    ParentDir,
    /// An ordinary named segment.
    Normal(String),
}

/// A filesystem path, held as its components.
#[derive(Debug, Clone)]
pub struct TreePath {
    pub components: Vec<PathComponent>,
}

/// One step of the navigation trail of a page.
#[derive(Debug, Clone)]
pub struct Breadcrumb {
    pub name: String,
    pub path: String,
}

pub ghost struct BreadcrumbView {
    pub name: Seq<char>,
    pub path: Seq<char>,
}

impl View for Breadcrumb {
    type V = BreadcrumbView;

    open spec fn view(&self) -> BreadcrumbView {
        BreadcrumbView { name: self.name@, path: self.path@ }
    }
}

/// The non-empty named segments of a path, in order.
pub open spec fn normal_names(cs: Seq<PathComponent>) -> Seq<Seq<char>>
    decreases cs.len(),
{
    if cs.len() == 0 {
        Seq::empty()
    } else {
        let rest = normal_names(cs.drop_last());
        match cs.last() {
            PathComponent::Normal(s) => if s@.len() > 0 {
                rest.push(s@)
            } else {
                rest
            },
            _ => rest,
        }
    }
}

/// The segments joined with `/` between them.
pub open spec fn join_slash(segs: Seq<Seq<char>>) -> Seq<char>
    decreases segs.len(),
{
    if segs.len() == 0 {
        Seq::empty()
    } else if segs.len() == 1 {
        segs[0]
    } else {
        join_slash(segs.drop_last()) + seq!['/'] + segs.last()
    }
}

/// The web form of a path: its named segments joined with `/`.
pub open spec fn web_path_of(cs: Seq<PathComponent>) -> Seq<char> {
    join_slash(normal_names(cs))
}

/// The last component's name, where the path ends in a named segment.
pub open spec fn file_name_of(cs: Seq<PathComponent>) -> Option<Seq<char>> {
    if cs.len() > 0 {
        match cs.last() {
            PathComponent::Normal(s) => Some(s@),
            _ => None,
        }
    } else {
        None
    }
}

/// The file name as display text: empty where the path has none.
pub open spec fn display_name_of(cs: Seq<PathComponent>) -> Seq<char> {
    match file_name_of(cs) {
        Some(n) => n,
        None => Seq::empty(),
    }
}

/// The index of the last `.` in `s`, or -1.
pub open spec fn last_dot(s: Seq<char>) -> int
    decreases s.len(),
{
    if s.len() == 0 {
        -1
    } else if s.last() == '.' {
        s.len() - 1
    } else {
        last_dot(s.drop_last())
    }
}

/// The extension of a file name: what follows its last `.`, where that dot
/// is not the name's first character; `..` has none.
pub open spec fn extension_of(name: Seq<char>) -> Option<Seq<char>> {
    if name == seq!['.', '.'] || last_dot(name) <= 0 {
        None
    } else {
        Some(name.skip(last_dot(name) + 1))
    }
}

/// The extension of the path's file name.
pub open spec fn path_extension_of(cs: Seq<PathComponent>) -> Option<Seq<char>> {
    match file_name_of(cs) {
        Some(n) => extension_of(n),
        None => None,
    }
}

/// The part of a path below the traversal root: a leading `.` is dropped.
pub open spec fn below_root(cs: Seq<PathComponent>) -> Seq<PathComponent> {
    if cs.len() > 0 && cs[0] is CurDir {
        cs.drop_first()
    } else {
        cs
    }
}

/// The breadcrumb of the path's first `i + 1` components below the root.
pub open spec fn crumb_at(cs: Seq<PathComponent>, i: int) -> BreadcrumbView {
    let prefix = below_root(cs).take(i + 1);
    BreadcrumbView { name: display_name_of(prefix), path: web_path_of(prefix) }
}

/// Appends the web form of one more component to `w`, which holds the web
/// form of a path with `count` named segments.
fn push_segment(w: &mut String, count: &mut usize, cs: Ghost<Seq<PathComponent>>, c: &PathComponent)
    requires
        old(w)@ == web_path_of(cs@),
        *old(count) == normal_names(cs@).len(),
        normal_names(cs@).len() <= cs@.len() < usize::MAX,
    ensures
        final(w)@ == web_path_of(cs@.push(*c)),
        *final(count) == normal_names(cs@.push(*c)).len(),
        normal_names(cs@.push(*c)).len() <= cs@.len() + 1,
{
    let ghost next = cs@.push(*c);
    assert(next.drop_last() =~= cs@);
    match c {
        PathComponent::Normal(s) => {
            if s.as_str().unicode_len() > 0 {
                proof {
                    reveal_strlit("/");
                }
                if *count > 0 {
                    w.append("/");
                }
                w.append(s.as_str());
                *count = *count + 1;
                let ghost segs = normal_names(next);
                assert(segs.drop_last() =~= normal_names(cs@));
            }
        },
        _ => {},
    }
}

/// The extension of a file name (see `extension_of`).
pub fn extension(name: &str) -> (r: Option<String>)
    ensures
        match r {
            Some(e) => extension_of(name@) == Some(e@),
            None => extension_of(name@) is None,
        },
{
    let len = name.unicode_len();
    if len == 2 && name.get_char(0) == '.' && name.get_char(1) == '.' {
        assert(name@ =~= seq!['.', '.']);
        return None;
    }
    let mut i: usize = len;
    assert(name@.take(len as int) =~= name@);
    while i > 0
        invariant
            i <= len == name@.len(),
            last_dot(name@) == last_dot(name@.take(i as int)),
        ensures
            i > 0 ==> last_dot(name@) == i - 1,
            i == 0 ==> last_dot(name@) == -1,
        decreases i,
    {
        assert(name@.take(i as int).drop_last() =~= name@.take(i - 1));
        if name.get_char(i - 1) == '.' {
            assert(last_dot(name@.take(i as int)) == i - 1);
            break;
        }
        i = i - 1;
        assert(i == 0 ==> name@.take(i as int) =~= Seq::<char>::empty());
    }
    if i <= 1 {
        None
    } else {
        let e = name.substring_char(i, len);
        assert(e@ =~= name@.skip(i as int));
        Some(String::from_str(e))
    }
}

impl TreePath {
    pub fn new(components: Vec<PathComponent>) -> (r: TreePath)
        ensures
            r.components@ == components@,
    {
        TreePath { components }
    }

    /// The path as a forward-slash link relative to the traversal root: root,
    /// `.` and `..` markers are dropped.
    pub fn to_web_path(&self) -> (r: String)
        requires
            self.components@.len() < usize::MAX,
        ensures
            r@ == web_path_of(self.components@),
    {
        let cs = &self.components;
        let mut w = String::new();
        let mut count: usize = 0;
        let mut i: usize = 0;
        while i < cs.len()
            invariant
                i <= cs@.len() < usize::MAX,
                w@ == web_path_of(cs@.take(i as int)),
                count == normal_names(cs@.take(i as int)).len(),
                normal_names(cs@.take(i as int)).len() <= i,
            decreases cs@.len() - i,
        {
            push_segment(&mut w, &mut count, Ghost(cs@.take(i as int)), &cs[i]);
            assert(cs@.take(i as int).push(cs@[i as int]) =~= cs@.take(i + 1));
            i = i + 1;
        }
        assert(cs@.take(i as int) =~= cs@);
        w
    }

    /// The last component's name, where the path ends in a named segment.
    pub fn file_name(&self) -> (r: Option<String>)
        ensures
            match r {
                Some(n) => file_name_of(self.components@) == Some(n@),
                None => file_name_of(self.components@) is None,
            },
    {
        let n = self.components.len();
        if n == 0 {
            return None;
        }
        match &self.components[n - 1] {
            PathComponent::Normal(s) => Some(s.clone()),
            _ => None,
        }
    }

    /// The file name as display text: empty where the path has none.
    pub fn display_name(&self) -> (r: String)
        ensures
            r@ == display_name_of(self.components@),
    {
        match self.file_name() {
            Some(n) => n,
            None => String::new(),
        }
    }

    /// The extension of the path's file name, without its dot.
    pub fn extension(&self) -> (r: Option<String>)
        ensures
            match r {
                Some(e) => path_extension_of(self.components@) == Some(e@),
                None => path_extension_of(self.components@) is None,
            },
    {
        match self.file_name() {
            Some(n) => extension(n.as_str()),
            None => None,
        }
    }

    /// The navigation trail of a directory: one breadcrumb per component
    /// below the traversal root, from the top down to the directory itself.
    pub fn to_breadcrumbs(&self) -> (r: Vec<Breadcrumb>)
        requires
            self.components@.len() < usize::MAX,
        ensures
            r@.len() == below_root(self.components@).len(),
            forall|i: int| 0 <= i < r@.len() ==> #[trigger] r@[i]@ == crumb_at(self.components@, i),
    {
        let cs = &self.components;
        let ghost body = below_root(cs@);
        let start: usize = if cs.len() > 0 && matches!(cs[0], PathComponent::CurDir) {
            1
        } else {
            0
        };
        assert(body =~= cs@.skip(start as int));
        let mut crumbs: Vec<Breadcrumb> = Vec::new();
        let mut w = String::new();
        let mut count: usize = 0;
        let mut i: usize = start;
        while i < cs.len()
            invariant
                start <= i <= cs@.len() < usize::MAX,
                body == cs@.skip(start as int),
                body == below_root(cs@),
                w@ == web_path_of(body.take(i - start)),
                count == normal_names(body.take(i - start)).len(),
                normal_names(body.take(i - start)).len() <= i - start,
                crumbs@.len() == i - start,
                forall|k: int| 0 <= k < crumbs@.len() ==> #[trigger] crumbs@[k]@ == crumb_at(cs@, k),
            decreases cs@.len() - i,
        {
            let ghost prefix = body.take(i - start);
            push_segment(&mut w, &mut count, Ghost(prefix), &cs[i]);
            assert(prefix.push(cs@[i as int]) =~= body.take(i - start + 1));
            let name = match &cs[i] {
                PathComponent::Normal(s) => s.clone(),
                _ => String::new(),
            };
            crumbs.push(Breadcrumb { name, path: w.clone() });
            assert(body.take(i - start + 1).last() == cs@[i as int]);
            assert(crumbs@[i - start]@ == crumb_at(cs@, i - start));
            i = i + 1;
        }
        crumbs
    }
}

/// A named segment with a non-empty name.
pub open spec fn is_named(c: PathComponent) -> bool {
    c matches PathComponent::Normal(s) && s@.len() > 0
}

/// Every component is a named segment: the path is already in web form.
pub open spec fn all_named(cs: Seq<PathComponent>) -> bool {
    forall|i: int| 0 <= i < cs.len() ==> is_named(#[trigger] cs[i])
}

/// The names of the components, empty for markers.
pub open spec fn segment_names(cs: Seq<PathComponent>) -> Seq<Seq<char>> {
    cs.map_values(
        |c: PathComponent|
            match c {
                PathComponent::Normal(s) => s@,
                _ => Seq::empty(),
            },
    )
}

/// On a path of named segments only, the web form is those names joined
/// with `/`.
pub proof fn lemma_web_path_of_named(cs: Seq<PathComponent>)
    requires
        all_named(cs),
    ensures
        normal_names(cs) == segment_names(cs),
        web_path_of(cs) == join_slash(segment_names(cs)),
    decreases cs.len(),
{
    if cs.len() > 0 {
        lemma_web_path_of_named(cs.drop_last());
        assert(segment_names(cs) =~= segment_names(cs.drop_last()).push(segment_names(cs).last()));
    } else {
        assert(segment_names(cs) =~= Seq::<Seq<char>>::empty());
    }
}

proof fn lemma_normal_names_of_named(cs: Seq<PathComponent>)
    ensures
        normal_names(cs.filter(|c: PathComponent| is_named(c))) == normal_names(cs),
    decreases cs.len(),
{
    reveal(Seq::filter);
    if cs.len() > 0 {
        lemma_normal_names_of_named(cs.drop_last());
        let f = cs.filter(|c: PathComponent| is_named(c));
        let g = cs.drop_last().filter(|c: PathComponent| is_named(c));
        if is_named(cs.last()) {
            assert(f.drop_last() =~= g);
        } else {
            assert(f == g);
        }
    }
}

/// Normalising is idempotent: keeping only the named segments of a path
/// leaves its web form as it was.
pub proof fn lemma_web_path_idempotent(cs: Seq<PathComponent>)
    ensures
        all_named(cs.filter(|c: PathComponent| is_named(c))),
        web_path_of(cs.filter(|c: PathComponent| is_named(c))) == web_path_of(cs),
{
    lemma_normal_names_of_named(cs);
    let f = cs.filter(|c: PathComponent| is_named(c));
    assert forall|i: int| 0 <= i < f.len() implies is_named(#[trigger] f[i]) by {
        cs.filter_lemma(|c: PathComponent| is_named(c));
    }
}

/// A root, `.` or `..` marker in front of a path leaves its web form as it
/// was.
pub proof fn lemma_web_path_drops_leading_marker(c: PathComponent, cs: Seq<PathComponent>)
    requires
        !(c is Normal),
    ensures
        web_path_of(seq![c] + cs) == web_path_of(cs),
    decreases cs.len(),
{
    if cs.len() == 0 {
        assert((seq![c] + cs).drop_last() =~= Seq::<PathComponent>::empty());
        assert(cs =~= Seq::<PathComponent>::empty());
    } else {
        lemma_web_path_drops_leading_marker(c, cs.drop_last());
        lemma_normal_names_drop_leading_marker(c, cs);
    }
}

proof fn lemma_normal_names_drop_leading_marker(c: PathComponent, cs: Seq<PathComponent>)
    requires
        !(c is Normal),
    ensures
        normal_names(seq![c] + cs) == normal_names(cs),
    decreases cs.len(),
{
    if cs.len() == 0 {
        assert((seq![c] + cs).drop_last() =~= Seq::<PathComponent>::empty());
        assert(cs =~= Seq::<PathComponent>::empty());
    } else {
        lemma_normal_names_drop_leading_marker(c, cs.drop_last());
        assert((seq![c] + cs).drop_last() =~= seq![c] + cs.drop_last());
    }
}

/// The breadcrumbs of a directory `./x/y/...` below the traversal root are
/// one per level, from the top down: the i-th is named after the i-th
/// segment and links to the first i + 1 segments.
pub proof fn lemma_breadcrumbs_of_directory(cs: Seq<PathComponent>)
    requires
        cs.len() > 0,
        cs[0] is CurDir,
        all_named(cs.drop_first()),
    ensures
        below_root(cs).len() == cs.len() - 1,
        forall|i: int|
            0 <= i < cs.len() - 1 ==> #[trigger] crumb_at(cs, i) == (BreadcrumbView {
                name: segment_names(cs.drop_first())[i],
                path: join_slash(segment_names(cs.drop_first()).take(i + 1)),
            }),
{
    let b = cs.drop_first();
    assert forall|i: int| 0 <= i < cs.len() - 1 implies #[trigger] crumb_at(cs, i) == (BreadcrumbView {
        name: segment_names(b)[i],
        path: join_slash(segment_names(b).take(i + 1)),
    }) by {
        let p = b.take(i + 1);
        assert(all_named(p)) by {
            assert forall|j: int| 0 <= j < p.len() implies is_named(#[trigger] p[j]) by {
                assert(p[j] == b[j]);
            }
        }
        lemma_web_path_of_named(p);
        assert(segment_names(p) =~= segment_names(b).take(i + 1));
        assert(p.last() == b[i]);
    }
}

} // verus!
