//! The two listing orders and a stable sort of entries by either.
use vstd::prelude::*;

use vstd::multiset::Multiset;

use crate::entry::{later, name_before, text_before, Entry, EntryView};

verus! {

/// How a run of entries is ordered.
#[derive(Debug, Clone, Copy, PartialEq, Eq, Structural)]
pub enum Order {
    /// By name, lexicographically ascending.
    NameAscending,
    /// By modification time, most recent first.
    DateDescending,
}

/// `a` must be listed before `b` under `order`.
pub open spec fn precedes(order: Order, a: EntryView, b: EntryView) -> bool {
    match order {
        Order::NameAscending => name_before(a.name, b.name),
        Order::DateDescending => later(a.date, b.date),
    }
}

/// No adjacent pair of `s` is out of `order`.
pub open spec fn is_sorted(order: Order, s: Seq<EntryView>) -> bool {
    forall|i: int| 0 <= i < s.len() - 1 ==> !#[trigger] precedes(order, s[i + 1], s[i])
}

/// `e` placed before the first element of `s` that it precedes.
pub open spec fn insert_sorted(order: Order, s: Seq<EntryView>, e: EntryView) -> Seq<EntryView>
    decreases s.len(),
{
    if s.len() == 0 {
        seq![e]
    } else if precedes(order, e, s[0]) {
        seq![e] + s
    } else {
        seq![s[0]] + insert_sorted(order, s.drop_first(), e)
    }
}

/// `s` sorted stably by `order`: elements that neither precedes keep their
/// relative positions.
pub open spec fn sorted_by(order: Order, s: Seq<EntryView>) -> Seq<EntryView>
    decreases s.len(),
{
    if s.len() == 0 {
        s
    } else {
        insert_sorted(order, sorted_by(order, s.drop_last()), s.last())
    }
}

/// The views of a run of entries.
pub open spec fn views(s: Seq<Entry>) -> Seq<EntryView> {
    s.map_values(|e: Entry| e@)
}

proof fn lemma_name_before_asymmetric(a: Seq<char>, b: Seq<char>)
    ensures
        name_before(a, b) ==> !name_before(b, a),
    decreases a.len(),
{
    if a.len() > 0 && b.len() > 0 && a[0] == b[0] {
        lemma_name_before_asymmetric(a.drop_first(), b.drop_first());
    }
}

proof fn lemma_precedes_asymmetric(order: Order, a: EntryView, b: EntryView)
    ensures
        precedes(order, a, b) ==> !precedes(order, b, a),
{
    lemma_name_before_asymmetric(a.name, b.name);
}

proof fn lemma_insert_at(order: Order, s: Seq<EntryView>, e: EntryView, p: int)
    requires
        0 <= p <= s.len(),
        forall|k: int| 0 <= k < p ==> !#[trigger] precedes(order, e, s[k]),
        p < s.len() ==> precedes(order, e, s[p]),
    ensures
        insert_sorted(order, s, e) == s.insert(p, e),
    decreases s.len(),
{
    if s.len() == 0 {
        assert(s.insert(p, e) =~= seq![e]);
    } else if p == 0 {
        assert(s.insert(p, e) =~= seq![e] + s);
    } else {
        let t = s.drop_first();
        assert forall|k: int| 0 <= k < p - 1 implies !#[trigger] precedes(order, e, t[k]) by {
            assert(t[k] == s[k + 1]);
        }
        lemma_insert_at(order, t, e, p - 1);
        assert(s.insert(p, e) =~= seq![s[0]] + t.insert(p - 1, e));
    }
}

proof fn lemma_insert_multiset(order: Order, s: Seq<EntryView>, e: EntryView)
    ensures
        insert_sorted(order, s, e).to_multiset() =~= s.to_multiset().insert(e),
    decreases s.len(),
{
    broadcast use vstd::seq_lib::group_to_multiset_ensures, vstd::seq_lib::lemma_multiset_commutative,
        vstd::multiset::group_multiset_axioms;

    let empty = Seq::<EntryView>::empty();
    assert(empty.to_multiset() =~= Multiset::empty());
    if s.len() == 0 {
        assert(seq![e] =~= s.push(e));
    } else {
        let t = s.drop_first();
        assert(s =~= seq![s[0]] + t);
        assert(seq![e] =~= empty.push(e));
        assert(seq![s[0]] =~= empty.push(s[0]));
        if !precedes(order, e, s[0]) {
            lemma_insert_multiset(order, t, e);
        }
    }
}

proof fn lemma_insert_keeps_sorted(order: Order, s: Seq<EntryView>, e: EntryView)
    requires
        is_sorted(order, s),
    ensures
        is_sorted(order, insert_sorted(order, s, e)),
        insert_sorted(order, s, e).len() == s.len() + 1,
        insert_sorted(order, s, e)[0] == e || (s.len() > 0 && insert_sorted(order, s, e)[0]
            == s[0]),
    decreases s.len(),
{
    if s.len() == 0 {
    } else if precedes(order, e, s[0]) {
        lemma_precedes_asymmetric(order, e, s[0]);
        let r = seq![e] + s;
        assert forall|i: int| 0 <= i < r.len() - 1 implies !#[trigger] precedes(
            order,
            r[i + 1],
            r[i],
        ) by {
            if i > 0 {
                assert(r[i] == s[i - 1] && r[i + 1] == s[(i - 1) + 1]);
                assert(!precedes(order, s[(i - 1) + 1], s[i - 1]));
            } else {
                assert(r[0] == e && r[1] == s[0]);
            }
        }
    } else {
        let t = s.drop_first();
        assert forall|i: int| 0 <= i < t.len() - 1 implies !#[trigger] precedes(
            order,
            t[i + 1],
            t[i],
        ) by {
            assert(t[i] == s[i + 1] && t[i + 1] == s[(i + 1) + 1]);
            assert(!precedes(order, s[(i + 1) + 1], s[i + 1]));
        }
        lemma_insert_keeps_sorted(order, t, e);
        let u = insert_sorted(order, t, e);
        let r = seq![s[0]] + u;
        assert forall|i: int| 0 <= i < r.len() - 1 implies !#[trigger] precedes(
            order,
            r[i + 1],
            r[i],
        ) by {
            if i > 0 {
                assert(r[i] == u[i - 1] && r[i + 1] == u[(i - 1) + 1]);
                assert(!precedes(order, u[(i - 1) + 1], u[i - 1]));
            } else if u[0] != e {
                assert(u[0] == t[0] && t[0] == s[1] && r[1] == u[0] && r[0] == s[0]);
                assert(!precedes(order, s[0int + 1], s[0int]));
            } else {
                assert(r[1] == e && r[0] == s[0]);
            }
        }
    }
}

/// Sorting only rearranges: the result holds the same entries, each as
/// often as the input does.
pub proof fn lemma_sorted_by_permutes(order: Order, s: Seq<EntryView>)
    ensures
        sorted_by(order, s).to_multiset() =~= s.to_multiset(),
        sorted_by(order, s).len() == s.len(),
    decreases s.len(),
{
    if s.len() > 0 {
        lemma_sorted_by_permutes(order, s.drop_last());
        lemma_insert_multiset(order, sorted_by(order, s.drop_last()), s.last());
        s.drop_last().to_multiset_ensures();
        assert(s =~= s.drop_last().push(s.last()));
        sorted_by(order, s).to_multiset_ensures();
        sorted_by(order, s.drop_last()).to_multiset_ensures();
    }
}

/// Sorting leaves no adjacent pair out of order.
pub proof fn lemma_sorted_by_is_sorted(order: Order, s: Seq<EntryView>)
    ensures
        is_sorted(order, sorted_by(order, s)),
    decreases s.len(),
{
    if s.len() > 0 {
        lemma_sorted_by_is_sorted(order, s.drop_last());
        lemma_insert_keeps_sorted(order, sorted_by(order, s.drop_last()), s.last());
    }
}

fn precedes_exec(order: Order, a: &Entry, b: &Entry) -> (r: bool)
    ensures
        r == precedes(order, a@, b@),
{
    match order {
        Order::NameAscending => text_before(&a.name, &b.name),
        Order::DateDescending => a.date.is_later_than(&b.date),
    }
}

/// Sorts `entries` stably by `order`: entries with equal keys (the same
/// modification time, say) keep the order in which they were read.
pub fn sort_entries(entries: Vec<Entry>, order: Order) -> (r: Vec<Entry>)
    ensures
        views(r@) == sorted_by(order, views(entries@)),
{
    let ghost orig = views(entries@);
    let mut rest = entries;
    let mut r: Vec<Entry> = Vec::new();
    let ghost mut i: int = 0;
    while rest.len() > 0
        invariant
            0 <= i <= orig.len(),
            rest@.len() + i == orig.len(),
            views(rest@) == orig.skip(i as int),
            views(r@) == sorted_by(order, orig.take(i as int)),
        decreases rest@.len(),
    {
        let ghost old_rest = rest@;
        let e = rest.remove(0);
        assert(views(old_rest)[0] == orig.skip(i as int)[0]);
        assert forall|k: int| 0 <= k < rest@.len() implies views(rest@)[k] == orig.skip(i + 1)[k] by {
            assert(rest@[k] == old_rest[k + 1]);
            assert(views(rest@)[k] == rest@[k]@);
            assert(views(old_rest)[k + 1] == old_rest[k + 1]@);
            assert(views(old_rest)[k + 1] == orig.skip(i as int)[k + 1]);
            assert(orig.skip(i as int)[k + 1] == orig[i + k + 1]);
            assert(orig.skip(i + 1)[k] == orig[i + 1 + k]);
        }
        assert(views(rest@) =~= orig.skip(i + 1));
        assert(e@ == orig[i as int]);
        let mut p: usize = 0;
        while p < r.len()
            invariant
                p <= r@.len(),
                forall|k: int| 0 <= k < p ==> !#[trigger] precedes(order, e@, views(r@)[k]),
            ensures
                p <= r@.len(),
                forall|k: int| 0 <= k < p ==> !#[trigger] precedes(order, e@, views(r@)[k]),
                p < r@.len() ==> precedes(order, e@, views(r@)[p as int]),
            decreases r@.len() - p,
        {
            if precedes_exec(order, &e, &r[p]) {
                break;
            }
            p = p + 1;
        }
        proof {
            lemma_insert_at(order, views(r@), e@, p as int);
            let t = orig.take(i + 1);
            assert(t.drop_last() =~= orig.take(i as int));
        }
        let ghost before = views(r@);
        r.insert(p, e);
        assert(views(r@) =~= before.insert(p as int, e@));
        proof {
            i = i + 1;
        }
    }
    assert(orig.take(i as int) =~= orig);
    r
}

} // verus!
