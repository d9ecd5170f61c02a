//! Names in order.

use crate::text::{chars_of, copy_chars, group_views, views};
use vstd::prelude::*;

verus! {

/// Whether `a` comes before `b` or is the same, character by character.
pub open spec fn text_le(a: Seq<char>, b: Seq<char>) -> bool
    decreases a.len(),
{
    if a.len() == 0 {
        true
    } else if b.len() == 0 {
        false
    } else if a[0] != b[0] {
        a[0] < b[0]
    } else {
        text_le(a.skip(1), b.skip(1))
    }
}

/// `names`, in order, with `name` put in its place.
pub open spec fn inserted(names: Seq<Seq<char>>, name: Seq<char>) -> Seq<Seq<char>>
    decreases names.len(),
{
    if names.len() == 0 || text_le(names.last(), name) {
        names.push(name)
    } else {
        inserted(names.drop_last(), name).push(names.last())
    }
}

/// `names` put in order.
pub open spec fn sorted(names: Seq<Seq<char>>) -> Seq<Seq<char>>
    decreases names.len(),
{
    if names.len() == 0 {
        names
    } else {
        inserted(sorted(names.drop_last()), names.last())
    }
}

/// Whether `a` comes before `b` or is the same.
fn text_before(a: &[char], b: &[char]) -> (yes: bool)
    ensures
        yes == text_le(a@, b@),
{
    let mut i: usize = 0;
    proof {
        assert(a@.skip(0) =~= a@);
        assert(b@.skip(0) =~= b@);
    }
    while i < a.len()
        invariant
            i <= a@.len(),
            i <= b@.len(),
            text_le(a@, b@) == text_le(a@.skip(i as int), b@.skip(i as int)),
        decreases a@.len() - i,
    {
        if i >= b.len() {
            return false;
        }
        if a[i] != b[i] {
            return a[i] < b[i];
        }
        proof {
            assert(a@.skip(i as int).skip(1) =~= a@.skip(i + 1));
            assert(b@.skip(i as int).skip(1) =~= b@.skip(i + 1));
        }
        i = i + 1;
    }
    true
}

/// Whether the name `a` comes before `b` or is the same.
pub(crate) fn name_before(a: &str, b: &str) -> (yes: bool)
    ensures
        yes == text_le(a@, b@),
{
    let a = chars_of(a);
    let b = chars_of(b);
    text_before(a.as_slice(), b.as_slice())
}

/// Puts `name` in its place.
fn insert_name(names: &mut Vec<Vec<char>>, name: Vec<char>)
    ensures
        views(final(names)@) == inserted(views(old(names)@), name@),
{
    broadcast use group_views;

    let ghost all = views(names@);
    let mut at: usize = names.len();
    proof {
        assert(all.take(at as int) =~= all);
        assert(all.skip(at as int) =~= Seq::empty());
        assert(inserted(all, name@) + Seq::empty() =~= inserted(all, name@));
    }
    while at > 0 && !text_before(names[at - 1].as_slice(), name.as_slice())
        invariant
            at <= names@.len(),
            all == views(names@),
            inserted(all.take(at as int), name@) + all.skip(at as int) == inserted(all, name@),
        decreases at,
    {
        broadcast use group_views;

        proof {
            let here = all.take(at as int);
            assert(here.drop_last() =~= all.take(at - 1));
            assert(here.last() == names@[at - 1]@);
            assert(inserted(all.take(at - 1), name@).push(all[at - 1]) + all.skip(at as int)
                =~= inserted(all.take(at - 1), name@) + all.skip(at - 1));
        }
        at = at - 1;
    }
    names.insert(at, name);
    proof {
        let here = all.take(at as int);
        if at > 0 {
            assert(here.last() == all[at - 1]);
        }
        assert(inserted(here, name@) == here.push(name@));
        assert(views(names@) =~= here.push(name@) + all.skip(at as int));
    }
}

/// Puts `names` in order.
pub(crate) fn sort_names(names: &Vec<Vec<char>>) -> (ordered: Vec<Vec<char>>)
    ensures
        views(ordered@) == sorted(views(names@)),
{
    broadcast use group_views;

    let ghost all = views(names@);
    let mut ordered: Vec<Vec<char>> = Vec::new();
    for i in 0..names.len()
        invariant
            all == views(names@),
            views(ordered@) == sorted(all.take(i as int)),
    {
        broadcast use group_views;

        proof {
            assert(all.take(i + 1).drop_last() =~= all.take(i as int));
            assert(all.take(i + 1).last() == names@[i as int]@);
        }
        insert_name(&mut ordered, copy_chars(names[i].as_slice()));
    }
    proof {
        assert(all.take(all.len() as int) =~= all);
    }
    ordered
}

// ---------------------------------------------------------------------------
// What holds of every order
// ---------------------------------------------------------------------------
/// Of two names one comes before the other or they are the same.
pub proof fn text_order_is_total(a: Seq<char>, b: Seq<char>)
    ensures
        text_le(a, b) || text_le(b, a),
    decreases a.len(),
{
    if a.len() > 0 && b.len() > 0 && a[0] == b[0] {
        text_order_is_total(a.skip(1), b.skip(1));
    }
}

/// What comes before a name that comes before another comes before that one.
pub proof fn text_order_is_transitive(a: Seq<char>, b: Seq<char>, c: Seq<char>)
    requires
        text_le(a, b),
        text_le(b, c),
    ensures
        text_le(a, c),
    decreases a.len(),
{
    if a.len() > 0 && b.len() > 0 && c.len() > 0 && a[0] == b[0] && b[0] == c[0] {
        text_order_is_transitive(a.skip(1), b.skip(1), c.skip(1));
    }
}

/// Whether names stand in order.
pub open spec fn in_order(names: Seq<Seq<char>>) -> bool {
    forall|i: int, j: int|
        0 <= i < j < names.len() ==> text_le(#[trigger] names[i], #[trigger] names[j])
}

proof fn lemma_inserted(names: Seq<Seq<char>>, name: Seq<char>)
    requires
        in_order(names),
    ensures
        in_order(inserted(names, name)),
        inserted(names, name).to_multiset() == names.to_multiset().insert(name),
        inserted(names, name).len() == names.len() + 1,
        forall|k: int|
            0 <= k <= names.len() ==> (#[trigger] inserted(names, name)[k] == name
                || names.contains(inserted(names, name)[k])),
    decreases names.len(),
{
    broadcast use vstd::seq_lib::group_to_multiset_ensures;

    let new = inserted(names, name);
    if names.len() == 0 || text_le(names.last(), name) {
        assert forall|i: int, j: int| 0 <= i < j < new.len() implies text_le(
            #[trigger] new[i],
            #[trigger] new[j],
        ) by {
            if j == names.len() && i < names.len() - 1 {
                assert(text_le(names[i], names[names.len() - 1]));
                text_order_is_transitive(names[i], names.last(), name);
            }
        }
        assert forall|k: int| 0 <= k <= names.len() implies (#[trigger] new[k] == name
            || names.contains(new[k])) by {
            if k < names.len() {
                assert(names[k] == new[k]);
            }
        }
    } else {
        let init = names.drop_last();
        let last = names.last();
        let tail = inserted(init, name);
        assert forall|i: int, j: int| 0 <= i < j < init.len() implies text_le(
            #[trigger] init[i],
            #[trigger] init[j],
        ) by {
            assert(text_le(names[i], names[j]));
        }
        lemma_inserted(init, name);
        text_order_is_total(last, name);
        assert forall|k: int| 0 <= k < tail.len() implies text_le(#[trigger] tail[k], last) by {
            assert(tail[k] == name || init.contains(tail[k]));
            if tail[k] != name {
                let m = choose|m: int| 0 <= m < init.len() && init[m] == tail[k];
                assert(text_le(names[m], names[names.len() - 1]));
            }
        }
        assert forall|i: int, j: int| 0 <= i < j < new.len() implies text_le(
            #[trigger] new[i],
            #[trigger] new[j],
        ) by {
            if j < tail.len() {
                assert(text_le(tail[i], tail[j]));
            } else {
                assert(text_le(tail[i], last));
            }
        }
        assert(names =~= init.push(last));
        assert(new.to_multiset() =~= names.to_multiset().insert(name));
        assert forall|k: int| 0 <= k <= names.len() implies (#[trigger] new[k] == name
            || names.contains(new[k])) by {
            if k < tail.len() {
                assert(tail[k] == name || init.contains(tail[k]));
                if tail[k] != name {
                    let m = choose|m: int| 0 <= m < init.len() && init[m] == tail[k];
                    assert(names[m] == new[k]);
                }
            } else {
                assert(names[names.len() - 1] == new[k]);
            }
        }
    }
}

/// Sorting puts names in order and neither adds nor loses one.
pub proof fn sorting_orders_the_names(names: Seq<Seq<char>>)
    ensures
        in_order(sorted(names)),
        sorted(names).to_multiset() == names.to_multiset(),
    decreases names.len(),
{
    broadcast use vstd::seq_lib::group_to_multiset_ensures;

    if names.len() > 0 {
        sorting_orders_the_names(names.drop_last());
        lemma_inserted(sorted(names.drop_last()), names.last());
        assert(names =~= names.drop_last().push(names.last()));
    }
}

/// Names are ordered by the first character in which they differ, and a name
/// comes before every longer one that starts with it.
pub proof fn names_are_ordered_by_their_first_difference(
    start: Seq<char>,
    x: char,
    a: Seq<char>,
    y: char,
    b: Seq<char>,
)
    requires
        x != y,
    ensures
        text_le(start, start + a),
        a.len() > 0 ==> !text_le(start + a, start),
        text_le(start + seq![x] + a, start + seq![y] + b) <==> x < y,
    decreases start.len(),
{
    let left = start + seq![x] + a;
    let right = start + seq![y] + b;
    if start.len() == 0 {
        assert(left[0] == x && right[0] == y);
        assert(start + a =~= a);
    } else {
        let tail = start.skip(1);
        names_are_ordered_by_their_first_difference(tail, x, a, y, b);
        assert(left.skip(1) =~= tail + seq![x] + a);
        assert(right.skip(1) =~= tail + seq![y] + b);
        assert((start + a).skip(1) =~= tail + a);
        assert(left[0] == start[0] && right[0] == start[0] && (start + a)[0] == start[0]);
    }
}

} // verus!
