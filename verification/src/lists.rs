//! Facts about lists.
use crate::scene::joined;
use vstd::prelude::*;

verus! {

/// A filtered list holds what the list holds and the filter keeps.
pub proof fn filtered_list_holds<T>(list: Seq<T>, keep: spec_fn(T) -> bool, item: T)
    ensures
        list.filter(keep).contains(item) <==> list.contains(item) && keep(item),
    decreases list.len(),
{
    reveal(Seq::filter);
    if list.len() > 0 {
        let rest = list.drop_last();
        filtered_list_holds(rest, keep, item);
        let kept = rest.filter(keep);
        let all = list.filter(keep);
        if rest.contains(item) {
            let k = choose|k: int| 0 <= k < rest.len() && rest[k] == item;
            assert(list[k] == item);
        }
        if list.contains(item) {
            let k = choose|k: int| 0 <= k < list.len() && list[k] == item;
            if k < rest.len() {
                assert(rest[k] == item);
            }
        }
        if kept.contains(item) {
            let k = choose|k: int| 0 <= k < kept.len() && kept[k] == item;
            assert(all[k] == item);
        }
        if all.contains(item) {
            let k = choose|k: int| 0 <= k < all.len() && all[k] == item;
            if k < kept.len() {
                assert(kept[k] == item);
            }
        }
        if keep(list.last()) {
            assert(all[kept.len() as int] == list.last());
            assert(list[list.len() - 1] == list.last());
        }
    }
}

/// What stands in lists that are put one after the other stands in one of
/// them, and the other way round.
pub proof fn joined_lists_hold<T>(parts: Seq<Seq<T>>, item: T)
    ensures
        joined(parts).contains(item) <==> exists|p: int|
            0 <= p < parts.len() && (#[trigger] parts[p]).contains(item),
    decreases parts.len(),
{
    if parts.len() > 0 {
        let rest = parts.drop_last();
        let last = parts.last();
        joined_lists_hold(rest, item);
        let before = joined(rest);
        let all = joined(parts);
        if before.contains(item) {
            let k = choose|k: int| 0 <= k < before.len() && before[k] == item;
            assert(all[k] == item);
            let p = choose|p: int| 0 <= p < rest.len() && (#[trigger] rest[p]).contains(item);
            assert(parts[p].contains(item));
        }
        if last.contains(item) {
            let k = choose|k: int| 0 <= k < last.len() && last[k] == item;
            assert(all[before.len() + k] == item);
            assert(parts[parts.len() - 1].contains(item));
        }
        if all.contains(item) {
            let k = choose|k: int| 0 <= k < all.len() && all[k] == item;
            if k < before.len() {
                assert(before[k] == item);
            } else {
                assert(last[k - before.len()] == item);
            }
        }
        if exists|p: int| 0 <= p < parts.len() && (#[trigger] parts[p]).contains(item) {
            let p = choose|p: int| 0 <= p < parts.len() && (#[trigger] parts[p]).contains(item);
            if p < rest.len() {
                assert(rest[p].contains(item));
            }
        }
    }
}

/// Two lists one after the other hold what either of them holds.
pub proof fn two_lists_hold<T>(a: Seq<T>, b: Seq<T>, item: T)
    ensures
        (a + b).contains(item) <==> a.contains(item) || b.contains(item),
{
    let all = a + b;
    if a.contains(item) {
        let k = choose|k: int| 0 <= k < a.len() && a[k] == item;
        assert(all[k] == item);
    }
    if b.contains(item) {
        let k = choose|k: int| 0 <= k < b.len() && b[k] == item;
        assert(all[a.len() + k] == item);
    }
    if all.contains(item) {
        let k = choose|k: int| 0 <= k < all.len() && all[k] == item;
        if k < a.len() {
            assert(a[k] == item);
        } else {
            assert(b[k - a.len()] == item);
        }
    }
}

/// Where a filter keeps one item of a list, it keeps that one; where it keeps
/// none, nothing is left; and where it keeps two, two are left.
pub proof fn filters_keep_as_many<T>(list: Seq<T>, keep: spec_fn(T) -> bool, i: int, j: int)
    requires
        0 <= i < list.len(),
        0 <= j < list.len(),
    ensures
        (forall|k: int| 0 <= k < list.len() ==> (keep(#[trigger] list[k]) <==> k == i))
            ==> list.filter(keep) == seq![list[i]],
        (forall|k: int| 0 <= k < list.len() ==> !keep(#[trigger] list[k])) ==> list.filter(keep)
            == Seq::<T>::empty(),
        i != j && keep(list[i]) && keep(list[j]) ==> list.filter(keep).len() >= 2,
    decreases list.len(),
{
    reveal(Seq::filter);
    let rest = list.drop_last();
    let last = list.len() - 1;
    assert(list[last] == list.last());
    if forall|k: int| 0 <= k < list.len() ==> !keep(#[trigger] list[k]) {
        nothing_is_kept(list, keep);
    }
    if forall|k: int| 0 <= k < list.len() ==> (keep(#[trigger] list[k]) <==> k == i) {
        if i == last {
            assert forall|k: int| 0 <= k < rest.len() implies !keep(#[trigger] rest[k]) by {
                assert(rest[k] == list[k]);
            }
            nothing_is_kept(rest, keep);
            assert(list.filter(keep) =~= seq![list[i]]);
        } else {
            assert forall|k: int| 0 <= k < rest.len() implies (keep(#[trigger] rest[k]) <==> k
                == i) by {
                assert(rest[k] == list[k]);
            }
            filters_keep_as_many(rest, keep, i, i);
            assert(rest[i] == list[i]);
        }
    }
    if i != j && keep(list[i]) && keep(list[j]) {
        if i == last {
            filtered_list_holds(rest, keep, list[j]);
            assert(rest[j] == list[j]);
            assert(rest.contains(list[j]));
        } else if j == last {
            filtered_list_holds(rest, keep, list[i]);
            assert(rest[i] == list[i]);
            assert(rest.contains(list[i]));
        } else {
            filters_keep_as_many(rest, keep, i, j);
            assert(rest[i] == list[i] && rest[j] == list[j]);
        }
    }
}

proof fn nothing_is_kept<T>(list: Seq<T>, keep: spec_fn(T) -> bool)
    requires
        forall|k: int| 0 <= k < list.len() ==> !keep(#[trigger] list[k]),
    ensures
        list.filter(keep) == Seq::<T>::empty(),
    decreases list.len(),
{
    reveal(Seq::filter);
    if list.len() > 0 {
        let rest = list.drop_last();
        assert(!keep(list[list.len() - 1]));
        assert forall|k: int| 0 <= k < rest.len() implies !keep(#[trigger] rest[k]) by {
            assert(rest[k] == list[k]);
        }
        nothing_is_kept(rest, keep);
    }
}

} // verus!
