//! Sets that are walked in the order of their elements.
use crate::text::{
    less_text, text_less, text_less_irreflexive, text_less_total, text_less_transitive,
};
use vstd::prelude::*;

verus! {

/// Elements with a total order, given by a key that tells them apart.
pub trait Ordered: Sized {
    type Key;

    spec fn key(&self) -> Self::Key;

    spec fn key_less(a: Self::Key, b: Self::Key) -> bool;

    fn comes_before(&self, other: &Self) -> (out: bool)
        ensures
            out == Self::key_less(self.key(), other.key()),
    ;

    proof fn irreflexive(a: Self::Key)
        ensures
            !Self::key_less(a, a),
    ;

    proof fn transitive(a: Self::Key, b: Self::Key, c: Self::Key)
        requires
            Self::key_less(a, b),
            Self::key_less(b, c),
        ensures
            Self::key_less(a, c),
    ;

    proof fn total(a: Self::Key, b: Self::Key)
        requires
            a != b,
        ensures
            Self::key_less(a, b) || Self::key_less(b, a),
    ;
}

impl Ordered for String {
    type Key = Seq<char>;

    open spec fn key(&self) -> Seq<char> {
        self@
    }

    open spec fn key_less(a: Seq<char>, b: Seq<char>) -> bool {
        text_less(a, b)
    }

    fn comes_before(&self, other: &Self) -> (out: bool) {
        less_text(self.as_str(), other.as_str())
    }

    proof fn irreflexive(a: Seq<char>) {
        text_less_irreflexive(a);
    }

    proof fn transitive(a: Seq<char>, b: Seq<char>, c: Seq<char>) {
        text_less_transitive(a, b, c);
    }

    proof fn total(a: Seq<char>, b: Seq<char>) {
        text_less_total(a, b);
    }
}

/// Keys in strictly increasing order.
pub open spec fn increasing<T: Ordered>(keys: Seq<T::Key>) -> bool {
    forall|i: int, j: int| 0 <= i < j < keys.len() ==> T::key_less(#[trigger] keys[i], #[trigger] keys[j])
}

/// The keys of several elements.
pub open spec fn keys_of<T: Ordered>(items: Seq<T>) -> Seq<T::Key> {
    items.map_values(|item: T| item.key())
}

/// A set of elements, held in increasing order.
#[derive(Debug, Clone)]
pub struct OrderedSet<T> {
    items: Vec<T>,
}

impl<T: Ordered> OrderedSet<T> {
    pub closed spec fn items(&self) -> Seq<T> {
        self.items@
    }

    /// The keys of the elements, in the order in which they are walked.
    pub open spec fn keys(&self) -> Seq<T::Key> {
        keys_of(self.items())
    }

    /// The elements stand in increasing order.
    pub open spec fn wf(&self) -> bool {
        increasing::<T>(self.keys())
    }

    /// Whether the set holds an element with this key.
    pub open spec fn holds(&self, key: T::Key) -> bool {
        self.keys().contains(key)
    }

    pub fn new() -> (out: Self)
        ensures
            out.wf(),
            out.items() == Seq::<T>::empty(),
    {
        OrderedSet { items: Vec::new() }
    }

    pub fn len(&self) -> (out: usize)
        ensures
            out == self.items().len(),
    {
        self.items.len()
    }

    pub fn is_empty(&self) -> (out: bool)
        ensures
            out == (self.items().len() == 0),
    {
        self.items.len() == 0
    }

    /// The elements in increasing order.
    pub fn as_list(&self) -> (out: &Vec<T>)
        ensures
            out@ == self.items(),
    {
        &self.items
    }

    /// The least element.
    pub fn first(&self) -> (out: Option<&T>)
        ensures
            match out {
                Some(item) => self.items().len() > 0 && *item == self.items()[0],
                None => self.items().len() == 0,
            },
    {
        if self.items.len() == 0 {
            None
        } else {
            Some(&self.items[0])
        }
    }

    pub fn clear(&mut self)
        ensures
            final(self).wf(),
            final(self).items() == Seq::<T>::empty(),
    {
        self.items.clear();
    }

    /// The place of the first element that is not before `item`.
    fn place(&self, item: &T) -> (out: usize)
        requires
            self.wf(),
        ensures
            out <= self.items@.len(),
            forall|i: int| 0 <= i < out ==> T::key_less((#[trigger] self.items@[i]).key(), item.key()),
            out < self.items@.len() ==> !T::key_less(self.items@[out as int].key(), item.key()),
    {
        let mut i: usize = 0;
        while i < self.items.len() && self.items[i].comes_before(item)
            invariant
                i <= self.items@.len(),
                forall|k: int| 0 <= k < i ==> T::key_less((#[trigger] self.items@[k]).key(), item.key()),
            decreases self.items@.len() - i,
        {
            i = i + 1;
        }
        i
    }

    pub fn contains(&self, item: &T) -> (out: bool)
        requires
            self.wf(),
        ensures
            out == self.holds(item.key()),
    {
        let i = self.place(item);
        let found = i < self.items.len() && !item.comes_before(&self.items[i]);
        proof {
            self.place_decides(item.key(), i as int);
        }
        found
    }

    proof fn place_decides(&self, key: T::Key, i: int)
        requires
            self.wf(),
            0 <= i <= self.items@.len(),
            forall|k: int| 0 <= k < i ==> T::key_less((#[trigger] self.items@[k]).key(), key),
            i < self.items@.len() ==> !T::key_less(self.items@[i].key(), key),
        ensures
            self.holds(key) <==> (i < self.items@.len() && !T::key_less(
                key,
                self.items@[i].key(),
            )),
            i < self.items@.len() && !T::key_less(key, self.items@[i].key())
                ==> self.items@[i].key() == key,
    {
        let keys = self.keys();
        if i < self.items@.len() && !T::key_less(key, self.items@[i].key()) {
            if self.items@[i].key() != key {
                T::total(self.items@[i].key(), key);
            }
            assert(keys[i] == key);
        }
        if self.holds(key) {
            let k = choose|k: int| 0 <= k < keys.len() && keys[k] == key;
            assert(self.items@[k].key() == key);
            T::irreflexive(key);
            if k > i {
                assert(T::key_less(keys[i], keys[k]));
                assert(keys[i] == self.items@[i].key());
            }
        }
    }

    /// Takes an element out; gives whether it was there.
    pub fn remove(&mut self, item: &T) -> (out: bool)
        requires
            old(self).wf(),
        ensures
            final(self).wf(),
            out == old(self).holds(item.key()),
            forall|key: T::Key| #[trigger]
                final(self).holds(key) <==> (old(self).holds(key) && key != item.key()),
    {
        let i = self.place(item);
        proof {
            self.place_decides(item.key(), i as int);
        }
        let ghost before = *self;
        if i < self.items.len() && !item.comes_before(&self.items[i]) {
            let _taken = self.items.remove(i);
            proof {
                let keys = before.keys();
                let after = self.keys();
                assert(after =~= keys.remove(i as int));
                assert(keys[i as int] == item.key());
                assert forall|key: T::Key| #[trigger]
                    self.holds(key) <==> (before.holds(key) && key != item.key()) by {
                    T::irreflexive(key);
                    if self.holds(key) {
                        let k = choose|k: int| 0 <= k < after.len() && after[k] == key;
                        if k < i {
                            assert(keys[k] == key);
                            assert(T::key_less(keys[k], keys[i as int]));
                        } else {
                            assert(keys[k + 1] == key);
                            assert(T::key_less(keys[i as int], keys[k + 1]));
                        }
                    }
                    if before.holds(key) && key != item.key() {
                        let k = choose|k: int| 0 <= k < keys.len() && keys[k] == key;
                        if k < i {
                            assert(after[k] == key);
                        } else {
                            assert(after[k - 1] == key);
                        }
                    }
                }
            }
            return true;
        }
        false
    }

    /// Adds an element; gives whether it is new.
    pub fn insert(&mut self, item: T) -> (out: bool)
        requires
            old(self).wf(),
        ensures
            final(self).wf(),
            out == !old(self).holds(item.key()),
            forall|key: T::Key| #[trigger]
                final(self).holds(key) <==> (old(self).holds(key) || key == item.key()),
            final(self).items().len() == old(self).items().len() + (if out {
                1int
            } else {
                0
            }),
    {
        let i = self.place(&item);
        proof {
            self.place_decides(item.key(), i as int);
        }
        let ghost before = *self;
        let ghost key = item.key();
        if i < self.items.len() && !item.comes_before(&self.items[i]) {
            return false;
        }
        self.items.insert(i, item);
        proof {
            let after = self.keys();
            let keys = before.keys();
            assert(after =~= keys.insert(i as int, key));
            assert forall|a: int, b: int| 0 <= a < b < after.len() implies T::key_less(
                #[trigger] after[a],
                #[trigger] after[b],
            ) by {
                if a == i {
                    assert(after[b] == keys[b - 1]);
                    assert(T::key_less(key, before.items@[i as int].key())) by {
                        if before.items@[i as int].key() != key {
                            T::total(before.items@[i as int].key(), key);
                        }
                    }
                    assert(keys[i as int] == before.items@[i as int].key());
                    if b - 1 > i {
                        assert(T::key_less(keys[i as int], keys[b - 1]));
                        T::transitive(key, keys[i as int], keys[b - 1]);
                    }
                } else if b == i {
                    assert(after[a] == keys[a]);
                    assert(keys[a] == before.items@[a].key());
                } else {
                    let ka = if a < i { a } else { a - 1 };
                    let kb = if b < i { b } else { b - 1 };
                    assert(after[a] == keys[ka]);
                    assert(after[b] == keys[kb]);
                }
            }
            assert forall|k: T::Key| #[trigger]
                self.holds(k) <==> (before.holds(k) || k == key) by {
                if self.holds(k) {
                    let n = choose|n: int| 0 <= n < after.len() && after[n] == k;
                    if n < i {
                        assert(keys[n] == k);
                    } else if n > i {
                        assert(keys[n - 1] == k);
                    }
                }
                if before.holds(k) {
                    let n = choose|n: int| 0 <= n < keys.len() && keys[n] == k;
                    if n < i {
                        assert(after[n] == k);
                    } else {
                        assert(after[n + 1] == k);
                    }
                }
                if k == key {
                    assert(after[i as int] == k);
                }
            }
        }
        true
    }
}

/// Two sets with the same elements are walked in the same order.
pub proof fn same_elements_same_order<T: Ordered>(a: Seq<T::Key>, b: Seq<T::Key>)
    requires
        increasing::<T>(a),
        increasing::<T>(b),
        forall|key: T::Key| a.contains(key) <==> b.contains(key),
    ensures
        a == b,
    decreases a.len(),
{
    if a.len() == 0 {
        if b.len() > 0 {
            assert(b.contains(b[0]));
            assert(a.contains(b[0]));
        }
        assert(a =~= b);
    } else {
        assert(a.contains(a[0]));
        assert(b.contains(a[0]));
        assert(b.contains(b[0]));
        assert(a.contains(b[0]));
        let i = choose|i: int| 0 <= i < b.len() && b[i] == a[0];
        let j = choose|j: int| 0 <= j < a.len() && a[j] == b[0];
        if i > 0 && j > 0 {
            assert(T::key_less(b[0], b[i]));
            assert(T::key_less(a[0], a[j]));
            T::transitive(a[0], b[0], a[0]);
            T::irreflexive(a[0]);
        }
        assert(a[0] == b[0]);
        let ra = a.drop_first();
        let rb = b.drop_first();
        assert forall|key: T::Key| ra.contains(key) <==> rb.contains(key) by {
            if ra.contains(key) {
                let n = choose|n: int| 0 <= n < ra.len() && ra[n] == key;
                assert(a[n + 1] == key);
                assert(T::key_less(a[0], a[n + 1]));
                assert(b.contains(key));
                let m = choose|m: int| 0 <= m < b.len() && b[m] == key;
                T::irreflexive(key);
                assert(m > 0);
                assert(rb[m - 1] == key);
            }
            if rb.contains(key) {
                let n = choose|n: int| 0 <= n < rb.len() && rb[n] == key;
                assert(b[n + 1] == key);
                assert(T::key_less(b[0], b[n + 1]));
                assert(a.contains(key));
                let m = choose|m: int| 0 <= m < a.len() && a[m] == key;
                T::irreflexive(key);
                assert(m > 0);
                assert(ra[m - 1] == key);
            }
        }
        assert(increasing::<T>(ra)) by {
            assert(forall|n: int| 0 <= n < ra.len() ==> ra[n] == a[n + 1]);
        }
        assert(increasing::<T>(rb)) by {
            assert(forall|n: int| 0 <= n < rb.len() ==> rb[n] == b[n + 1]);
        }
        same_elements_same_order::<T>(ra, rb);
        assert(a =~= seq![a[0]] + ra);
        assert(b =~= seq![b[0]] + rb);
    }
}

} // verus!
