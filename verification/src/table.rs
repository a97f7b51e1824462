//! A map kept as a vector of rows in strictly ascending key order.

use vstd::prelude::*;
use crate::ids::{FileId, RequestId, TagId, TransferId};

verus! {

/// A key with a strict total order.
pub trait Key: Copy {
    /// The order.
    spec fn precedes(self, other: Self) -> bool;

    /// No key precedes itself, and no two precede each other.
    proof fn lemma_asymmetric(a: Self, b: Self)
        ensures
            a.precedes(b) ==> !b.precedes(a),
    ;

    /// The order is transitive.
    proof fn lemma_transitive(a: Self, b: Self, c: Self)
        ensures
            a.precedes(b) && b.precedes(c) ==> a.precedes(c),
    ;

    /// Of two distinct keys one precedes the other.
    proof fn lemma_total(a: Self, b: Self)
        ensures
            a == b || a.precedes(b) || b.precedes(a),
    ;

    /// Decides the order.
    fn before(&self, other: &Self) -> (r: bool)
        ensures
            r == self.precedes(*other),
    ;
}

/// Whether rows stand in strictly ascending key order.
pub open spec fn ascending<K: Key, V>(rows: Seq<(K, V)>) -> bool {
    forall|i: int, j: int|
        0 <= i < j < rows.len() ==> (#[trigger] rows[i]).0.precedes((#[trigger] rows[j]).0)
}

/// Whether `k` is the key of a row.
pub open spec fn has_key<K, V>(rows: Seq<(K, V)>, k: K) -> bool {
    exists|i: int| 0 <= i < rows.len() && (#[trigger] rows[i]).0 == k
}

/// The map that rows with distinct keys stand for.
pub open spec fn map_of<K, V>(rows: Seq<(K, V)>) -> Map<K, V> {
    Map::new(
        |k: K| has_key(rows, k),
        |k: K| rows[choose|i: int| 0 <= i < rows.len() && (#[trigger] rows[i]).0 == k].1,
    )
}

/// A map with its rows in ascending key order.
#[verifier::reject_recursive_types(K)]
pub struct Table<K: Key, V> {
    rows: Vec<(K, V)>,
}

proof fn lemma_map_of<K: Key, V>(rows: Seq<(K, V)>)
    requires
        ascending(rows),
    ensures
        forall|i: int|
            0 <= i < rows.len() ==> map_of(rows).contains_key((#[trigger] rows[i]).0) && map_of(
                rows,
            )[rows[i].0] == rows[i].1,
{
    assert forall|i: int| 0 <= i < rows.len() implies map_of(rows).contains_key(
        (#[trigger] rows[i]).0,
    ) && map_of(rows)[rows[i].0] == rows[i].1 by {
        let k = rows[i].0;
        assert(has_key(rows, k));
        let j = choose|j: int| 0 <= j < rows.len() && (#[trigger] rows[j]).0 == k;
        K::lemma_asymmetric(k, k);
        assert(i == j);
    }
}

proof fn lemma_insert<K: Key, V>(rows: Seq<(K, V)>, at: int, k: K, v: V)
    requires
        ascending(rows),
        0 <= at <= rows.len(),
        forall|i: int| 0 <= i < at ==> (#[trigger] rows[i]).0.precedes(k),
        forall|i: int| at <= i < rows.len() ==> k.precedes((#[trigger] rows[i]).0),
    ensures
        ascending(rows.insert(at, (k, v))),
        map_of(rows.insert(at, (k, v))) == map_of(rows).insert(k, v),
        !map_of(rows).contains_key(k),
{
    let after = rows.insert(at, (k, v));
    assert forall|i: int, j: int| 0 <= i < j < after.len() implies (
    #[trigger] after[i]).0.precedes((#[trigger] after[j]).0) by {
        let i0 = if i < at { i } else { i - 1 };
        let j0 = if j < at { j } else { j - 1 };
        if i != at {
            assert(after[i] == rows[i0]);
        }
        if j != at {
            assert(after[j] == rows[j0]);
        }
    }
    lemma_map_of(rows);
    lemma_map_of(after);
    assert(after[at] == (k, v));
    assert forall|x: K| has_key(after, x) <==> (x == k || has_key(rows, x)) by {
        if has_key(after, x) {
            let i = choose|i: int| 0 <= i < after.len() && (#[trigger] after[i]).0 == x;
            if i < at {
                assert(rows[i].0 == x);
            } else if i > at {
                assert(rows[i - 1].0 == x);
            }
        }
        if has_key(rows, x) {
            let i = choose|i: int| 0 <= i < rows.len() && (#[trigger] rows[i]).0 == x;
            if i < at {
                assert(after[i].0 == x);
            } else {
                assert(after[i + 1].0 == x);
            }
        }
    }
    if has_key(rows, k) {
        let i = choose|i: int| 0 <= i < rows.len() && (#[trigger] rows[i]).0 == k;
        K::lemma_asymmetric(k, k);
    }
    assert forall|x: K| map_of(after).contains_key(x) implies map_of(after)[x] == map_of(
        rows,
    ).insert(k, v)[x] by {
        let i = choose|i: int| 0 <= i < after.len() && (#[trigger] after[i]).0 == x;
        if i < at {
            assert(rows[i] == after[i]);
        } else if i > at {
            assert(rows[i - 1] == after[i]);
        }
    }
    assert(map_of(after) =~= map_of(rows).insert(k, v));
}

proof fn lemma_update<K: Key, V>(rows: Seq<(K, V)>, at: int, v: V)
    requires
        ascending(rows),
        0 <= at < rows.len(),
    ensures
        ascending(rows.update(at, (rows[at].0, v))),
        map_of(rows.update(at, (rows[at].0, v))) == map_of(rows).insert(rows[at].0, v),
{
    let k = rows[at].0;
    let after = rows.update(at, (k, v));
    assert forall|i: int| 0 <= i < rows.len() implies (#[trigger] after[i]).0 == rows[i].0 by {}
    lemma_map_of(rows);
    lemma_map_of(after);
    assert forall|x: K| has_key(after, x) <==> has_key(rows, x) by {
        if has_key(after, x) {
            let i = choose|i: int| 0 <= i < after.len() && (#[trigger] after[i]).0 == x;
            assert(rows[i].0 == x);
        }
        if has_key(rows, x) {
            let i = choose|i: int| 0 <= i < rows.len() && (#[trigger] rows[i]).0 == x;
            assert(after[i].0 == x);
        }
    }
    assert(has_key(rows, k));
    assert forall|x: K| map_of(after).contains_key(x) implies map_of(after)[x] == map_of(
        rows,
    ).insert(k, v)[x] by {
        let i = choose|i: int| 0 <= i < after.len() && (#[trigger] after[i]).0 == x;
        assert(rows[i].0 == x);
        K::lemma_asymmetric(k, k);
        if x == k {
            assert(i == at);
        }
    }
    assert(map_of(after) =~= map_of(rows).insert(k, v));
}

proof fn lemma_remove<K: Key, V>(rows: Seq<(K, V)>, at: int)
    requires
        ascending(rows),
        0 <= at < rows.len(),
    ensures
        ascending(rows.remove(at)),
        map_of(rows.remove(at)) == map_of(rows).remove(rows[at].0),
{
    let k = rows[at].0;
    let after = rows.remove(at);
    assert forall|i: int, j: int| 0 <= i < j < after.len() implies (
    #[trigger] after[i]).0.precedes((#[trigger] after[j]).0) by {
        let i0 = if i < at { i } else { i + 1 };
        let j0 = if j < at { j } else { j + 1 };
        assert(after[i] == rows[i0]);
        assert(after[j] == rows[j0]);
    }
    lemma_map_of(rows);
    lemma_map_of(after);
    assert forall|x: K| has_key(after, x) <==> (x != k && has_key(rows, x)) by {
        if has_key(after, x) {
            let i = choose|i: int| 0 <= i < after.len() && (#[trigger] after[i]).0 == x;
            let i0 = if i < at { i } else { i + 1 };
            assert(rows[i0] == after[i]);
            K::lemma_asymmetric(k, k);
        }
        if x != k && has_key(rows, x) {
            let i = choose|i: int| 0 <= i < rows.len() && (#[trigger] rows[i]).0 == x;
            let i1 = if i < at { i } else { i - 1 };
            assert(after[i1] == rows[i]);
        }
    }
    assert forall|x: K| map_of(after).contains_key(x) implies map_of(after)[x] == map_of(
        rows,
    ).remove(k)[x] by {
        let i = choose|i: int| 0 <= i < after.len() && (#[trigger] after[i]).0 == x;
        let i0 = if i < at { i } else { i + 1 };
        assert(rows[i0] == after[i]);
    }
    assert(map_of(after) =~= map_of(rows).remove(k));
}

impl<K: Key, V> Table<K, V> {
    #[verifier::type_invariant]
    spec fn inv(self) -> bool {
        ascending(self.rows@)
    }

    /// The rows, in ascending key order.
    pub closed spec fn rows(&self) -> Seq<(K, V)> {
        self.rows@
    }

    /// The map that the table stands for.
    pub open spec fn view(&self) -> Map<K, V> {
        map_of(self.rows())
    }

    /// What holds of the rows of every table.
    pub open spec fn well_formed(&self) -> bool {
        &&& ascending(self.rows())
        &&& forall|i: int|
            0 <= i < self.rows().len() ==> self@.contains_key((#[trigger] self.rows()[i]).0)
                && self@[self.rows()[i].0] == self.rows()[i].1
    }

    /// The empty table.
    pub fn new() -> (r: Self)
        ensures
            r@ == Map::<K, V>::empty(),
            r.rows() == Seq::<(K, V)>::empty(),
    {
        let r = Table { rows: Vec::new() };
        assert(map_of(Seq::<(K, V)>::empty()) =~= Map::<K, V>::empty());
        r
    }

    /// Number of rows.
    pub fn len(&self) -> (r: usize)
        ensures
            r == self.rows().len(),
            self.well_formed(),
    {
        proof {
            use_type_invariant(self);
            lemma_map_of(self.rows@);
        }
        self.rows.len()
    }

    /// Key of the row at `i`.
    pub fn key_at(&self, i: usize) -> (r: K)
        requires
            i < self.rows().len(),
        ensures
            r == self.rows()[i as int].0,
            self@.contains_key(r),
    {
        proof {
            use_type_invariant(self);
            lemma_map_of(self.rows@);
        }
        self.rows[i].0
    }

    /// Value of the row at `i`.
    pub fn value_at(&self, i: usize) -> (r: &V)
        requires
            i < self.rows().len(),
        ensures
            *r == self.rows()[i as int].1,
            self@.contains_key(self.rows()[i as int].0),
            self@[self.rows()[i as int].0] == *r,
    {
        proof {
            use_type_invariant(self);
            lemma_map_of(self.rows@);
        }
        &self.rows[i].1
    }

    /// Position of the first row whose key does not precede `k`, found by halving.
    fn position(&self, k: K) -> (r: usize)
        ensures
            r <= self.rows@.len(),
            forall|i: int| 0 <= i < r ==> (#[trigger] self.rows@[i]).0.precedes(k),
            forall|i: int| r <= i < self.rows@.len() ==> !(#[trigger] self.rows@[i]).0.precedes(k),
    {
        proof {
            use_type_invariant(self);
        }
        let mut low: usize = 0;
        let mut high: usize = self.rows.len();
        while low < high
            invariant
                low <= high <= self.rows@.len(),
                ascending(self.rows@),
                forall|i: int| 0 <= i < low ==> (#[trigger] self.rows@[i]).0.precedes(k),
                forall|i: int|
                    high <= i < self.rows@.len() ==> !(#[trigger] self.rows@[i]).0.precedes(k),
            decreases high - low,
        {
            let middle: usize = low + (high - low) / 2;
            if self.rows[middle].0.before(&k) {
                proof {
                    let m = self.rows@[middle as int].0;
                    assert forall|i: int| 0 <= i < middle + 1 implies (
                    #[trigger] self.rows@[i]).0.precedes(k) by {
                        if i < middle {
                            K::lemma_transitive(self.rows@[i].0, m, k);
                        }
                    }
                }
                low = middle + 1;
            } else {
                proof {
                    let m = self.rows@[middle as int].0;
                    assert forall|i: int| middle <= i < self.rows@.len() implies !(
                    #[trigger] self.rows@[i]).0.precedes(k) by {
                        if middle < i {
                            K::lemma_transitive(m, self.rows@[i].0, k);
                        }
                    }
                }
                high = middle;
            }
        }
        low
    }

    /// Position of the row with key `k`, if there is one.
    pub fn index_of(&self, k: K) -> (r: Option<usize>)
        ensures
            self.well_formed(),
            match r {
                Some(i) => i < self.rows().len() && self.rows()[i as int].0 == k
                    && self@.contains_key(k) && self@[k] == self.rows()[i as int].1,
                None => !self@.contains_key(k),
            },
    {
        let at: usize = self.position(k);
        proof {
            use_type_invariant(self);
            lemma_map_of(self.rows@);
        }
        if at < self.rows.len() && !k.before(&self.rows[at].0) {
            proof {
                K::lemma_total(k, self.rows@[at as int].0);
            }
            return Some(at);
        }
        proof {
            if has_key(self.rows@, k) {
                let i = choose|i: int|
                    0 <= i < self.rows@.len() && (#[trigger] self.rows@[i]).0 == k;
                K::lemma_asymmetric(k, k);
                assert(at <= i);
                if at < i {
                    assert(self.rows@[at as int].0.precedes(self.rows@[i].0));
                    K::lemma_asymmetric(k, self.rows@[at as int].0);
                }
            }
        }
        None
    }

    /// Whether there is a row with key `k`.
    pub fn contains(&self, k: K) -> (r: bool)
        ensures
            r == self@.contains_key(k),
    {
        self.index_of(k).is_some()
    }

    /// The value of key `k`, if there is a row for it.
    pub fn get(&self, k: K) -> (r: Option<&V>)
        ensures
            match r {
                Some(v) => self@.contains_key(k) && self@[k] == *v,
                None => !self@.contains_key(k),
            },
    {
        match self.index_of(k) {
            Some(i) => Some(self.value_at(i)),
            None => None,
        }
    }

    /// Sets the value of key `k`.
    pub fn insert(&mut self, k: K, v: V)
        ensures
            final(self)@ == old(self)@.insert(k, v),
            final(self).well_formed(),
    {
        let at: usize = self.position(k);
        proof {
            use_type_invariant(&*self);
        }
        let ghost before = self.rows@;
        if at < self.rows.len() && !k.before(&self.rows[at].0) {
            proof {
                K::lemma_total(k, self.rows@[at as int].0);
                lemma_update(before, at as int, v);
            }
            let mut rows: Vec<(K, V)> = Vec::new();
            core::mem::swap(&mut self.rows, &mut rows);
            rows[at] = (k, v);
            self.rows = rows;
        } else {
            proof {
                assert forall|i: int| at <= i < before.len() implies k.precedes(
                    (#[trigger] before[i]).0,
                ) by {
                    if at < i {
                        K::lemma_transitive(k, before[at as int].0, before[i].0);
                    }
                }
                lemma_insert(before, at as int, k, v);
            }
            let mut rows: Vec<(K, V)> = Vec::new();
            core::mem::swap(&mut self.rows, &mut rows);
            rows.insert(at, (k, v));
            self.rows = rows;
        }
        proof {
            lemma_map_of(self.rows@);
        }
    }

    /// Removes the row of key `k`, and hands out its value.
    pub fn remove(&mut self, k: K) -> (r: Option<V>)
        ensures
            final(self)@ == old(self)@.remove(k),
            final(self).well_formed(),
            match r {
                Some(v) => old(self)@.contains_key(k) && old(self)@[k] == v,
                None => !old(self)@.contains_key(k),
            },
    {
        let found = self.index_of(k);
        proof {
            use_type_invariant(&*self);
        }
        match found {
            Some(at) => {
                proof {
                    lemma_remove(self.rows@, at as int);
                    lemma_map_of(self.rows@.remove(at as int));
                }
                let mut rows: Vec<(K, V)> = Vec::new();
                core::mem::swap(&mut self.rows, &mut rows);
                let row = rows.remove(at);
                self.rows = rows;
                Some(row.1)
            },
            None => {
                assert(old(self)@.remove(k) =~= old(self)@);
                None
            },
        }
    }
}

impl Key for FileId {
    open spec fn precedes(self, other: Self) -> bool {
        self.value < other.value
    }

    proof fn lemma_asymmetric(a: Self, b: Self) {
    }

    proof fn lemma_transitive(a: Self, b: Self, c: Self) {
    }

    proof fn lemma_total(a: Self, b: Self) {
    }

    fn before(&self, other: &Self) -> (r: bool) {
        self.value < other.value
    }
}

impl Key for TagId {
    open spec fn precedes(self, other: Self) -> bool {
        self.value < other.value
    }

    proof fn lemma_asymmetric(a: Self, b: Self) {
    }

    proof fn lemma_transitive(a: Self, b: Self, c: Self) {
    }

    proof fn lemma_total(a: Self, b: Self) {
    }

    fn before(&self, other: &Self) -> (r: bool) {
        self.value < other.value
    }
}

impl Key for RequestId {
    open spec fn precedes(self, other: Self) -> bool {
        self.value < other.value
    }

    proof fn lemma_asymmetric(a: Self, b: Self) {
    }

    proof fn lemma_transitive(a: Self, b: Self, c: Self) {
    }

    proof fn lemma_total(a: Self, b: Self) {
    }

    fn before(&self, other: &Self) -> (r: bool) {
        self.value < other.value
    }
}

impl Key for TransferId {
    open spec fn precedes(self, other: Self) -> bool {
        self.value < other.value
    }

    proof fn lemma_asymmetric(a: Self, b: Self) {
    }

    proof fn lemma_transitive(a: Self, b: Self, c: Self) {
    }

    proof fn lemma_total(a: Self, b: Self) {
    }

    fn before(&self, other: &Self) -> (r: bool) {
        self.value < other.value
    }
}

impl Key for u64 {
    open spec fn precedes(self, other: Self) -> bool {
        self < other
    }

    proof fn lemma_asymmetric(a: Self, b: Self) {
    }

    proof fn lemma_transitive(a: Self, b: Self, c: Self) {
    }

    proof fn lemma_total(a: Self, b: Self) {
    }

    fn before(&self, other: &Self) -> (r: bool) {
        *self < *other
    }
}

} // verus!
