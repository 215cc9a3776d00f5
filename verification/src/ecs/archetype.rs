//! One archetype: a sorted set of component kinds, the entities that have exactly those kinds,
//! and one column per kind, row-aligned with the entities.

use vstd::prelude::*;

use crate::ecs::storage::{ComponentKind, Entity, TypedVec};

verus! {

/// Kinds sorted in strictly increasing order (a sorted set).
pub open spec fn strictly_increasing(s: Seq<ComponentKind>) -> bool {
    forall|i: int, j: int| 0 <= i < j < s.len() ==> s[i] < s[j]
}

/// Position of kind `k` in `key`.
pub open spec fn index_of(key: Seq<ComponentKind>, k: ComponentKind) -> int {
    choose|i: int| 0 <= i < key.len() && key[i] == k
}

/// The components of one row: kind `key[c]` holds `vals[c]`.
pub open spec fn row_map<V>(key: Seq<ComponentKind>, vals: Seq<V>) -> Map<ComponentKind, V> {
    Map::new(|k: ComponentKind| key.contains(k), |k: ComponentKind| vals[index_of(key, k)])
}

pub proof fn lemma_index_of(key: Seq<ComponentKind>, i: int)
    requires
        strictly_increasing(key),
        0 <= i < key.len(),
    ensures
        index_of(key, key[i]) == i,
{
    let j = index_of(key, key[i]);
    assert(0 <= j < key.len() && key[j] == key[i]);
    if j < i {
        assert(key[j] < key[i]);
    } else if i < j {
        assert(key[i] < key[j]);
    }
}

/// Inserting a new kind and its value at the same position adds that entry to the row.
pub proof fn lemma_row_map_insert<V>(key: Seq<ComponentKind>, vals: Seq<V>, p: int, k: ComponentKind, v: V)
    requires
        strictly_increasing(key),
        strictly_increasing(key.insert(p, k)),
        vals.len() == key.len(),
        0 <= p <= key.len(),
    ensures
        row_map(key.insert(p, k), vals.insert(p, v)) == row_map(key, vals).insert(k, v),
{
    let nk = key.insert(p, k);
    let nv = vals.insert(p, v);
    assert(!key.contains(k)) by {
        if key.contains(k) {
            let i = choose|i: int| 0 <= i < key.len() && key[i] == k;
            if i < p {
                assert(nk[i] == k && nk[p] == k);
            } else {
                assert(nk[i + 1] == k && nk[p] == k);
            }
        }
    }
    assert forall|x: ComponentKind| nk.contains(x) <==> (key.contains(x) || x == k) by {
        if key.contains(x) {
            let i = choose|i: int| 0 <= i < key.len() && key[i] == x;
            if i < p {
                assert(nk[i] == x);
            } else {
                assert(nk[i + 1] == x);
            }
        }
        if x == k {
            assert(nk[p] == k);
        }
        if nk.contains(x) {
            let i = choose|i: int| 0 <= i < nk.len() && nk[i] == x;
            if i < p {
                assert(key[i] == x);
            } else if i > p {
                assert(key[i - 1] == x);
            }
        }
    }
    assert forall|x: ComponentKind| nk.contains(x) implies row_map(nk, nv)[x] == row_map(key, vals).insert(k, v)[x] by {
        if x == k {
            assert(nk[p] == k);
            lemma_index_of(nk, p);
        } else {
            let i = choose|i: int| 0 <= i < key.len() && key[i] == x;
            lemma_index_of(key, i);
            if i < p {
                assert(nk[i] == x);
                lemma_index_of(nk, i);
            } else {
                assert(nk[i + 1] == x);
                lemma_index_of(nk, i + 1);
            }
        }
    }
    assert(row_map(nk, nv) =~= row_map(key, vals).insert(k, v));
}

/// Removing a kind and its value at the same position removes that entry from the row.
pub proof fn lemma_row_map_remove<V>(key: Seq<ComponentKind>, vals: Seq<V>, p: int)
    requires
        strictly_increasing(key),
        vals.len() == key.len(),
        0 <= p < key.len(),
    ensures
        strictly_increasing(key.remove(p)),
        row_map(key.remove(p), vals.remove(p)) == row_map(key, vals).remove(key[p]),
{
    let nk = key.remove(p);
    let nv = vals.remove(p);
    let k = key[p];
    assert forall|i: int, j: int| 0 <= i < j < nk.len() implies nk[i] < nk[j] by {
        let a = if i < p { i } else { i + 1 };
        let b = if j < p { j } else { j + 1 };
        assert(nk[i] == key[a] && nk[j] == key[b]);
    }
    assert forall|x: ComponentKind| nk.contains(x) <==> (key.contains(x) && x != k) by {
        if nk.contains(x) {
            let i = choose|i: int| 0 <= i < nk.len() && nk[i] == x;
            if i < p {
                assert(key[i] == x);
            } else {
                assert(key[i + 1] == x);
            }
        }
        if key.contains(x) && x != k {
            let i = choose|i: int| 0 <= i < key.len() && key[i] == x;
            if i < p {
                assert(nk[i] == x);
            } else {
                assert(i != p);
                assert(nk[i - 1] == x);
            }
        }
    }
    assert forall|x: ComponentKind| nk.contains(x) implies row_map(nk, nv)[x] == row_map(key, vals)[x] by {
        let i = choose|i: int| 0 <= i < key.len() && key[i] == x;
        lemma_index_of(key, i);
        if i < p {
            assert(nk[i] == x);
            lemma_index_of(nk, i);
        } else {
            assert(i != p);
            assert(nk[i - 1] == x);
            lemma_index_of(nk, i - 1);
        }
    }
    assert(row_map(nk, nv) =~= row_map(key, vals).remove(k));
}

/// Overwriting the value at a kind's position overwrites that entry of the row.
pub proof fn lemma_row_map_update<V>(key: Seq<ComponentKind>, vals: Seq<V>, p: int, v: V)
    requires
        strictly_increasing(key),
        vals.len() == key.len(),
        0 <= p < key.len(),
    ensures
        row_map(key, vals.update(p, v)) == row_map(key, vals).insert(key[p], v),
{
    lemma_index_of(key, p);
    assert forall|x: ComponentKind| key.contains(x) implies row_map(key, vals.update(p, v))[x] == row_map(key, vals).insert(key[p], v)[x] by {
        let i = choose|i: int| 0 <= i < key.len() && key[i] == x;
        lemma_index_of(key, i);
    }
    assert(row_map(key, vals.update(p, v)) =~= row_map(key, vals).insert(key[p], v));
}

/// Inserting `k` just before the first larger kind keeps a key sorted.
pub proof fn lemma_sorted_insert(key: Seq<ComponentKind>, p: int, k: ComponentKind)
    requires
        strictly_increasing(key),
        0 <= p <= key.len(),
        forall|j: int| 0 <= j < p ==> key[j] < k,
        p < key.len() ==> key[p] > k,
    ensures
        strictly_increasing(key.insert(p, k)),
{
    let nk = key.insert(p, k);
    assert forall|i: int, j: int| 0 <= i < j < nk.len() implies nk[i] < nk[j] by {
        if j < p {
        } else if j == p {
        } else if i < p {
        } else if i == p {
            assert(key[p] <= key[j - 1]) by {
                if j - 1 > p {
                    assert(key[p] < key[j - 1]);
                }
            }
        } else {
        }
    }
}

/// One archetype = one combination of component kinds.
pub struct Archetype<V> {
    /// The kinds, sorted.
    pub key: Vec<ComponentKind>,
    /// The entities stored here; row `r` of every column belongs to `entities[r]`.
    pub entities: Vec<Entity>,
    /// `columns[c]` holds the values of kind `key[c]`.
    pub columns: Vec<TypedVec<V>>,
}

impl<V> Archetype<V> {
    /// Sorted key, one column per kind, every column as long as the entity list.
    pub open spec fn wf(&self) -> bool {
        &&& strictly_increasing(self.key@)
        &&& self.columns@.len() == self.key@.len()
        &&& forall|c: int| 0 <= c < self.columns@.len() ==> (#[trigger] self.columns@[c]).data@.len()
            == self.entities@.len()
    }

    /// Values of kind `k`, in row order.
    pub open spec fn column_of(&self, k: ComponentKind) -> Seq<V> {
        self.columns@[index_of(self.key@, k)].data@
    }

    /// The values of row `r`, one per kind, in key order.
    pub open spec fn row(&self, r: int) -> Seq<V> {
        Seq::new(self.key@.len(), |c: int| self.columns@[c].data@[r])
    }

    /// The components of the entity at row `r`.
    pub open spec fn components(&self, r: int) -> Map<ComponentKind, V> {
        row_map(self.key@, self.row(r))
    }

    /// An archetype for the kinds of `key` (sorted, no repeats), holding no entity.
    pub fn new(key: Vec<ComponentKind>) -> (r: Self)
        requires
            strictly_increasing(key@),
        ensures
            r.wf(),
            r.key@ == key@,
            r.entities@.len() == 0,
    {
        let mut columns: Vec<TypedVec<V>> = Vec::new();
        let mut i: usize = 0;
        while i < key.len()
            invariant
                i <= key@.len(),
                columns@.len() == i,
                forall|c: int| 0 <= c < i ==> (#[trigger] columns@[c]).data@.len() == 0,
            decreases key.len() - i,
        {
            columns.push(TypedVec::new());
            i = i + 1;
        }
        Archetype { key, entities: Vec::new(), columns }
    }

    /// Position of kind `k` in the key, if present.
    pub fn position(&self, k: ComponentKind) -> (r: Option<usize>)
        ensures
            match r {
                Some(c) => c < self.key@.len() && self.key@[c as int] == k,
                None => !self.key@.contains(k),
            },
    {
        let mut i: usize = 0;
        while i < self.key.len()
            invariant
                i <= self.key@.len(),
                forall|j: int| 0 <= j < i ==> self.key@[j] != k,
            decreases self.key.len() - i,
        {
            if self.key[i] == k {
                return Some(i);
            }
            i = i + 1;
        }
        None
    }

    /// Whether this archetype stores kind `k`.
    pub fn has_type(&self, k: ComponentKind) -> (r: bool)
        ensures
            r == self.key@.contains(k),
    {
        self.position(k).is_some()
    }

    /// Add an empty column for kind `k` (no-op if already present). The new column holds no
    /// value even for rows already stored, so the archetype stays well formed only when it held
    /// no entity (or already had the kind).
    pub fn add_column(&mut self, k: ComponentKind)
        requires
            old(self).wf(),
        ensures
            final(self).wf() <==> (old(self).key@.contains(k) || old(self).entities@.len() == 0),
            strictly_increasing(final(self).key@),
            final(self).columns@.len() == final(self).key@.len(),
            final(self).entities@ == old(self).entities@,
            final(self).key@.to_set() == old(self).key@.to_set().insert(k),
            old(self).key@.contains(k) ==> final(self).key@ == old(self).key@ && final(self).columns@
                == old(self).columns@,
            !old(self).key@.contains(k) ==> final(self).column_of(k) == Seq::<V>::empty(),
            forall|x: ComponentKind|
                x != k && old(self).key@.contains(x) ==> #[trigger] final(self).column_of(x) == old(self).column_of(x),
    {
        if self.has_type(k) {
            return;
        }
        let mut p: usize = 0;
        while p < self.key.len() && self.key[p] < k
            invariant
                p <= self.key@.len(),
                forall|j: int| 0 <= j < p ==> self.key@[j] < k,
            decreases self.key.len() - p,
        {
            p = p + 1;
        }
        let ghost old_key = self.key@;
        self.key.insert(p, k);
        self.columns.insert(p, TypedVec::new());
        proof {
            assert forall|i: int, j: int| 0 <= i < j < self.key@.len() implies self.key@[i] < self.key@[j] by {
                if j < p {
                } else if j == p {
                } else if i < p {
                } else if i == p {
                    assert(old_key[j - 1] > k) by {
                        assert(old_key[p as int] >= k);
                        assert(old_key[p as int] != k);
                        if j - 1 > p {
                            assert(old_key[p as int] < old_key[j - 1]);
                        }
                    }
                } else {
                }
            }
            assert(self.key@.to_set() =~= old_key.to_set().insert(k)) by {
                assert forall|x: ComponentKind| self.key@.contains(x) <==> (old_key.contains(x) || x == k) by {
                    if old_key.contains(x) {
                        let i = choose|i: int| 0 <= i < old_key.len() && old_key[i] == x;
                        if i < p {
                            assert(self.key@[i] == x);
                        } else {
                            assert(self.key@[i + 1] == x);
                        }
                    }
                    if x == k {
                        assert(self.key@[p as int] == k);
                    }
                    if self.key@.contains(x) {
                        let i = choose|i: int| 0 <= i < self.key@.len() && self.key@[i] == x;
                        if i < p {
                            assert(old_key[i] == x);
                        } else if i > p {
                            assert(old_key[i - 1] == x);
                        }
                    }
                }
            }
            assert(self.key@[p as int] == k);
            lemma_index_of(self.key@, p as int);
            assert(self.column_of(k) =~= Seq::<V>::empty());
            assert forall|x: ComponentKind| x != k && old_key.contains(x) implies #[trigger] self.column_of(x)
                == old(self).column_of(x) by {
                let i = choose|i: int| 0 <= i < old_key.len() && old_key[i] == x;
                lemma_index_of(old_key, i);
                if i < p {
                    assert(self.key@[i] == x);
                    lemma_index_of(self.key@, i);
                } else {
                    assert(self.key@[i + 1] == x);
                    lemma_index_of(self.key@, i + 1);
                }
            }
            if old(self).entities@.len() > 0 {
                assert(self.columns@[p as int].data@.len() != self.entities@.len());
            }
        }
    }

    /// Add an empty column for kind `k` next to the existing ones; the columns of an archetype all
    /// hold values of the same type, so `_proto` only documents which column family is extended.
    pub fn add_column_erased(&mut self, k: ComponentKind, _proto: &TypedVec<V>)
        requires
            old(self).wf(),
        ensures
            final(self).wf() <==> (old(self).key@.contains(k) || old(self).entities@.len() == 0),
            strictly_increasing(final(self).key@),
            final(self).columns@.len() == final(self).key@.len(),
            final(self).entities@ == old(self).entities@,
            final(self).key@.to_set() == old(self).key@.to_set().insert(k),
            old(self).key@.contains(k) ==> final(self).key@ == old(self).key@ && final(self).columns@
                == old(self).columns@,
            !old(self).key@.contains(k) ==> final(self).column_of(k) == Seq::<V>::empty(),
            forall|x: ComponentKind|
                x != k && old(self).key@.contains(x) ==> #[trigger] final(self).column_of(x) == old(self).column_of(x),
    {
        self.add_column(k)
    }

    /// The value of kind `k` at row `row`; `None` when the kind is absent or the row out of bounds.
    pub fn get(&self, k: ComponentKind, row: usize) -> (r: Option<&V>)
        requires
            self.wf(),
        ensures
            match r {
                Some(v) => self.key@.contains(k) && row < self.entities@.len() && *v == self.column_of(k)[row as int],
                None => !(self.key@.contains(k) && row < self.entities@.len()),
            },
    {
        match self.position(k) {
            None => None,
            Some(c) => {
                proof {
                    lemma_index_of(self.key@, c as int);
                }
                if row < self.columns[c].data.len() {
                    Some(&self.columns[c].data[row])
                } else {
                    None
                }
            },
        }
    }

    /// Mutable access to the value of kind `k` at row `row`.
    pub fn get_mut(&mut self, k: ComponentKind, row: usize) -> (r: Option<&mut V>)
        requires
            old(self).wf(),
        ensures
            match r {
                Some(v) => {
                    &&& old(self).key@.contains(k)
                    &&& row < old(self).entities@.len()
                    &&& *v == old(self).column_of(k)[row as int]
                    &&& final(self).key@ == old(self).key@
                    &&& final(self).entities@ == old(self).entities@
                    &&& final(self).columns@.len() == old(self).columns@.len()
                    &&& forall|c: int| 0 <= c < old(self).columns@.len() && c != index_of(old(self).key@, k)
                        ==> #[trigger] final(self).columns@[c] == old(self).columns@[c]
                    &&& final(self).column_of(k) == old(self).column_of(k).update(row as int, *final(v))
                },
                None => !(old(self).key@.contains(k) && row < old(self).entities@.len()) && *final(self)
                    == *old(self),
            },
    {
        match self.position(k) {
            None => None,
            Some(c) => {
                proof {
                    lemma_index_of(self.key@, c as int);
                }
                if row < self.columns[c].data.len() {
                    let col = &mut self.columns[c];
                    Some(&mut col.data[row])
                } else {
                    None
                }
            },
        }
    }

    /// Swap-remove row `r` (the last row moves into `r`); returns the entity and the row values.
    pub fn take_row(&mut self, r: usize) -> (out: (Entity, Vec<V>))
        requires
            old(self).wf(),
            r < old(self).entities@.len(),
        ensures
            final(self).wf(),
            final(self).key@ == old(self).key@,
            out.0 == old(self).entities@[r as int],
            out.1@ == old(self).row(r as int),
            final(self).entities@ == old(self).entities@.update(r as int, old(self).entities@.last()).drop_last(),
            forall|q: int| 0 <= q < final(self).entities@.len() ==> #[trigger] final(self).row(q) == old(self).row(
                if q == r { old(self).entities@.len() - 1 } else { q },
            ),
    {
        let ghost old_self = *self;
        let ghost n = self.entities@.len();
        let e = self.entities.swap_remove(r);
        let ghost ents = self.entities@;
        let mut vals: Vec<V> = Vec::new();
        let mut c: usize = 0;
        while c < self.columns.len()
            invariant
                c <= self.columns@.len(),
                self.columns@.len() == old_self.columns@.len(),
                self.key@ == old_self.key@,
                self.entities@.len() == n - 1,
                self.entities@ == ents,
                r < n,
                old_self.wf(),
                old_self.entities@.len() == n,
                vals@.len() == c,
                forall|j: int| 0 <= j < c ==> #[trigger] vals@[j] == old_self.columns@[j].data@[r as int],
                forall|j: int| 0 <= j < c ==> (#[trigger] self.columns@[j]).data@ == old_self.columns@[j].data@.update(
                    r as int,
                    old_self.columns@[j].data@.last(),
                ).drop_last(),
                forall|j: int| c <= j < self.columns@.len() ==> #[trigger] self.columns@[j] == old_self.columns@[j],
            decreases self.columns.len() - c,
        {
            let col = &mut self.columns[c];
            let v = col.data.swap_remove(r);
            vals.push(v);
            c = c + 1;
        }
        proof {
            assert(vals@ =~= old_self.row(r as int));
            assert forall|q: int| 0 <= q < self.entities@.len() implies #[trigger] self.row(q) == old_self.row(
                if q == r { n - 1 } else { q },
            ) by {
                assert(self.row(q) =~= old_self.row(if q == r { n - 1 } else { q }));
            }
        }
        (e, vals)
    }

    /// Append entity `e` with the row values `vals` (one per kind, in key order).
    pub fn push_row(&mut self, e: Entity, vals: Vec<V>)
        requires
            old(self).wf(),
            vals@.len() == old(self).key@.len(),
        ensures
            final(self).wf(),
            final(self).key@ == old(self).key@,
            final(self).entities@ == old(self).entities@.push(e),
            forall|q: int| 0 <= q < old(self).entities@.len() ==> #[trigger] final(self).row(q) == old(self).row(q),
            final(self).row(old(self).entities@.len() as int) == vals@,
    {
        let ghost old_self = *self;
        let ghost n = self.entities@.len();
        let ghost old_vals = vals@;
        let mut vals = vals;
        self.entities.push(e);
        let ghost ents = self.entities@;
        let mut c: usize = self.columns.len();
        while c > 0
            invariant
                c <= self.columns@.len(),
                self.columns@.len() == old_self.columns@.len(),
                self.key@ == old_self.key@,
                old_self.wf(),
                old_self.entities@.len() == n,
                self.entities@ == ents,
                ents == old_self.entities@.push(e),
                vals@ == old_vals.subrange(0, c as int),
                old_vals.len() == old_self.columns@.len(),
                forall|j: int| c <= j < self.columns@.len() ==> (#[trigger] self.columns@[j]).data@
                    == old_self.columns@[j].data@.push(old_vals[j]),
                forall|j: int| 0 <= j < c ==> #[trigger] self.columns@[j] == old_self.columns@[j],
            decreases c,
        {
            c = c - 1;
            let v = vals.pop().unwrap();
            let col = &mut self.columns[c];
            col.data.push(v);
            assert(vals@ =~= old_vals.subrange(0, c as int));
        }
        proof {
            assert forall|q: int| 0 <= q < n implies #[trigger] self.row(q) == old_self.row(q) by {
                assert(self.row(q) =~= old_self.row(q));
            }
            assert(self.row(n as int) =~= old_vals);
        }
    }

    /// Overwrite the value of column `c` at row `r`.
    pub fn set_value(&mut self, c: usize, r: usize, v: V)
        requires
            old(self).wf(),
            c < old(self).columns@.len(),
            r < old(self).entities@.len(),
        ensures
            final(self).wf(),
            final(self).key@ == old(self).key@,
            final(self).entities@ == old(self).entities@,
            final(self).row(r as int) == old(self).row(r as int).update(c as int, v),
            forall|q: int| 0 <= q < old(self).entities@.len() && q != r ==> #[trigger] final(self).row(q) == old(self).row(q),
    {
        let ghost old_self = *self;
        let col = &mut self.columns[c];
        col.data.set(r, v);
        proof {
            assert(self.row(r as int) =~= old_self.row(r as int).update(c as int, v));
            assert forall|q: int| 0 <= q < old_self.entities@.len() && q != r implies #[trigger] self.row(q) == old_self.row(q) by {
                assert(self.row(q) =~= old_self.row(q));
            }
        }
    }

    /// Replace every value `x` of column `c` by `f(x)`, in row order.
    pub fn map_column<F: Fn(V) -> V>(&mut self, c: usize, f: &F)
        requires
            old(self).wf(),
            c < old(self).columns@.len(),
            forall|x: V| call_requires(*f, (x,)),
        ensures
            final(self).wf(),
            final(self).key@ == old(self).key@,
            final(self).entities@ == old(self).entities@,
            forall|q: int| 0 <= q < old(self).entities@.len() ==> #[trigger] final(self).row(q) == old(self).row(q).update(
                c as int,
                final(self).row(q)[c as int],
            ) && call_ensures(*f, (old(self).row(q)[c as int],), final(self).row(q)[c as int]),
    {
        let ghost old_self = *self;
        let col = &mut self.columns[c];
        let ghost before = col.data@;
        let mut tmp: Vec<V> = Vec::new();
        while col.data.len() > 0
            invariant
                tmp@.len() + col.data@.len() == before.len(),
                forall|j: int| 0 <= j < col.data@.len() ==> col.data@[j] == before[j],
                forall|j: int| 0 <= j < tmp@.len() ==> tmp@[j] == before[before.len() - 1 - j],
            decreases col.data@.len(),
        {
            let x = col.data.pop().unwrap();
            tmp.push(x);
        }
        while tmp.len() > 0
            invariant
                tmp@.len() + col.data@.len() == before.len(),
                forall|j: int| 0 <= j < tmp@.len() ==> tmp@[j] == before[before.len() - 1 - j],
                forall|j: int| 0 <= j < col.data@.len() ==> call_ensures(*f, (before[j],), col.data@[j]),
                forall|x: V| call_requires(*f, (x,)),
            decreases tmp@.len(),
        {
            let x = tmp.pop().unwrap();
            let y = f(x);
            col.data.push(y);
        }
        proof {
            assert forall|q: int| 0 <= q < old_self.entities@.len() implies #[trigger] self.row(q) == old_self.row(q).update(
                c as int,
                self.row(q)[c as int],
            ) && call_ensures(*f, (old_self.row(q)[c as int],), self.row(q)[c as int]) by {
                assert(self.row(q) =~= old_self.row(q).update(c as int, self.row(q)[c as int]));
            }
        }
    }

    /// Append `val` to the column of kind `k`.
    pub fn push(&mut self, k: ComponentKind, val: V)
        requires
            old(self).wf(),
            old(self).key@.contains(k),
        ensures
            final(self).key@ == old(self).key@,
            final(self).entities@ == old(self).entities@,
            final(self).columns@.len() == old(self).columns@.len(),
            final(self).column_of(k) == old(self).column_of(k).push(val),
            forall|c: int| 0 <= c < old(self).columns@.len() && c != index_of(old(self).key@, k)
                ==> #[trigger] final(self).columns@[c] == old(self).columns@[c],
    {
        let c = self.position(k).unwrap();
        proof {
            lemma_index_of(self.key@, c as int);
        }
        let col = &mut self.columns[c];
        col.data.push(val);
    }
}

} // verus!
