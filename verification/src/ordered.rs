//! Identity-keyed collection that iterates in first-insertion order.
//!
//! Display order must follow arrival, not identifier collation, so the order of the keys is the
//! authority; an entry is updated in place by identity.
use vstd::prelude::*;

use crate::ids::Identity;

verus! {

/// Whether the association list `m` has an entry for `k`.
pub open spec fn has_key<A>(m: Seq<(Seq<char>, A)>, k: Seq<char>) -> bool {
    exists|i: int| 0 <= i < m.len() && m[i].0 == k
}

/// Where the entry for `k` is in `m`.
pub open spec fn key_pos<A>(m: Seq<(Seq<char>, A)>, k: Seq<char>) -> int {
    choose|i: int| 0 <= i < m.len() && m[i].0 == k
}

/// The value `m` holds for `k`.
pub open spec fn lookup<A>(m: Seq<(Seq<char>, A)>, k: Seq<char>) -> A {
    m[key_pos(m, k)].1
}

/// No key occurs twice in `m`.
pub open spec fn keys_unique<A>(m: Seq<(Seq<char>, A)>) -> bool {
    forall|i: int, j: int| 0 <= i < j < m.len() ==> #[trigger] m[i].0 != #[trigger] m[j].0
}

/// `m` with the entry for `k` replaced in place, or appended when there was none.
pub open spec fn upsert_spec<A>(m: Seq<(Seq<char>, A)>, k: Seq<char>, v: A) -> Seq<(Seq<char>, A)> {
    if has_key(m, k) {
        m.update(key_pos(m, k), (k, v))
    } else {
        m.push((k, v))
    }
}

/// The keys of `m`, in order.
pub open spec fn keys_of<A>(m: Seq<(Seq<char>, A)>) -> Seq<Seq<char>> {
    m.map_values(|e: (Seq<char>, A)| e.0)
}

/// The values of `m`, in order.
pub open spec fn values_of<A>(m: Seq<(Seq<char>, A)>) -> Seq<A> {
    m.map_values(|e: (Seq<char>, A)| e.1)
}

/// With unique keys, the position of a key is the one entry that carries it.
pub proof fn lemma_key_pos<A>(m: Seq<(Seq<char>, A)>, i: int)
    requires
        keys_unique(m),
        0 <= i < m.len(),
    ensures
        has_key(m, m[i].0),
        key_pos(m, m[i].0) == i,
{
    let p = key_pos(m, m[i].0);
    if p < i {
        assert(m[p].0 != m[i].0);
    } else if p > i {
        assert(m[i].0 != m[p].0);
    }
}

/// Upserting keeps keys unique, keeps every existing key where it was, and adds a new key last.
pub proof fn lemma_upsert<A>(m: Seq<(Seq<char>, A)>, k: Seq<char>, v: A)
    requires
        keys_unique(m),
    ensures
        keys_unique(upsert_spec(m, k, v)),
        has_key(m, k) ==> keys_of(upsert_spec(m, k, v)) == keys_of(m),
        !has_key(m, k) ==> keys_of(upsert_spec(m, k, v)) == keys_of(m).push(k),
        has_key(upsert_spec(m, k, v), k),
        lookup(upsert_spec(m, k, v), k) == v,
        forall|q: Seq<char>| q != k ==> (has_key(upsert_spec(m, k, v), q) == has_key(m, q)),
{
    let r = upsert_spec(m, k, v);
    if has_key(m, k) {
        let p = key_pos(m, k);
        assert(keys_of(r) =~= keys_of(m));
        assert forall|i: int, j: int| 0 <= i < j < r.len() implies #[trigger] r[i].0 != #[trigger] r[j].0 by {
            assert(r[i].0 == m[i].0);
            assert(r[j].0 == m[j].0);
        }
        lemma_key_pos(r, p);
        assert forall|q: Seq<char>| q != k implies (has_key(r, q) == has_key(m, q)) by {
            if has_key(m, q) {
                let i = choose|i: int| 0 <= i < m.len() && m[i].0 == q;
                assert(r[i].0 == q);
            }
            if has_key(r, q) {
                let i = choose|i: int| 0 <= i < r.len() && r[i].0 == q;
                assert(m[i].0 == q);
            }
        }
    } else {
        assert(keys_of(r) =~= keys_of(m).push(k));
        assert forall|i: int, j: int| 0 <= i < j < r.len() implies #[trigger] r[i].0 != #[trigger] r[j].0 by {
            if j == m.len() {
                assert(r[i].0 == m[i].0);
            }
        }
        lemma_key_pos(r, m.len() as int);
        assert forall|q: Seq<char>| q != k implies (has_key(r, q) == has_key(m, q)) by {
            if has_key(m, q) {
                let i = choose|i: int| 0 <= i < m.len() && m[i].0 == q;
                assert(r[i].0 == q);
            }
            if has_key(r, q) {
                let i = choose|i: int| 0 <= i < r.len() && r[i].0 == q;
                assert(m[i].0 == q);
            }
        }
    }
}

/// An upsert of `v` under `k` leaves `k` holding `v`. A key already present keeps its place and
/// the length stays; a new key goes last and the length grows by one; every other key keeps its
/// place and its value.
pub proof fn law_an_upsert_keeps_every_place<A>(m: Seq<(Seq<char>, A)>, k: Seq<char>, v: A)
    requires
        keys_unique(m),
    ensures
        has_key(upsert_spec(m, k, v), k),
        lookup(upsert_spec(m, k, v), k) == v,
        has_key(m, k) ==> keys_of(upsert_spec(m, k, v)) == keys_of(m) && upsert_spec(m, k, v).len()
            == m.len(),
        !has_key(m, k) ==> keys_of(upsert_spec(m, k, v)) == keys_of(m).push(k) && upsert_spec(
            m,
            k,
            v,
        ).len() == m.len() + 1,
        forall|q: Seq<char>|
            q != k ==> has_key(upsert_spec(m, k, v), q) == has_key(m, q) && (has_key(m, q) ==> lookup(
                upsert_spec(m, k, v),
                q,
            ) == lookup(m, q) && key_pos(upsert_spec(m, k, v), q) == key_pos(m, q)),
{
    lemma_upsert(m, k, v);
    let r = upsert_spec(m, k, v);
    assert forall|q: Seq<char>| q != k && has_key(m, q) implies lookup(r, q) == lookup(m, q) && key_pos(r, q)
        == key_pos(m, q) by {
        let i = key_pos(m, q);
        assert(m[i].0 == q);
        if has_key(m, k) {
            assert(key_pos(m, k) != i);
        }
        assert(r[i] == m[i]);
        lemma_key_pos(r, i);
    };
    if has_key(m, k) {
        assert(r.len() == m.len());
    }
}

/// Identity-keyed values in first-insertion order.
#[derive(Debug)]
pub struct OrderedById<V> {
    order: Vec<Identity>,
    entries: Vec<V>,
}

impl<V: View> View for OrderedById<V> {
    type V = Seq<(Seq<char>, V::V)>;

    closed spec fn view(&self) -> Seq<(Seq<char>, V::V)> {
        Seq::new(self.entries@.len(), |i: int| (self.order@[i]@, self.entries@[i]@))
    }
}

impl<V: View> OrderedById<V> {
    /// Keys and entries line up, and no key occurs twice.
    pub closed spec fn wf(&self) -> bool {
        &&& self.order@.len() == self.entries@.len()
        &&& forall|i: int, j: int|
            0 <= i < j < self.order@.len() ==> #[trigger] self.order@[i]@ != #[trigger] self.order@[j]@
    }

    /// A well-formed collection has unique keys.
    pub proof fn lemma_unique(&self)
        requires
            self.wf(),
        ensures
            keys_unique(self@),
    {
        assert forall|i: int, j: int| 0 <= i < j < self@.len() implies #[trigger] self@[i].0 != #[trigger] self@[j].0 by {
            assert(self@[i].0 == self.order@[i]@);
            assert(self@[j].0 == self.order@[j]@);
        }
    }

    /// The entries, in arrival order.
    pub closed spec fn items(&self) -> Seq<V> {
        self.entries@
    }

    /// The entries are what the view's values describe.
    pub proof fn lemma_items(&self)
        requires
            self.wf(),
        ensures
            self.items().len() == self@.len(),
            forall|i: int| 0 <= i < self@.len() ==> #[trigger] self.items()[i]@ == self@[i].1,
    {
    }

    /// An empty collection.
    pub fn new() -> (m: Self)
        ensures
            m.wf(),
            m@ == Seq::<(Seq<char>, V::V)>::empty(),
            m.items() == Seq::<V>::empty(),
    {
        let m = OrderedById { order: Vec::new(), entries: Vec::new() };
        assert(m@ =~= Seq::<(Seq<char>, V::V)>::empty());
        assert(m.items() =~= Seq::<V>::empty());
        m
    }

    /// Where the entry for `key` is.
    pub fn index_of(&self, key: &Identity) -> (found: Option<usize>)
        requires
            self.wf(),
        ensures
            found is Some == has_key(self@, key@),
            found matches Some(i) ==> i < self@.len() && i == key_pos(self@, key@),
    {
        let mut i: usize = 0;
        while i < self.order.len()
            invariant
                self.wf(),
                i <= self.order@.len(),
                forall|j: int| 0 <= j < i ==> self@[j].0 != key@,
            decreases self.order@.len() - i,
        {
            if self.order[i].same(key) {
                proof {
                    self.lemma_unique();
                    lemma_key_pos(self@, i as int);
                }
                return Some(i);
            }
            i = i + 1;
        }
        None
    }

    /// Whether there is an entry for `key`.
    pub fn contains(&self, key: &Identity) -> (found: bool)
        requires
            self.wf(),
        ensures
            found == has_key(self@, key@),
    {
        self.index_of(key).is_some()
    }

    /// The entry for `key`.
    pub fn get(&self, key: &Identity) -> (found: Option<&V>)
        requires
            self.wf(),
        ensures
            found is Some == has_key(self@, key@),
            found matches Some(v) ==> v@ == lookup(self@, key@) && *v == self.items()[key_pos(
                self@,
                key@,
            )],
    {
        match self.index_of(key) {
            Some(i) => Some(&self.entries[i]),
            None => None,
        }
    }

    /// The entry at position `i`, for editing in place.
    pub fn get_mut_at(&mut self, i: usize) -> (entry: &mut V)
        requires
            old(self).wf(),
            i < old(self)@.len(),
        ensures
            entry@ == old(self)@[i as int].1,
            *entry == old(self).items()[i as int],
            final(self).items() == old(self).items().update(i as int, *final(entry)),
            final(self).wf(),
            final(self)@ == old(self)@.update(i as int, (old(self)@[i as int].0, final(entry)@)),
    {
        let entry = &mut self.entries[i];
        entry
    }

    /// The entry for `key`, for editing in place.
    pub fn get_mut(&mut self, key: &Identity) -> (found: Option<&mut V>)
        requires
            old(self).wf(),
        ensures
            found is Some == has_key(old(self)@, key@),
            found is None ==> final(self)@ == old(self)@,
            found matches Some(v) ==> (*v)@ == lookup(old(self)@, key@) && final(self)@
                == old(self)@.update(key_pos(old(self)@, key@), (key@, final(v)@)),
            final(self).wf(),
    {
        match self.index_of(key) {
            Some(i) => {
                let entry = self.get_mut_at(i);
                Some(entry)
            },
            None => None,
        }
    }

    /// Appends a new entry, or replaces an existing one without moving its position.
    pub fn upsert(&mut self, key: Identity, value: V)
        requires
            old(self).wf(),
        ensures
            final(self).wf(),
            final(self)@ == upsert_spec(old(self)@, key@, value@),
            has_key(old(self)@, key@) ==> final(self).items() == old(self).items().update(
                key_pos(old(self)@, key@),
                value,
            ),
            !has_key(old(self)@, key@) ==> final(self).items() == old(self).items().push(value),
    {
        proof {
            self.lemma_unique();
            lemma_upsert(self@, key@, value@);
        }
        match self.index_of(&key) {
            Some(i) => {
                self.entries.set(i, value);
                proof {
                    assert(self.entries@ =~= old(self).entries@.update(i as int, value));
                    assert(self@ =~= upsert_spec(old(self)@, key@, value@));
                    assert forall|a: int, b: int| 0 <= a < b < self.order@.len() implies #[trigger] self.order@[a]@ != #[trigger] self.order@[b]@ by {
                        assert(self.order@ == old(self).order@);
                    }
                }
            },
            None => {
                let ghost k = key@;
                self.order.push(key);
                self.entries.push(value);
                proof {
                    assert(self@ =~= upsert_spec(old(self)@, k, value@));
                    assert forall|a: int, b: int| 0 <= a < b < self.order@.len() implies #[trigger] self.order@[a]@ != #[trigger] self.order@[b]@ by {
                        if b == old(self).order@.len() {
                            assert(self.order@[a]@ == old(self)@[a].0);
                            assert(has_key(old(self)@, old(self)@[a].0));
                        }
                    }
                }
            },
        }
    }

    /// Number of entries.
    pub fn len(&self) -> (n: usize)
        requires
            self.wf(),
        ensures
            n == self@.len(),
    {
        self.entries.len()
    }

    /// The entries in arrival order.
    pub fn iter(&self) -> (entries: &[V])
        requires
            self.wf(),
        ensures
            entries@ == self.items(),
    {
        self.entries.as_slice()
    }

    /// The key at position `i`.
    pub fn key_at(&self, i: usize) -> (key: Option<&Identity>)
        requires
            self.wf(),
        ensures
            key is Some == (i < self@.len()),
            key matches Some(k) ==> k@ == self@[i as int].0,
    {
        if i < self.order.len() {
            Some(&self.order[i])
        } else {
            None
        }
    }

    /// Removes the entry for `key`, reporting where it was.
    pub fn remove(&mut self, key: &Identity) -> (removed: Option<usize>)
        requires
            old(self).wf(),
        ensures
            final(self).wf(),
            removed is Some == has_key(old(self)@, key@),
            removed matches Some(i) ==> i == key_pos(old(self)@, key@) && final(self)@
                == old(self)@.remove(i as int) && final(self).items() == old(self).items().remove(
                i as int,
            ),
            removed is None ==> final(self)@ == old(self)@,
    {
        match self.index_of(key) {
            Some(i) => {
                self.order.remove(i);
                self.entries.remove(i);
                proof {
                    assert(self.entries@ =~= old(self).entries@.remove(i as int));
                    assert(self@ =~= old(self)@.remove(i as int));
                    assert forall|a: int, b: int| 0 <= a < b < self.order@.len() implies #[trigger] self.order@[a]@ != #[trigger] self.order@[b]@ by {
                        let oa = if a < i { a } else { a + 1 };
                        let ob = if b < i { b } else { b + 1 };
                        assert(self.order@[a] == old(self).order@[oa]);
                        assert(self.order@[b] == old(self).order@[ob]);
                    }
                }
                Some(i)
            },
            None => None,
        }
    }
}

} // verus!
