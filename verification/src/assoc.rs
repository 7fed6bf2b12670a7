//! Association lists whose keys are compared by an identity of their own.
use vstd::prelude::*;

verus! {

/// A key of an [`AssocMap`]: two keys are the same exactly when their identities are equal.
pub trait AssocKey: Sized {
    /// What two keys must share to be the same key.
    type Id;

    /// The identity of this key.
    spec fn id(&self) -> Self::Id;

    /// Whether `self` and `other` are the same key.
    fn same(&self, other: &Self) -> (r: bool)
        ensures
            r == (self.id() == other.id()),
    ;

    /// The same key again.
    fn duplicate(&self) -> (r: Self)
        ensures
            r.id() == self.id(),
    ;
}

impl AssocKey for String {
    type Id = Seq<char>;

    open spec fn id(&self) -> Seq<char> {
        self@
    }

    fn same(&self, other: &Self) -> (r: bool) {
        *self == *other
    }

    fn duplicate(&self) -> (r: Self) {
        self.clone()
    }
}

/// Position of the first key of identity `id` in `keys`, or `keys.len()` if there is none.
pub open spec fn position<K: AssocKey>(keys: Seq<K>, id: K::Id) -> int
    decreases keys.len(),
{
    if keys.len() == 0 {
        0
    } else if keys[0].id() == id {
        0
    } else {
        1 + position(keys.skip(1), id)
    }
}

/// Some key of `keys` has the identity `id`.
pub open spec fn has_id<K: AssocKey>(keys: Seq<K>, id: K::Id) -> bool {
    exists|i: int| 0 <= i < keys.len() && (#[trigger] keys[i]).id() == id
}

/// No two keys of `keys` have the same identity.
pub open spec fn distinct_ids<K: AssocKey>(keys: Seq<K>) -> bool {
    forall|i: int, j: int|
        0 <= i < keys.len() && 0 <= j < keys.len() && (#[trigger] keys[i]).id() == (
        #[trigger] keys[j]).id() ==> i == j
}

/// The map from the identities of `keys` to the values at the same positions of `vals`.
pub open spec fn paired<K: AssocKey, V>(keys: Seq<K>, vals: Seq<V>) -> Map<K::Id, V> {
    Map::new(|id: K::Id| has_id(keys, id), |id: K::Id| vals[position(keys, id)])
}

/// `position` finds a key of identity `id` wherever there is one.
pub proof fn lemma_position<K: AssocKey>(keys: Seq<K>, id: K::Id)
    ensures
        0 <= position(keys, id) <= keys.len(),
        has_id(keys, id) <==> position(keys, id) < keys.len(),
        position(keys, id) < keys.len() ==> keys[position(keys, id)].id() == id,
        forall|i: int| 0 <= i < position(keys, id) ==> (#[trigger] keys[i]).id() != id,
    decreases keys.len(),
{
    if keys.len() > 0 && keys[0].id() != id {
        let rest = keys.skip(1);
        lemma_position(rest, id);
        assert forall|i: int| 0 <= i < position(keys, id) implies (#[trigger] keys[i]).id()
            != id by {
            if i > 0 {
                assert(rest[i - 1] == keys[i]);
            }
        }
        if has_id(keys, id) {
            let i = choose|i: int| 0 <= i < keys.len() && (#[trigger] keys[i]).id() == id;
            assert(rest[i - 1].id() == id);
        }
    }
}

/// Among distinct keys, the key at `i` is at the position of its identity.
pub proof fn lemma_position_of<K: AssocKey>(keys: Seq<K>, i: int)
    requires
        distinct_ids(keys),
        0 <= i < keys.len(),
    ensures
        position(keys, keys[i].id()) == i,
        has_id(keys, keys[i].id()),
{
    lemma_position(keys, keys[i].id());
}

/// Appending an entry with a new key adds it to the map.
pub proof fn lemma_push<K: AssocKey, V>(keys: Seq<K>, vals: Seq<V>, key: K, val: V)
    requires
        keys.len() == vals.len(),
        distinct_ids(keys),
        !has_id(keys, key.id()),
    ensures
        distinct_ids(keys.push(key)),
        paired(keys.push(key), vals.push(val)) == paired(keys, vals).insert(key.id(), val),
{
    let k2 = keys.push(key);
    let v2 = vals.push(val);
    assert(distinct_ids(k2)) by {
        assert forall|i: int, j: int|
            0 <= i < k2.len() && 0 <= j < k2.len() && (#[trigger] k2[i]).id() == (
            #[trigger] k2[j]).id() implies i == j by {
            if i < keys.len() && j < keys.len() {
                assert(keys[i].id() == keys[j].id());
            } else if i < keys.len() {
                assert(keys[i].id() == key.id());
            } else if j < keys.len() {
                assert(keys[j].id() == key.id());
            }
        }
    }
    assert forall|id: K::Id| has_id(k2, id) <==> (has_id(keys, id) || id == key.id()) by {
        if has_id(keys, id) {
            let i = choose|i: int| 0 <= i < keys.len() && (#[trigger] keys[i]).id() == id;
            assert(k2[i].id() == id);
        }
        if id == key.id() {
            assert(k2[keys.len() as int].id() == id);
        }
        if has_id(k2, id) && id != key.id() {
            let i = choose|i: int| 0 <= i < k2.len() && (#[trigger] k2[i]).id() == id;
            assert(keys[i].id() == id);
        }
    }
    assert forall|id: K::Id| has_id(k2, id) implies #[trigger] paired(k2, v2)[id] == paired(
        keys,
        vals,
    ).insert(key.id(), val)[id] by {
        lemma_position(k2, id);
        lemma_position(keys, id);
        if id == key.id() {
            assert(position(k2, id) == keys.len()) by {
                assert(k2[keys.len() as int].id() == id);
                lemma_position_of(k2, keys.len() as int);
            }
        } else {
            let i = position(keys, id);
            assert(k2[i].id() == id);
            lemma_position_of(k2, i);
        }
    }
    assert(paired(k2, v2) =~= paired(keys, vals).insert(key.id(), val));
}

/// Replacing the value of a key replaces it in the map.
pub proof fn lemma_update<K: AssocKey, V>(keys: Seq<K>, vals: Seq<V>, id: K::Id, val: V)
    requires
        keys.len() == vals.len(),
        distinct_ids(keys),
        has_id(keys, id),
    ensures
        paired(keys, vals.update(position(keys, id), val)) == paired(keys, vals).insert(id, val),
{
    lemma_position(keys, id);
    let at = position(keys, id);
    assert forall|other: K::Id| has_id(keys, other) implies #[trigger] paired(
        keys,
        vals.update(at, val),
    )[other] == paired(keys, vals).insert(id, val)[other] by {
        lemma_position(keys, other);
    }
    assert(paired(keys, vals.update(at, val)) =~= paired(keys, vals).insert(id, val));
}

/// Taking out an entry takes its key out of the map.
pub proof fn lemma_remove<K: AssocKey, V>(keys: Seq<K>, vals: Seq<V>, id: K::Id)
    requires
        keys.len() == vals.len(),
        distinct_ids(keys),
        has_id(keys, id),
    ensures
        distinct_ids(keys.remove(position(keys, id))),
        paired(keys.remove(position(keys, id)), vals.remove(position(keys, id))) == paired(
            keys,
            vals,
        ).remove(id),
{
    lemma_position(keys, id);
    let at = position(keys, id);
    let k2 = keys.remove(at);
    let v2 = vals.remove(at);
    assert forall|i: int, j: int|
        0 <= i < k2.len() && 0 <= j < k2.len() && (#[trigger] k2[i]).id() == (
        #[trigger] k2[j]).id() implies i == j by {
        let oi = if i < at { i } else { i + 1 };
        let oj = if j < at { j } else { j + 1 };
        assert(keys[oi].id() == keys[oj].id());
    }
    assert forall|other: K::Id| has_id(k2, other) <==> (has_id(keys, other) && other != id) by {
        if has_id(k2, other) {
            let i = choose|i: int| 0 <= i < k2.len() && (#[trigger] k2[i]).id() == other;
            let oi = if i < at { i } else { i + 1 };
            assert(keys[oi].id() == other);
            if other == id {
                assert(keys[oi].id() == keys[at].id());
            }
        }
        if has_id(keys, other) && other != id {
            let i = choose|i: int| 0 <= i < keys.len() && (#[trigger] keys[i]).id() == other;
            let ni = if i < at { i } else { i - 1 };
            assert(k2[ni].id() == other);
        }
    }
    assert forall|other: K::Id| has_id(k2, other) implies #[trigger] paired(k2, v2)[other]
        == paired(keys, vals).remove(id)[other] by {
        lemma_position(keys, other);
        let i = position(keys, other);
        let ni = if i < at { i } else { i - 1 };
        assert(k2[ni].id() == other);
        lemma_position_of(k2, ni);
    }
    assert(paired(k2, v2) =~= paired(keys, vals).remove(id));
}

/// Position in `keys` of the key that is the same as `key`, if there is one.
pub fn find_key<K: AssocKey>(keys: &Vec<K>, key: &K) -> (r: Option<usize>)
    ensures
        match r {
            Some(i) => i < keys@.len() && i == position(keys@, key.id()) && has_id(
                keys@,
                key.id(),
            ),
            None => !has_id(keys@, key.id()) && position(keys@, key.id()) == keys@.len(),
        },
{
    proof {
        lemma_position(keys@, key.id());
    }
    let mut i: usize = 0;
    while i < keys.len()
        invariant
            i <= keys@.len(),
            forall|j: int| 0 <= j < i ==> (#[trigger] keys@[j]).id() != key.id(),
            has_id(keys@, key.id()) <==> position(keys@, key.id()) < keys@.len(),
            0 <= position(keys@, key.id()) <= keys@.len(),
            position(keys@, key.id()) < keys@.len() ==> keys@[position(keys@, key.id())].id()
                == key.id(),
            forall|j: int|
                0 <= j < position(keys@, key.id()) ==> (#[trigger] keys@[j]).id() != key.id(),
        decreases keys@.len() - i,
    {
        if keys[i].same(key) {
            return Some(i);
        }
        i += 1;
    }
    None
}

/// A finite map that keeps its entries in the order in which their keys first came.
#[derive(Debug)]
pub struct AssocMap<K, V> {
    keys: Vec<K>,
    vals: Vec<V>,
}

impl<K: AssocKey, V> AssocMap<K, V> {
    /// The keys, in order.
    pub closed spec fn keys(&self) -> Seq<K> {
        self.keys@
    }

    /// The values, in the order of their keys.
    pub closed spec fn vals(&self) -> Seq<V> {
        self.vals@
    }

    /// Each key has its value, and no key occurs twice.
    pub open spec fn wf(&self) -> bool {
        &&& self.keys().len() == self.vals().len()
        &&& distinct_ids(self.keys())
    }

    /// The map from the identities of the keys to the values.
    pub open spec fn view(&self) -> Map<K::Id, V> {
        paired(self.keys(), self.vals())
    }

    /// A map without entries.
    pub fn new() -> (r: Self)
        ensures
            r.wf(),
            r.keys() == Seq::<K>::empty(),
            r.vals() == Seq::<V>::empty(),
            r@ == Map::<K::Id, V>::empty(),
    {
        let r = AssocMap { keys: Vec::new(), vals: Vec::new() };
        assert(r@ =~= Map::<K::Id, V>::empty());
        r
    }

    /// Number of entries.
    pub fn len(&self) -> (r: usize)
        ensures
            r == self.keys().len(),
    {
        self.keys.len()
    }

    /// Whether there is no entry.
    pub fn is_empty(&self) -> (r: bool)
        ensures
            r == (self.keys().len() == 0),
    {
        self.keys.len() == 0
    }

    /// The key at position `i`.
    pub fn key_at(&self, i: usize) -> (r: &K)
        requires
            i < self.keys().len(),
        ensures
            *r == self.keys()[i as int],
    {
        &self.keys[i]
    }

    /// The value at position `i`.
    pub fn val_at(&self, i: usize) -> (r: &V)
        requires
            i < self.vals().len(),
        ensures
            *r == self.vals()[i as int],
    {
        &self.vals[i]
    }

    /// Whether there is an entry for `key`.
    pub fn contains_key(&self, key: &K) -> (r: bool)
        ensures
            r == self@.dom().contains(key.id()),
    {
        match find_key(&self.keys, key) {
            Some(_) => true,
            None => false,
        }
    }

    /// The value of `key`.
    pub fn get(&self, key: &K) -> (r: Option<&V>)
        requires
            self.wf(),
        ensures
            match r {
                Some(v) => self@.dom().contains(key.id()) && *v == self@[key.id()],
                None => !self@.dom().contains(key.id()),
            },
    {
        match find_key(&self.keys, key) {
            Some(i) => Some(&self.vals[i]),
            None => None,
        }
    }

    /// The value of `key`, to be changed in place.
    pub fn get_mut(&mut self, key: &K) -> (r: Option<&mut V>)
        requires
            old(self).wf(),
        ensures
            final(self).wf(),
            final(self).keys() == old(self).keys(),
            match r {
                Some(v) => {
                    &&& old(self)@.dom().contains(key.id())
                    &&& *v == old(self)@[key.id()]
                    &&& final(self).vals() == old(self).vals().update(
                        position(old(self).keys(), key.id()),
                        *final(v),
                    )
                    &&& final(self)@ == old(self)@.insert(key.id(), *final(v))
                },
                None => {
                    &&& !old(self)@.dom().contains(key.id())
                    &&& final(self).vals() == old(self).vals()
                },
            },
    {
        match find_key(&self.keys, key) {
            Some(i) => {
                proof {
                    assert forall|val: V| #[trigger]
                        paired(
                            self.keys(),
                            self.vals().update(position(self.keys(), key.id()), val),
                        ) == self@.insert(key.id(), val) by {
                        lemma_update(self.keys(), self.vals(), key.id(), val);
                    }
                }
                Some(&mut self.vals[i])
            },
            None => None,
        }
    }

    /// Sets the value of `key` and returns the one it had. The key that is already there stays.
    pub fn insert(&mut self, key: K, val: V) -> (r: Option<V>)
        requires
            old(self).wf(),
        ensures
            final(self).wf(),
            final(self)@ == old(self)@.insert(key.id(), val),
            if old(self)@.dom().contains(key.id()) {
                &&& r == Some(old(self)@[key.id()])
                &&& final(self).keys() == old(self).keys()
                &&& final(self).vals() == old(self).vals().update(
                    position(old(self).keys(), key.id()),
                    val,
                )
            } else {
                &&& r is None
                &&& final(self).keys() == old(self).keys().push(key)
                &&& final(self).vals() == old(self).vals().push(val)
            },
    {
        match find_key(&self.keys, &key) {
            Some(i) => {
                proof {
                    lemma_update(self.keys(), self.vals(), key.id(), val);
                }
                let mut held = val;
                std::mem::swap(&mut self.vals[i], &mut held);
                Some(held)
            },
            None => {
                proof {
                    lemma_push(self.keys(), self.vals(), key, val);
                }
                self.keys.push(key);
                self.vals.push(val);
                None
            },
        }
    }

    /// Takes the entry of `key` out and returns its value.
    pub fn remove(&mut self, key: &K) -> (r: Option<V>)
        requires
            old(self).wf(),
        ensures
            final(self).wf(),
            final(self)@ == old(self)@.remove(key.id()),
            if old(self)@.dom().contains(key.id()) {
                let at = position(old(self).keys(), key.id());
                &&& r == Some(old(self)@[key.id()])
                &&& final(self).keys() == old(self).keys().remove(at)
                &&& final(self).vals() == old(self).vals().remove(at)
            } else {
                &&& r is None
                &&& final(self).keys() == old(self).keys()
                &&& final(self).vals() == old(self).vals()
            },
    {
        match find_key(&self.keys, key) {
            Some(i) => {
                proof {
                    lemma_remove(self.keys(), self.vals(), key.id());
                }
                self.keys.remove(i);
                Some(self.vals.remove(i))
            },
            None => {
                assert(self@ =~= self@.remove(key.id()));
                None
            },
        }
    }
}

/// Keys with the same identities lead to the same map.
proof fn lemma_same_ids<K: AssocKey, V>(a: Seq<K>, b: Seq<K>, vals: Seq<V>)
    requires
        a.len() == b.len(),
        forall|i: int| 0 <= i < a.len() ==> (#[trigger] a[i]).id() == b[i].id(),
    ensures
        paired(a, vals) == paired(b, vals),
        distinct_ids(a) ==> distinct_ids(b),
{
    assert forall|id: K::Id| has_id(a, id) == has_id(b, id) && position(a, id) == position(
        b,
        id,
    ) by {
        lemma_same_position(a, b, id);
        lemma_position(a, id);
        lemma_position(b, id);
    }
    assert(paired(a, vals) =~= paired(b, vals));
    if distinct_ids(a) {
        assert forall|i: int, j: int|
            0 <= i < b.len() && 0 <= j < b.len() && (#[trigger] b[i]).id() == (
            #[trigger] b[j]).id() implies i == j by {
            assert(a[i].id() == a[j].id());
        }
    }
}

proof fn lemma_same_position<K: AssocKey>(a: Seq<K>, b: Seq<K>, id: K::Id)
    requires
        a.len() == b.len(),
        forall|i: int| 0 <= i < a.len() ==> (#[trigger] a[i]).id() == b[i].id(),
    ensures
        position(a, id) == position(b, id),
    decreases a.len(),
{
    if a.len() > 0 {
        let a1 = a.skip(1);
        let b1 = b.skip(1);
        assert forall|i: int| 0 <= i < a1.len() implies (#[trigger] a1[i]).id() == b1[i].id() by {
            assert(a[i + 1].id() == b[i + 1].id());
        }
        lemma_same_position(a1, b1, id);
        assert(a[0].id() == b[0].id());
    }
}

impl<K: AssocKey, V: Copy> Clone for AssocMap<K, V> {
    fn clone(&self) -> (r: Self)
        ensures
            r@ == self@,
            r.vals() == self.vals(),
            r.keys().len() == self.keys().len(),
            forall|i: int|
                0 <= i < r.keys().len() ==> (#[trigger] r.keys()[i]).id() == self.keys()[i].id(),
            self.wf() ==> r.wf(),
    {
        let mut keys: Vec<K> = Vec::new();
        let mut i: usize = 0;
        while i < self.keys.len()
            invariant
                i <= self.keys@.len(),
                keys@.len() == i,
                forall|j: int| 0 <= j < i ==> (#[trigger] keys@[j]).id() == self.keys@[j].id(),
            decreases self.keys@.len() - i,
        {
            keys.push(self.keys[i].duplicate());
            i += 1;
        }
        let mut vals: Vec<V> = Vec::new();
        let mut i: usize = 0;
        while i < self.vals.len()
            invariant
                i <= self.vals@.len(),
                vals@ == self.vals@.take(i as int),
            decreases self.vals@.len() - i,
        {
            vals.push(self.vals[i]);
            assert(self.vals@.take(i + 1) =~= self.vals@.take(i as int).push(
                self.vals@[i as int],
            ));
            i += 1;
        }
        assert(vals@ =~= self.vals@);
        proof {
            lemma_same_ids(self.keys@, keys@, vals@);
        }
        AssocMap { keys, vals }
    }
}

/// Under each key of a map stands its own value, and under nothing else stands one.
pub proof fn law_paired<K: AssocKey, V>(keys: Seq<K>, vals: Seq<V>, i: int, id: K::Id)
    requires
        keys.len() == vals.len(),
        distinct_ids(keys),
    ensures
        0 <= i < keys.len() ==> paired(keys, vals).dom().contains(keys[i].id()) && paired(
            keys,
            vals,
        )[keys[i].id()] == vals[i],
        paired(keys, vals).dom().contains(id) ==> exists|k: int|
            0 <= k < keys.len() && (#[trigger] keys[k]).id() == id,
{
    if 0 <= i < keys.len() {
        lemma_position_of(keys, i);
        assert(has_id(keys, keys[i].id()));
    }
}

} // verus!
