//! A small map keyed by monitor identity, in insertion order.

use vstd::prelude::*;

use crate::model::MonitorId;

verus! {

pub open spec fn keys_distinct(keys: Seq<MonitorId>) -> bool {
    forall|i: int, j: int| 0 <= i < keys.len() && 0 <= j < keys.len() && i != j ==> keys[i]@ != keys[j]@
}

pub open spec fn has_key(keys: Seq<MonitorId>, k: Seq<char>) -> bool {
    exists|i: int| 0 <= i < keys.len() && #[trigger] keys[i]@ == k
}

/// The map that parallel key and value sequences describe.
pub open spec fn map_of<V>(keys: Seq<MonitorId>, values: Seq<V>) -> Map<Seq<char>, V> {
    Map::new(
        |k: Seq<char>| has_key(keys, k),
        |k: Seq<char>| values[choose|i: int| 0 <= i < keys.len() && #[trigger] keys[i]@ == k],
    )
}

/// Monitor identities mapped to values. No identity occurs twice, and entries keep the order
/// in which their keys were first inserted.
#[derive(Debug, PartialEq)]
pub struct IdMap<V> {
    keys: Vec<MonitorId>,
    values: Vec<V>,
}

impl<V> View for IdMap<V> {
    type V = Map<Seq<char>, V>;

    closed spec fn view(&self) -> Map<Seq<char>, V> {
        map_of(self.keys@, self.values@)
    }
}

impl<V> IdMap<V> {
    #[verifier::type_invariant]
    spec fn inv(self) -> bool {
        &&& keys_distinct(self.keys@)
        &&& self.keys@.len() == self.values@.len()
    }

    /// The keys, in order.
    pub closed spec fn key_seq(self) -> Seq<MonitorId> {
        self.keys@
    }

    /// The values, in the order of their keys.
    pub closed spec fn value_seq(self) -> Seq<V> {
        self.values@
    }

    pub fn new() -> (r: Self)
        ensures
            r@ == Map::<Seq<char>, V>::empty(),
            r.key_seq().len() == 0,
    {
        let r = IdMap { keys: Vec::new(), values: Vec::new() };
        assert(r@ =~= Map::<Seq<char>, V>::empty());
        r
    }

    pub fn len(&self) -> (r: usize)
        ensures
            r == self.key_seq().len(),
            keys_distinct(self.key_seq()),
            self@ == map_of(self.key_seq(), self.value_seq()),
            r == self.value_seq().len(),
            (r == 0) == (self@ == Map::<Seq<char>, V>::empty()),
            self@.dom().finite() && self@.dom().len() == r,
    {
        proof {
            use_type_invariant(self);
            self.lemma_size();
            if self.keys@.len() > 0 {
                lemma_lookup(self.keys@, self.values@, 0);
                assert(self@.contains_key(self.keys@[0]@));
            } else {
                assert(self@ =~= Map::<Seq<char>, V>::empty());
            }
        }
        self.keys.len()
    }

    /// The map has one entry for each key: as many as there are keys (which `len` shows to be
    /// distinct).
    pub proof fn lemma_size(&self)
        requires
            keys_distinct(self.key_seq()),
        ensures
            self@.dom().finite(),
            self@.dom().len() == self.key_seq().len(),
    {
        let ids = self.keys@.map_values(|k: MonitorId| k@);
        assert forall|k: Seq<char>| #[trigger] self@.dom().contains(k) == ids.to_set().contains(k) by {
            if self@.dom().contains(k) {
                let i = choose|i: int| 0 <= i < self.keys@.len() && #[trigger] self.keys@[i]@ == k;
                assert(ids[i] == k);
            }
            if ids.to_set().contains(k) {
                let i = choose|i: int| 0 <= i < ids.len() && ids[i] == k;
                assert(self.keys@[i]@ == k);
            }
        }
        assert(self@.dom() =~= ids.to_set());
        assert(ids.no_duplicates());
        ids.unique_seq_to_set();
        vstd::seq_lib::seq_to_set_is_finite(ids);
    }

    pub fn is_empty(&self) -> (r: bool)
        ensures
            r == (self@ == Map::<Seq<char>, V>::empty()),
            r == (self.key_seq().len() == 0),
    {
        self.len() == 0
    }

    pub fn key_at(&self, i: usize) -> (r: &MonitorId)
        requires
            i < self.key_seq().len(),
        ensures
            *r == self.key_seq()[i as int],
            self@.contains_key(r@),
            self@[r@] == self.value_seq()[i as int],
            forall|j: int| 0 <= j < self.key_seq().len() && j != i ==> self.key_seq()[j]@ != r@,
    {
        proof {
            use_type_invariant(self);
            lemma_view(self.keys@, self.values@);
        }
        &self.keys[i]
    }

    pub fn value_at(&self, i: usize) -> (r: &V)
        requires
            i < self.key_seq().len(),
        ensures
            *r == self.value_seq()[i as int],
    {
        proof {
            use_type_invariant(self);
        }
        &self.values[i]
    }

    /// Where the key stands, if it is there.
    pub fn position(&self, id: &MonitorId) -> (r: Option<usize>)
        ensures
            match r {
                Some(i) => i < self.key_seq().len() && self.key_seq()[i as int]@ == id@,
                None => !self@.contains_key(id@),
            },
            r is Some == self@.contains_key(id@),
    {
        proof {
            use_type_invariant(self);
            lemma_view(self.keys@, self.values@);
        }
        let mut i: usize = 0;
        while i < self.keys.len()
            invariant
                i <= self.keys@.len(),
                forall|j: int| 0 <= j < i ==> self.keys@[j]@ != id@,
            decreases self.keys@.len() - i,
        {
            if self.keys[i].same(id) {
                return Some(i);
            }
            i = i + 1;
        }
        None
    }

    pub fn get(&self, id: &MonitorId) -> (r: Option<&V>)
        ensures
            match r {
                Some(v) => self@.contains_key(id@) && *v == self@[id@],
                None => !self@.contains_key(id@),
            },
    {
        proof {
            use_type_invariant(self);
            lemma_view(self.keys@, self.values@);
        }
        match self.position(id) {
            Some(i) => Some(&self.values[i]),
            None => None,
        }
    }

    pub fn contains(&self, id: &MonitorId) -> (r: bool)
        ensures
            r == self@.contains_key(id@),
    {
        self.position(id).is_some()
    }

    fn take_parts(&mut self) -> (r: (Vec<MonitorId>, Vec<V>))
        ensures
            r.0@ == old(self).key_seq(),
            r.1@ == old(self).value_seq(),
            keys_distinct(r.0@),
            r.0@.len() == r.1@.len(),
            final(self).key_seq().len() == 0,
    {
        proof {
            use_type_invariant(&*self);
        }
        let mut parts = IdMap { keys: Vec::new(), values: Vec::new() };
        std::mem::swap(self, &mut parts);
        let IdMap { keys, values } = parts;
        (keys, values)
    }

    /// Sets the key's value: in place where the key is there, else as a new last entry.
    pub fn insert(&mut self, id: MonitorId, value: V)
        ensures
            final(self)@ == old(self)@.insert(id@, value),
            old(self)@.contains_key(id@) ==> final(self).key_seq() == old(self).key_seq(),
            !old(self)@.contains_key(id@) ==> final(self).key_seq() == old(self).key_seq().push(
                id,
            ),
    {
        proof {
            use_type_invariant(&*self);
            lemma_view(self.keys@, self.values@);
        }
        match self.position(&id) {
            Some(i) => {
                let (keys, mut values) = self.take_parts();
                let ghost old_keys = keys@;
                let ghost old_values = values@;
                values.set(i, value);
                proof {
                    lemma_set_value(old_keys, old_values, i as int, value);
                }
                *self = IdMap { keys, values };
            },
            None => {
                let (mut keys, mut values) = self.take_parts();
                let ghost old_keys = keys@;
                let ghost old_values = values@;
                proof {
                    lemma_push(old_keys, old_values, id, value);
                }
                keys.push(id);
                values.push(value);
                *self = IdMap { keys, values };
            },
        }
    }

    /// The key's value to change in place; a key that is not there is first added with
    /// `default`.
    pub fn value_mut(&mut self, id: &MonitorId, default: V) -> (r: &mut V)
        ensures
            *r == if old(self)@.contains_key(id@) {
                old(self)@[id@]
            } else {
                default
            },
            final(self)@ == old(self)@.insert(id@, *final(r)),
    {
        proof {
            use_type_invariant(&*self);
            lemma_view(self.keys@, self.values@);
        }
        let i = match self.position(id) {
            Some(i) => i,
            None => {
                self.insert(id.clone(), default);
                proof {
                    use_type_invariant(&*self);
                    lemma_view(self.keys@, self.values@);
                }
                self.keys.len() - 1
            },
        };
        proof {
            use_type_invariant(&*self);
            lemma_view(self.keys@, self.values@);
            assert(self.keys@[i as int]@ == id@);
            assert forall|v: V| map_of(self.keys@, self.values@.update(i as int, v)) == map_of(
                self.keys@,
                self.values@,
            ).insert(id@, v) by {
                lemma_set_value(self.keys@, self.values@, i as int, v);
            }
            assert(map_of(self.keys@, self.values@).contains_key(self.keys@[i as int]@));
            assert(self@[id@] == self.values@[i as int]);
            assert(self@[id@] == if old(self)@.contains_key(id@) {
                old(self)@[id@]
            } else {
                default
            });
            assert(old(self)@.insert(id@, self.values@[i as int]) == self@);
        }
        &mut self.values[i]
    }

    /// Takes the key out, handing back its value; the other entries keep their order.
    pub fn remove(&mut self, id: &MonitorId) -> (r: Option<V>)
        ensures
            final(self)@ == old(self)@.remove(id@),
            match r {
                Some(v) => old(self)@.contains_key(id@) && v == old(self)@[id@],
                None => !old(self)@.contains_key(id@),
            },
            forall|k: MonitorId| #[trigger]
                final(self).key_seq().contains(k) ==> old(self).key_seq().contains(k),
    {
        proof {
            use_type_invariant(&*self);
            lemma_view(self.keys@, self.values@);
        }
        match self.position(id) {
            Some(i) => {
                let (mut keys, mut values) = self.take_parts();
                let ghost old_keys = keys@;
                let ghost old_values = values@;
                proof {
                    lemma_remove(old_keys, old_values, i as int);
                }
                keys.remove(i);
                let v = values.remove(i);
                assert(keys@ == old_keys.remove(i as int));
                *self = IdMap { keys, values };
                proof {
                    assert forall|k: MonitorId| #[trigger]
                        self.keys@.contains(k) implies old_keys.contains(k) by {
                        let j = choose|j: int| 0 <= j < self.keys@.len() && self.keys@[j] == k;
                        if j < i {
                            assert(old_keys[j] == k);
                        } else {
                            assert(old_keys[j + 1] == k);
                        }
                    }
                }
                Some(v)
            },
            None => {
                proof {
                    assert(self@ =~= self@.remove(id@));
                }
                None
            },
        }
    }
}

impl<V: Clone> Clone for IdMap<V> {
    fn clone(&self) -> (r: Self)
        ensures
            r.key_seq() == self.key_seq(),
            r.value_seq().len() == self.value_seq().len(),
            forall|i: int|
                0 <= i < self.value_seq().len() ==> cloned(
                    self.value_seq()[i],
                    #[trigger] r.value_seq()[i],
                ),
    {
        proof {
            use_type_invariant(self);
        }
        let mut keys: Vec<MonitorId> = Vec::new();
        let mut values: Vec<V> = Vec::new();
        let n = self.keys.len();
        for i in 0..n
            invariant
                n == self.keys@.len(),
                n == self.values@.len(),
                keys@ == self.keys@.take(i as int),
                values@.len() == i,
                forall|j: int| 0 <= j < i ==> cloned(self.values@[j], #[trigger] values@[j]),
        {
            keys.push(self.keys[i].clone());
            values.push(self.values[i].clone());
            assert(keys@ == self.keys@.take(i + 1));
        }
        assert(keys@ == self.keys@);
        IdMap { keys, values }
    }
}

proof fn lemma_view<V>(keys: Seq<MonitorId>, values: Seq<V>)
    requires
        keys_distinct(keys),
        keys.len() == values.len(),
    ensures
        forall|i: int|
            0 <= i < keys.len() ==> #[trigger] map_of(keys, values).contains_key(keys[i]@)
                && map_of(keys, values)[keys[i]@] == values[i],
        forall|k: Seq<char>| #[trigger] map_of(keys, values).contains_key(k) <==> has_key(keys, k),
{
    assert forall|i: int| 0 <= i < keys.len() implies #[trigger] map_of(keys, values).contains_key(
        keys[i]@,
    ) && map_of(keys, values)[keys[i]@] == values[i] by {
        lemma_lookup(keys, values, i);
    }
}

proof fn lemma_lookup<V>(keys: Seq<MonitorId>, values: Seq<V>, i: int)
    requires
        keys_distinct(keys),
        keys.len() == values.len(),
        0 <= i < keys.len(),
    ensures
        map_of(keys, values).contains_key(keys[i]@),
        map_of(keys, values)[keys[i]@] == values[i],
{
    assert(has_key(keys, keys[i]@));
    let j = choose|j: int| 0 <= j < keys.len() && #[trigger] keys[j]@ == keys[i]@;
    assert(j == i);
}

proof fn lemma_set_value<V>(keys: Seq<MonitorId>, values: Seq<V>, i: int, value: V)
    requires
        keys_distinct(keys),
        keys.len() == values.len(),
        0 <= i < keys.len(),
    ensures
        map_of(keys, values.update(i, value)) == map_of(keys, values).insert(keys[i]@, value),
{
    let m1 = map_of(keys, values.update(i, value));
    let m2 = map_of(keys, values).insert(keys[i]@, value);
    assert forall|k: Seq<char>| m1.contains_key(k) == m2.contains_key(k) by {
        if k == keys[i]@ {
            assert(has_key(keys, keys[i]@));
        }
    }
    assert forall|k: Seq<char>| m1.contains_key(k) implies m1[k] == m2[k] by {
        let j = choose|j: int| 0 <= j < keys.len() && #[trigger] keys[j]@ == k;
        lemma_lookup(keys, values.update(i, value), j);
        if j != i {
            lemma_lookup(keys, values, j);
        }
    }
    assert(m1 =~= m2);
}

proof fn lemma_push<V>(keys: Seq<MonitorId>, values: Seq<V>, id: MonitorId, value: V)
    requires
        keys_distinct(keys),
        keys.len() == values.len(),
        !has_key(keys, id@),
    ensures
        keys_distinct(keys.push(id)),
        map_of(keys.push(id), values.push(value)) == map_of(keys, values).insert(id@, value),
{
    let k2 = keys.push(id);
    let v2 = values.push(value);
    assert forall|i: int, j: int|
        0 <= i < k2.len() && 0 <= j < k2.len() && i != j implies k2[i]@ != k2[j]@ by {
        if i == keys.len() {
            assert(keys[j]@ == k2[j]@);
        } else if j == keys.len() {
            assert(keys[i]@ == k2[i]@);
        }
    }
    let m1 = map_of(k2, v2);
    let m2 = map_of(keys, values).insert(id@, value);
    assert forall|k: Seq<char>| m1.contains_key(k) == m2.contains_key(k) by {
        if has_key(k2, k) {
            let j = choose|j: int| 0 <= j < k2.len() && #[trigger] k2[j]@ == k;
            if j < keys.len() {
                assert(keys[j]@ == k);
            }
        }
        if has_key(keys, k) {
            let j = choose|j: int| 0 <= j < keys.len() && #[trigger] keys[j]@ == k;
            assert(k2[j]@ == k);
        }
        if k == id@ {
            assert(k2[keys.len() as int]@ == k);
        }
    }
    assert forall|k: Seq<char>| m1.contains_key(k) implies m1[k] == m2[k] by {
        let j = choose|j: int| 0 <= j < k2.len() && #[trigger] k2[j]@ == k;
        lemma_lookup(k2, v2, j);
        if j < keys.len() {
            assert(keys[j]@ == k);
            lemma_lookup(keys, values, j);
        }
    }
    assert(m1 =~= m2);
}

proof fn lemma_remove<V>(keys: Seq<MonitorId>, values: Seq<V>, i: int)
    requires
        keys_distinct(keys),
        keys.len() == values.len(),
        0 <= i < keys.len(),
    ensures
        keys_distinct(keys.remove(i)),
        map_of(keys.remove(i), values.remove(i)) == map_of(keys, values).remove(keys[i]@),
{
    let k2 = keys.remove(i);
    let v2 = values.remove(i);
    assert forall|a: int, b: int|
        0 <= a < k2.len() && 0 <= b < k2.len() && a != b implies k2[a]@ != k2[b]@ by {
        let a1 = if a < i { a } else { a + 1 };
        let b1 = if b < i { b } else { b + 1 };
        assert(k2[a] == keys[a1]);
        assert(k2[b] == keys[b1]);
    }
    let m1 = map_of(k2, v2);
    let m2 = map_of(keys, values).remove(keys[i]@);
    assert forall|k: Seq<char>| m1.contains_key(k) == m2.contains_key(k) by {
        if has_key(k2, k) {
            let j = choose|j: int| 0 <= j < k2.len() && #[trigger] k2[j]@ == k;
            let j1 = if j < i { j } else { j + 1 };
            assert(keys[j1]@ == k);
        }
        if has_key(keys, k) && k != keys[i]@ {
            let j = choose|j: int| 0 <= j < keys.len() && #[trigger] keys[j]@ == k;
            let j2 = if j < i { j } else { j - 1 };
            assert(k2[j2]@ == k);
        }
    }
    assert forall|k: Seq<char>| m1.contains_key(k) implies m1[k] == m2[k] by {
        let j = choose|j: int| 0 <= j < k2.len() && #[trigger] k2[j]@ == k;
        lemma_lookup(k2, v2, j);
        let j1 = if j < i { j } else { j + 1 };
        assert(keys[j1]@ == k);
        lemma_lookup(keys, values, j1);
    }
    assert(m1 =~= m2);
}

} // verus!
