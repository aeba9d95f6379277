//! The registry of service handles: for each known storage node, the handle
//! through which requests are sent to it.

use crate::identity::PublicKey;
use vstd::prelude::*;

verus! {

/// Some key of the list has the bytes `key`.
pub open spec fn has_key(keys: Seq<PublicKey>, key: Seq<u8>) -> bool {
    exists|i: int| 0 <= i < keys.len() && #[trigger] keys[i]@ == key
}

/// A place at which `key` stands in the list, if it stands in it.
pub open spec fn index_of(keys: Seq<PublicKey>, key: Seq<u8>) -> int {
    choose|i: int| 0 <= i < keys.len() && #[trigger] keys[i]@ == key
}

/// No key stands at two places of the list.
pub open spec fn distinct_keys(keys: Seq<PublicKey>) -> bool {
    forall|i: int, j: int|
        0 <= i < keys.len() && 0 <= j < keys.len() && #[trigger] keys[i]@ == #[trigger] keys[j]@
            ==> i == j
}

/// The map from each key of the list to the service at the same place.
pub open spec fn entries_map<T>(keys: Seq<PublicKey>, services: Seq<T>) -> Map<Seq<u8>, T> {
    Map::new(|key: Seq<u8>| has_key(keys, key), |key: Seq<u8>| services[index_of(keys, key)])
}

/// The entry at place `i` maps the key at `i` to the service at `i`.
pub proof fn lemma_entry_at<T>(keys: Seq<PublicKey>, services: Seq<T>, i: int)
    requires
        distinct_keys(keys),
        0 <= i < keys.len(),
    ensures
        has_key(keys, keys[i]@),
        index_of(keys, keys[i]@) == i,
        entries_map(keys, services).dom().contains(keys[i]@),
        entries_map(keys, services)[keys[i]@] == services[i],
{
    assert(keys[i]@ == keys[i]@);
    let j = index_of(keys, keys[i]@);
    assert(keys[j]@ == keys[i]@);
}

/// An entry with a new key, put at the end, is an insertion into the map.
pub proof fn lemma_entries_push<T>(keys: Seq<PublicKey>, services: Seq<T>, key: PublicKey, service: T)
    requires
        distinct_keys(keys),
        keys.len() == services.len(),
        !has_key(keys, key@),
    ensures
        distinct_keys(keys.push(key)),
        entries_map(keys.push(key), services.push(service)) == entries_map(keys, services).insert(
            key@,
            service,
        ),
{
    let keys2 = keys.push(key);
    let services2 = services.push(service);
    assert forall|i: int, j: int|
        0 <= i < keys2.len() && 0 <= j < keys2.len() && #[trigger] keys2[i]@ == #[trigger] keys2[j]@
        implies i == j by {
        if i < keys.len() {
            assert(keys[i]@ == keys2[i]@);
        }
        if j < keys.len() {
            assert(keys[j]@ == keys2[j]@);
        }
    }
    let m2 = entries_map(keys2, services2);
    let m1 = entries_map(keys, services).insert(key@, service);
    assert forall|k: Seq<u8>| m2.dom().contains(k) <==> m1.dom().contains(k) by {
        if has_key(keys2, k) {
            let i = index_of(keys2, k);
            if i < keys.len() {
                assert(keys[i]@ == k);
            }
        }
        if has_key(keys, k) {
            let i = index_of(keys, k);
            assert(keys2[i]@ == k);
        }
        if k == key@ {
            assert(keys2[keys.len() as int]@ == k);
        }
    }
    assert forall|k: Seq<u8>| m2.dom().contains(k) implies m2[k] == m1[k] by {
        let i = index_of(keys2, k);
        lemma_entry_at(keys2, services2, i);
        if i < keys.len() {
            assert(keys[i]@ == k);
            lemma_entry_at(keys, services, i);
        }
    }
    assert(m2 =~= m1);
}

/// Taking the entry at place `i` out removes its key from the map.
pub proof fn lemma_entries_remove<T>(keys: Seq<PublicKey>, services: Seq<T>, i: int)
    requires
        distinct_keys(keys),
        keys.len() == services.len(),
        0 <= i < keys.len(),
    ensures
        distinct_keys(keys.remove(i)),
        !has_key(keys.remove(i), keys[i]@),
        entries_map(keys.remove(i), services.remove(i)) == entries_map(keys, services).remove(
            keys[i]@,
        ),
{
    let keys2 = keys.remove(i);
    let services2 = services.remove(i);
    assert forall|j: int| 0 <= j < keys2.len() implies #[trigger] keys2[j] == keys[if j < i {
        j
    } else {
        j + 1
    }] by {}
    assert forall|a: int, b: int|
        0 <= a < keys2.len() && 0 <= b < keys2.len() && #[trigger] keys2[a]@ == #[trigger] keys2[b]@
        implies a == b by {
        let a1 = if a < i { a } else { a + 1 };
        let b1 = if b < i { b } else { b + 1 };
        assert(keys[a1]@ == keys[b1]@);
    }
    if has_key(keys2, keys[i]@) {
        let j = index_of(keys2, keys[i]@);
        let j1 = if j < i { j } else { j + 1 };
        assert(keys[j1]@ == keys[i]@);
    }
    let m2 = entries_map(keys2, services2);
    let m1 = entries_map(keys, services).remove(keys[i]@);
    assert forall|k: Seq<u8>| m2.dom().contains(k) <==> m1.dom().contains(k) by {
        if has_key(keys2, k) {
            let j = index_of(keys2, k);
            let j1 = if j < i { j } else { j + 1 };
            assert(keys[j1]@ == k);
        }
        if has_key(keys, k) && k != keys[i]@ {
            let j = index_of(keys, k);
            let j2 = if j < i { j } else { j - 1 };
            assert(keys2[j2]@ == k);
        }
    }
    assert forall|k: Seq<u8>| m2.dom().contains(k) implies m2[k] == m1[k] by {
        let j = index_of(keys2, k);
        let j1 = if j < i { j } else { j + 1 };
        lemma_entry_at(keys2, services2, j);
        assert(keys[j1]@ == k);
        lemma_entry_at(keys, services, j1);
    }
    assert(m2 =~= m1);
}

/// A list of entries without a key twice maps as many keys as it is long.
pub proof fn lemma_entries_len<T>(keys: Seq<PublicKey>, services: Seq<T>)
    requires
        distinct_keys(keys),
        keys.len() == services.len(),
    ensures
        entries_map(keys, services).dom().finite(),
        entries_map(keys, services).dom().len() == keys.len(),
    decreases keys.len(),
{
    let dom = entries_map(keys, services).dom();
    if keys.len() == 0 {
        assert(dom =~= Set::<Seq<u8>>::empty());
    } else {
        let i = keys.len() - 1;
        lemma_entries_remove(keys, services, i);
        lemma_entry_at(keys, services, i);
        lemma_entries_len(keys.remove(i), services.remove(i));
        let rest = entries_map(keys.remove(i), services.remove(i)).dom();
        assert(dom =~= rest.insert(keys[i]@));
    }
}

/// For each storage node that is known, the handle through which it is
/// reached. A node has at most one handle.
#[derive(Debug)]
pub struct ServiceRegistry<T> {
    keys: Vec<PublicKey>,
    services: Vec<T>,
}

impl<T> View for ServiceRegistry<T> {
    type V = Map<Seq<u8>, T>;

    closed spec fn view(&self) -> Map<Seq<u8>, T> {
        entries_map(self.keys@, self.services@)
    }
}

impl<T> ServiceRegistry<T> {
    /// The invariant of the registry: one handle for each key, and no key
    /// twice.
    pub closed spec fn wf(&self) -> bool {
        &&& self.keys@.len() == self.services@.len()
        &&& distinct_keys(self.keys@)
    }

    /// The number of entries.
    pub closed spec fn spec_len(&self) -> nat {
        self.keys@.len()
    }

    /// The number of entries is the number of keys of the map.
    pub proof fn lemma_len(&self)
        requires
            self.wf(),
        ensures
            self@.dom().finite(),
            self@.dom().len() == self.spec_len(),
    {
        lemma_entries_len(self.keys@, self.services@);
    }

    /// A registry without entries.
    pub fn new() -> (r: Self)
        ensures
            r.wf(),
            r@ == Map::<Seq<u8>, T>::empty(),
            r.spec_len() == 0,
    {
        let r = ServiceRegistry { keys: Vec::new(), services: Vec::new() };
        assert(r@ =~= Map::<Seq<u8>, T>::empty());
        r
    }

    /// The number of entries.
    pub fn len(&self) -> (r: usize)
        requires
            self.wf(),
        ensures
            r == self.spec_len(),
            r == self@.dom().len(),
    {
        proof {
            self.lemma_len();
        }
        self.keys.len()
    }

    /// The keys of the entries, each once.
    pub fn keys(&self) -> (r: &Vec<PublicKey>)
        requires
            self.wf(),
        ensures
            distinct_keys(r@),
            forall|key: Seq<u8>| has_key(r@, key) <==> self@.dom().contains(key),
    {
        &self.keys
    }

    fn position(&self, key: &PublicKey) -> (r: Option<usize>)
        requires
            self.wf(),
        ensures
            r is Some <==> self@.dom().contains(key@),
            r matches Some(i) ==> i < self.keys@.len() && self.keys@[i as int]@ == key@
                && self.services@[i as int] == self@[key@],
    {
        let mut i: usize = 0;
        while i < self.keys.len()
            invariant
                i <= self.keys@.len(),
                self.wf(),
                forall|j: int| 0 <= j < i ==> self.keys@[j]@ != key@,
            decreases self.keys@.len() - i,
        {
            if self.keys[i] == *key {
                proof {
                    lemma_entry_at(self.keys@, self.services@, i as int);
                }
                return Some(i);
            }
            i += 1;
        }
        None
    }

    /// Tells whether the node `key` has a handle.
    pub fn contains_key(&self, key: &PublicKey) -> (r: bool)
        requires
            self.wf(),
        ensures
            r == self@.dom().contains(key@),
    {
        self.position(key).is_some()
    }

    /// The handle of the node `key`, if it has one.
    pub fn get(&self, key: &PublicKey) -> (r: Option<&T>)
        requires
            self.wf(),
        ensures
            r is Some <==> self@.dom().contains(key@),
            r matches Some(service) ==> *service == self@[key@],
    {
        match self.position(key) {
            Some(i) => Some(&self.services[i]),
            None => None,
        }
    }

    /// Gives the node `key` the handle `service`, in place of the one it had,
    /// which is returned.
    pub fn insert(&mut self, key: PublicKey, service: T) -> (r: Option<T>)
        requires
            old(self).wf(),
        ensures
            final(self).wf(),
            final(self)@ == old(self)@.insert(key@, service),
            r == if old(self)@.dom().contains(key@) {
                Some(old(self)@[key@])
            } else {
                None::<T>
            },
    {
        let replaced = self.remove(&key);
        proof {
            assert(!self@.dom().contains(key@));
            lemma_entries_push(self.keys@, self.services@, key, service);
            assert(old(self)@.remove(key@).insert(key@, service) =~= old(self)@.insert(
                key@,
                service,
            ));
        }
        self.keys.push(key);
        self.services.push(service);
        replaced
    }

    /// Takes the handle of the node `key` out, if it has one.
    pub fn remove(&mut self, key: &PublicKey) -> (r: Option<T>)
        requires
            old(self).wf(),
        ensures
            final(self).wf(),
            final(self)@ == old(self)@.remove(key@),
            r == if old(self)@.dom().contains(key@) {
                Some(old(self)@[key@])
            } else {
                None::<T>
            },
    {
        match self.position(key) {
            Some(i) => {
                proof {
                    lemma_entries_remove(self.keys@, self.services@, i as int);
                }
                self.keys.remove(i);
                let service = self.services.remove(i);
                Some(service)
            },
            None => {
                assert(old(self)@.remove(key@) =~= old(self)@);
                None
            },
        }
    }

    /// Moves every entry of `other` into this registry. Where both have a
    /// handle for a node, that of `other` stays.
    pub fn extend(&mut self, other: ServiceRegistry<T>)
        requires
            old(self).wf(),
            other.wf(),
        ensures
            final(self).wf(),
            final(self)@ == old(self)@.union_prefer_right(other@),
    {
        let mut other = other;
        let ghost target = old(self)@.union_prefer_right(other@);
        while other.keys.len() > 0
            invariant
                self.wf(),
                other.wf(),
                self@.union_prefer_right(other@) == target,
            decreases other.keys@.len(),
        {
            let ghost i = other.keys@.len() - 1;
            let ghost keys = other.keys@;
            let ghost services = other.services@;
            let ghost before = other@;
            let ghost mine = self@;
            proof {
                lemma_entries_remove(other.keys@, other.services@, i);
                lemma_entry_at(other.keys@, other.services@, i);
            }
            let key = other.keys.pop().unwrap();
            let service = other.services.pop().unwrap();
            assert(other.keys@ =~= keys.remove(i));
            assert(other.services@ =~= services.remove(i));
            self.insert(key, service);
            proof {
                assert(other@ == before.remove(key@));
                assert(before[key@] == service);
                assert(mine.insert(key@, service).union_prefer_right(before.remove(key@))
                    =~= mine.union_prefer_right(before));
            }
        }
        proof {
            assert(other@ =~= Map::<Seq<u8>, T>::empty());
            assert(self@.union_prefer_right(other@) =~= self@);
        }
    }
}

impl<T: Clone> ServiceRegistry<T> {
    /// A clone of the handle of the node `key`, if it has one.
    pub fn get_cloned(&self, key: &PublicKey) -> (r: Option<T>)
        requires
            self.wf(),
        ensures
            r is Some <==> self@.dom().contains(key@),
            r matches Some(service) ==> cloned(self@[key@], service),
    {
        match self.get(key) {
            Some(service) => Some(service.clone()),
            None => None,
        }
    }
}

} // verus!
