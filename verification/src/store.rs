//! Small verified containers backing the actors' state: a vector-backed set
//! of identifiers and a vector-backed association map with unique keys.
//! Iteration order is the insertion order, which keeps the actors' fan-out
//! of envelopes deterministic and lets contracts speak about it exactly.

use vstd::prelude::*;

verus! {

/// A copyable key type with an executable equality test that agrees with
/// spec-level equality.
pub trait ExecEq: Sized + Copy {
    fn eq_val(&self, other: &Self) -> (r: bool)
        ensures
            r == (*self == *other),
    ;
}

impl ExecEq for u64 {
    fn eq_val(&self, other: &Self) -> (r: bool)
        ensures
            r == (*self == *other),
    {
        *self == *other
    }
}

impl ExecEq for crate::types::NodeId {
    fn eq_val(&self, other: &Self) -> (r: bool)
        ensures
            r == (*self == *other),
    {
        self.0 == other.0
    }
}

impl ExecEq for crate::types::AcceptorId {
    fn eq_val(&self, other: &Self) -> (r: bool)
        ensures
            r == (*self == *other),
    {
        self.0 == other.0
    }
}

impl ExecEq for crate::types::LeaderId {
    fn eq_val(&self, other: &Self) -> (r: bool)
        ensures
            r == (*self == *other),
    {
        self.0 == other.0
    }
}

impl ExecEq for crate::types::ReplicaId {
    fn eq_val(&self, other: &Self) -> (r: bool)
        ensures
            r == (*self == *other),
    {
        self.0 == other.0
    }
}

impl ExecEq for crate::types::BallotNumber {
    fn eq_val(&self, other: &Self) -> (r: bool)
        ensures
            r == (*self == *other),
    {
        *self == *other
    }
}

/// An insertion-ordered set of copyable identifiers, without duplicates.
#[derive(Debug, PartialEq)]
pub struct KeySet<T: ExecEq> {
    items: Vec<T>,
}

impl<T: ExecEq> View for KeySet<T> {
    type V = Seq<T>;

    closed spec fn view(&self) -> Seq<T> {
        self.items@
    }
}

impl<T: ExecEq> KeySet<T> {
    /// No element occurs twice.
    pub open spec fn uniq(&self) -> bool {
        forall|i: int, j: int| 0 <= i < j < self@.len() ==> self@[i] != self@[j]
    }

    pub fn new() -> (r: KeySet<T>)
        ensures
            r@ == Seq::<T>::empty(),
            r.uniq(),
    {
        KeySet { items: Vec::new() }
    }

    pub fn len(&self) -> (r: usize)
        ensures
            r == self@.len(),
    {
        self.items.len()
    }

    pub fn get(&self, i: usize) -> (r: T)
        requires
            i < self@.len(),
        ensures
            r == self@[i as int],
    {
        self.items[i]
    }

    pub fn contains(&self, x: &T) -> (r: bool)
        ensures
            r == self@.contains(*x),
    {
        let mut i: usize = 0;
        while i < self.items.len()
            invariant
                i <= self@.len(),
                forall|j: int| 0 <= j < i ==> self@[j] != *x,
            decreases self@.len() - i,
        {
            if self.items[i].eq_val(x) {
                return true;
            }
            i = i + 1;
        }
        false
    }

    /// Adds `x` unless it is already present.
    pub fn insert(&mut self, x: T)
        requires
            old(self).uniq(),
        ensures
            final(self).uniq(),
            old(self)@.contains(x) ==> final(self)@ == old(self)@,
            !old(self)@.contains(x) ==> final(self)@ == old(self)@.push(x),
            forall|y: T| final(self)@.contains(y) <==> old(self)@.contains(y) || y == x,
    {
        if !self.contains(&x) {
            self.items.push(x);
            proof {
                assert forall|y: T| self@.contains(y) implies old(self)@.contains(y) || y == x by {
                    let j = choose|j: int| 0 <= j < self@.len() && self@[j] == y;
                    if j < old(self)@.len() {
                        assert(old(self)@[j] == y);
                    }
                }
                assert forall|y: T| old(self)@.contains(y) || y == x implies self@.contains(y) by {
                    if old(self)@.contains(y) {
                        let j = choose|j: int| 0 <= j < old(self)@.len() && old(self)@[j] == y;
                        assert(self@[j] == y);
                    } else {
                        assert(self@[self@.len() - 1] == y);
                    }
                }
            }
        }
    }

    /// Element-by-element equality with another set.
    pub fn seq_eq(&self, other: &KeySet<T>) -> (r: bool)
        ensures
            r == (self@ == other@),
    {
        if self.items.len() != other.items.len() {
            return false;
        }
        let mut i: usize = 0;
        while i < self.items.len()
            invariant
                self@.len() == other@.len(),
                i <= self@.len(),
                forall|j: int| 0 <= j < i ==> self@[j] == other@[j],
            decreases self@.len() - i,
        {
            if !self.items[i].eq_val(&other.items[i]) {
                return false;
            }
            i = i + 1;
        }
        proof {
            assert(self@ =~= other@);
        }
        true
    }

    /// Decides [`KeySet::uniq`] at run time.
    pub fn is_uniq(&self) -> (r: bool)
        ensures
            r == self.uniq(),
    {
        let mut i: usize = 0;
        while i < self.items.len()
            invariant
                i <= self@.len(),
                forall|a: int, b: int| 0 <= a < b < i ==> self@[a] != self@[b],
            decreases self@.len() - i,
        {
            let mut j: usize = 0;
            while j < i
                invariant
                    i < self@.len(),
                    j <= i,
                    forall|b: int| 0 <= b < j ==> self@[b] != self@[i as int],
                decreases i - j,
            {
                if self.items[j].eq_val(&self.items[i]) {
                    return false;
                }
                j = j + 1;
            }
            i = i + 1;
        }
        true
    }

    /// Builds a set holding exactly the distinct elements of `v`, keeping the
    /// order of first occurrence.
    pub fn from_vec(v: Vec<T>) -> (r: KeySet<T>)
        ensures
            r.uniq(),
            forall|x: T| r@.contains(x) <==> v@.contains(x),
    {
        let mut r = KeySet::new();
        let mut i: usize = 0;
        while i < v.len()
            invariant
                i <= v@.len(),
                r.uniq(),
                forall|x: T| r@.contains(x) <==> exists|j: int| 0 <= j < i && v@[j] == x,
            decreases v@.len() - i,
        {
            r.insert(v[i]);
            proof {
                assert forall|x: T| r@.contains(x) implies exists|j: int|
                    0 <= j < i + 1 && v@[j] == x by {
                    if x == v@[i as int] {
                        assert(v@[i as int] == x);
                    }
                }
            }
            i = i + 1;
        }
        r
    }
}

impl<T: ExecEq> Clone for KeySet<T> {
    fn clone(&self) -> (r: Self)
        ensures
            r@ == self@,
    {
        let mut items: Vec<T> = Vec::new();
        let mut i: usize = 0;
        while i < self.items.len()
            invariant
                i <= self.items@.len(),
                items@ == self.items@.take(i as int),
            decreases self.items@.len() - i,
        {
            items.push(self.items[i]);
            proof {
                assert(self.items@.take(i + 1 as int) =~= self.items@.take(i as int).push(
                    self.items@[i as int],
                ));
            }
            i = i + 1;
        }
        proof {
            assert(self.items@.take(self.items@.len() as int) =~= self.items@);
        }
        KeySet { items }
    }
}

/// An insertion-ordered association map with unique keys.  `entries()` gives
/// the underlying sequence of pairs; the view is the corresponding map.
#[derive(Debug, PartialEq)]
pub struct KeyMap<K: ExecEq, V> {
    items: Vec<(K, V)>,
}

/// The map described by a sequence of key-value pairs; a later pair for the
/// same key wins.
pub open spec fn seq_to_map<K, V>(s: Seq<(K, V)>) -> Map<K, V>
    decreases s.len(),
{
    if s.len() == 0 {
        Map::empty()
    } else {
        seq_to_map(s.drop_last()).insert(s.last().0, s.last().1)
    }
}

/// No key occurs twice in `s`.
pub open spec fn uniq_keys<K, V>(s: Seq<(K, V)>) -> bool {
    forall|i: int, j: int| 0 <= i < j < s.len() ==> s[i].0 != s[j].0
}

/// A key is in the map of `s` exactly when some pair of `s` carries it.
pub proof fn lemma_seq_to_map_dom<K, V>(s: Seq<(K, V)>, k: K)
    ensures
        seq_to_map(s).dom().contains(k) <==> exists|i: int| 0 <= i < s.len() && s[i].0 == k,
    decreases s.len(),
{
    if s.len() > 0 {
        lemma_seq_to_map_dom(s.drop_last(), k);
        if seq_to_map(s).dom().contains(k) {
            if s.last().0 == k {
                assert(s[s.len() - 1].0 == k);
            } else {
                let i = choose|i: int| 0 <= i < s.drop_last().len() && s.drop_last()[i].0 == k;
                assert(s[i].0 == k);
            }
        }
        if exists|i: int| 0 <= i < s.len() && s[i].0 == k {
            let i = choose|i: int| 0 <= i < s.len() && s[i].0 == k;
            if i < s.len() - 1 {
                assert(s.drop_last()[i].0 == k);
            }
        }
    }
}

/// With unique keys, the map of `s` sends the key of each pair to its value.
pub proof fn lemma_seq_to_map_get<K, V>(s: Seq<(K, V)>, i: int)
    requires
        uniq_keys(s),
        0 <= i < s.len(),
    ensures
        seq_to_map(s).dom().contains(s[i].0),
        seq_to_map(s)[s[i].0] == s[i].1,
    decreases s.len(),
{
    if i == s.len() - 1 {
    } else {
        assert(uniq_keys(s.drop_last())) by {
            assert(forall|a: int, b: int|
                0 <= a < b < s.drop_last().len() ==> s.drop_last()[a].0 != s.drop_last()[b].0);
        }
        lemma_seq_to_map_get(s.drop_last(), i);
        assert(s[i].0 != s.last().0);
    }
}

/// Replacing the value of the pair at `i` updates the map at that pair's key.
pub proof fn lemma_seq_to_map_update<K, V>(s: Seq<(K, V)>, i: int, v: V)
    requires
        uniq_keys(s),
        0 <= i < s.len(),
    ensures
        seq_to_map(s.update(i, (s[i].0, v))) == seq_to_map(s).insert(s[i].0, v),
    decreases s.len(),
{
    let k = s[i].0;
    let t = s.update(i, (k, v));
    if i == s.len() - 1 {
        assert(t.drop_last() =~= s.drop_last());
        assert(seq_to_map(t) == seq_to_map(s.drop_last()).insert(k, v));
        assert(seq_to_map(s).insert(k, v) =~= seq_to_map(s.drop_last()).insert(k, v));
    } else {
        assert(uniq_keys(s.drop_last())) by {
            assert(forall|a: int, b: int|
                0 <= a < b < s.drop_last().len() ==> s.drop_last()[a].0 != s.drop_last()[b].0);
        }
        lemma_seq_to_map_update(s.drop_last(), i, v);
        assert(t.drop_last() =~= s.drop_last().update(i, (k, v)));
        assert(t.last() == s.last());
        assert(k != s.last().0);
        assert(seq_to_map(t) == seq_to_map(s.drop_last()).insert(k, v).insert(
            s.last().0,
            s.last().1,
        ));
        assert(seq_to_map(s.drop_last()).insert(k, v).insert(s.last().0, s.last().1)
            =~= seq_to_map(s).insert(k, v));
    }
}

/// Removing the pair at `i` removes that pair's key from the map.
pub proof fn lemma_seq_to_map_remove<K, V>(s: Seq<(K, V)>, i: int)
    requires
        uniq_keys(s),
        0 <= i < s.len(),
    ensures
        seq_to_map(s.remove(i)) == seq_to_map(s).remove(s[i].0),
    decreases s.len(),
{
    let k = s[i].0;
    let t = s.remove(i);
    if i == s.len() - 1 {
        assert(t =~= s.drop_last());
        lemma_seq_to_map_dom::<K, V>(s.drop_last(), k);
        assert(forall|j: int| 0 <= j < s.drop_last().len() ==> s.drop_last()[j].0 != k);
        assert(!seq_to_map(s.drop_last()).dom().contains(k));
        assert(seq_to_map(s).remove(k) =~= seq_to_map(s.drop_last()));
    } else {
        assert(uniq_keys(s.drop_last())) by {
            assert(forall|a: int, b: int|
                0 <= a < b < s.drop_last().len() ==> s.drop_last()[a].0 != s.drop_last()[b].0);
        }
        lemma_seq_to_map_remove(s.drop_last(), i);
        assert(t.drop_last() =~= s.drop_last().remove(i));
        assert(t.last() == s.last());
        assert(k != s.last().0);
        assert(seq_to_map(t) == seq_to_map(s.drop_last()).remove(k).insert(
            s.last().0,
            s.last().1,
        ));
        assert(seq_to_map(s.drop_last()).remove(k).insert(s.last().0, s.last().1)
            =~= seq_to_map(s).remove(k));
    }
}

impl<K: ExecEq, V> View for KeyMap<K, V> {
    type V = Map<K, V>;

    closed spec fn view(&self) -> Map<K, V> {
        seq_to_map(self.items@)
    }
}

impl<K: ExecEq, V> KeyMap<K, V> {
    /// The underlying key-value pairs, in insertion order.
    pub closed spec fn entries(&self) -> Seq<(K, V)> {
        self.items@
    }

    /// No key occurs twice.
    pub open spec fn uniq(&self) -> bool {
        uniq_keys(self.entries())
    }

    /// Two maps with the same entries have the same view.
    pub proof fn lemma_same_entries_same_view(a: &KeyMap<K, V>, b: &KeyMap<K, V>)
        requires
            a.entries() == b.entries(),
        ensures
            a@ == b@,
    {
    }

    /// Ties the sequence of entries to the map view.
    pub proof fn lemma_view(&self)
        requires
            self.uniq(),
        ensures
            forall|k: K|
                self@.dom().contains(k) <==> exists|i: int|
                    0 <= i < self.entries().len() && self.entries()[i].0 == k,
            forall|i: int|
                0 <= i < self.entries().len() ==> self@.dom().contains(#[trigger] self.entries()[i].0)
                    && self@[self.entries()[i].0] == self.entries()[i].1,
    {
        assert forall|k: K| self@.dom().contains(k) implies exists|i: int|
            0 <= i < self.entries().len() && self.entries()[i].0 == k by {
            lemma_seq_to_map_dom(self.items@, k);
        }
        assert forall|k: K|
            exists|i: int| 0 <= i < self.entries().len() && self.entries()[i].0 == k implies self@.dom().contains(
            k,
        ) by {
            lemma_seq_to_map_dom(self.items@, k);
        }
        assert forall|i: int| 0 <= i < self.entries().len() implies self@.dom().contains(
            #[trigger] self.entries()[i].0,
        ) && self@[self.entries()[i].0] == self.entries()[i].1 by {
            lemma_seq_to_map_get(self.items@, i);
        }
    }

    pub fn new() -> (r: KeyMap<K, V>)
        ensures
            r.entries() == Seq::<(K, V)>::empty(),
            r@ == Map::<K, V>::empty(),
            r.uniq(),
    {
        KeyMap { items: Vec::new() }
    }

    pub fn len(&self) -> (r: usize)
        ensures
            r == self.entries().len(),
    {
        self.items.len()
    }

    /// The key of the entry at position `i`.
    pub fn key_at(&self, i: usize) -> (r: K)
        requires
            i < self.entries().len(),
        ensures
            r == self.entries()[i as int].0,
    {
        let pair: &(K, V) = &self.items[i];
        pair.0
    }

    /// The value of the entry at position `i`.
    pub fn val_at(&self, i: usize) -> (r: &V)
        requires
            i < self.entries().len(),
        ensures
            *r == self.entries()[i as int].1,
    {
        &self.items[i].1
    }

    /// Decides [`KeyMap::uniq`] at run time.
    pub fn is_uniq(&self) -> (r: bool)
        ensures
            r == self.uniq(),
    {
        let mut i: usize = 0;
        while i < self.items.len()
            invariant
                i <= self.entries().len(),
                forall|a: int, b: int| 0 <= a < b < i ==> self.entries()[a].0 != self.entries()[b].0,
            decreases self.entries().len() - i,
        {
            let mut j: usize = 0;
            while j < i
                invariant
                    i < self.entries().len(),
                    j <= i,
                    forall|b: int| 0 <= b < j ==> self.entries()[b].0 != self.entries()[i as int].0,
                decreases i - j,
            {
                let pj: &(K, V) = &self.items[j];
                let pi: &(K, V) = &self.items[i];
                if pj.0.eq_val(&pi.0) {
                    return false;
                }
                j = j + 1;
            }
            i = i + 1;
        }
        true
    }

    /// Position of the entry carrying key `k`, if any.
    fn find(&self, k: &K) -> (r: Option<usize>)
        ensures
            match r {
                Some(i) => i < self.entries().len() && self.entries()[i as int].0 == *k,
                None => forall|i: int| 0 <= i < self.entries().len() ==> self.entries()[i].0 != *k,
            },
    {
        let mut i: usize = 0;
        while i < self.items.len()
            invariant
                i <= self.entries().len(),
                forall|j: int| 0 <= j < i ==> self.entries()[j].0 != *k,
            decreases self.entries().len() - i,
        {
            let pair: &(K, V) = &self.items[i];
            if pair.0.eq_val(k) {
                return Some(i);
            }
            i = i + 1;
        }
        None
    }

    pub fn contains_key(&self, k: &K) -> (r: bool)
        requires
            self.uniq(),
        ensures
            r == self@.dom().contains(*k),
    {
        proof {
            lemma_seq_to_map_dom(self.items@, *k);
        }
        self.find(k).is_some()
    }

    pub fn get(&self, k: &K) -> (r: Option<&V>)
        requires
            self.uniq(),
        ensures
            match r {
                Some(v) => self@.dom().contains(*k) && *v == self@[*k],
                None => !self@.dom().contains(*k),
            },
    {
        proof {
            lemma_seq_to_map_dom(self.items@, *k);
        }
        match self.find(k) {
            Some(i) => {
                proof {
                    lemma_seq_to_map_get(self.items@, i as int);
                }
                Some(&self.items[i].1)
            },
            None => None,
        }
    }

    /// Inserts or replaces the value for `k`.  An existing entry keeps its
    /// position; a new key is appended at the end.
    pub fn insert(&mut self, k: K, v: V)
        requires
            old(self).uniq(),
        ensures
            final(self).uniq(),
            final(self)@ == old(self)@.insert(k, v),
            old(self)@.dom().contains(k) ==> {
                &&& final(self).entries().len() == old(self).entries().len()
                &&& exists|i: int|
                    0 <= i < old(self).entries().len() && old(self).entries()[i].0 == k
                        && final(self).entries() == old(self).entries().update(i, (k, v))
            },
            !old(self)@.dom().contains(k) ==> final(self).entries() == old(self).entries().push(
                (k, v),
            ),
    {
        proof {
            lemma_seq_to_map_dom(self.items@, k);
        }
        match self.find(&k) {
            Some(i) => {
                proof {
                    lemma_seq_to_map_update(self.items@, i as int, v);
                    assert(self.items@.update(i as int, (k, v)) == self.items@.update(
                        i as int,
                        (self.items@[i as int].0, v),
                    ));
                }
                self.items.set(i, (k, v));
            },
            None => {
                self.items.push((k, v));
                proof {
                    assert(self.items@.drop_last() =~= old(self).items@);
                }
            },
        }
    }

    /// Removes the entry for `k`, returning its value if it was present.
    pub fn remove(&mut self, k: &K) -> (r: Option<V>)
        requires
            old(self).uniq(),
        ensures
            final(self).uniq(),
            final(self)@ == old(self)@.remove(*k),
            match r {
                Some(v) => old(self)@.dom().contains(*k) && v == old(self)@[*k] && exists|i: int|
                    0 <= i < old(self).entries().len() && old(self).entries()[i].0 == *k
                        && final(self).entries() == old(self).entries().remove(i),
                None => !old(self)@.dom().contains(*k) && final(self).entries() == old(
                    self,
                ).entries(),
            },
    {
        proof {
            lemma_seq_to_map_dom(self.items@, *k);
        }
        match self.find(k) {
            Some(i) => {
                proof {
                    lemma_seq_to_map_get(self.items@, i as int);
                    lemma_seq_to_map_remove(self.items@, i as int);
                }
                let v = self.items.remove(i);
                Some(v.1)
            },
            None => {
                proof {
                    assert(!self@.dom().contains(*k));
                    assert(self@.remove(*k) =~= self@);
                }
                None
            },
        }
    }
}

impl<K: ExecEq, V: Clone> Clone for KeyMap<K, V> {
    fn clone(&self) -> (r: Self)
        ensures
            r.entries().len() == self.entries().len(),
            forall|i: int|
                0 <= i < self.entries().len() ==> (#[trigger] r.entries()[i]).0
                    == self.entries()[i].0 && vstd::pervasive::cloned::<V>(
                    self.entries()[i].1,
                    r.entries()[i].1,
                ),
            self.uniq() ==> r.uniq(),
    {
        let mut items: Vec<(K, V)> = Vec::new();
        let mut i: usize = 0;
        while i < self.items.len()
            invariant
                i <= self.items@.len(),
                items@.len() == i,
                forall|j: int|
                    0 <= j < i ==> (#[trigger] items@[j]).0 == self.items@[j].0
                        && vstd::pervasive::cloned::<V>(self.items@[j].1, items@[j].1),
            decreases self.items@.len() - i,
        {
            let pair: &(K, V) = &self.items[i];
            items.push((pair.0, pair.1.clone()));
            i = i + 1;
        }
        KeyMap { items }
    }
}

} // verus!
