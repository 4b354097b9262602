//! A map from virtual addresses, in the order in which the addresses came.

use crate::addr::Ipv4Addr;
use vstd::prelude::*;

verus! {

/// A map keyed by IPv4 address. It is walked in the order in which its addresses were first
/// put in.
pub struct AddressMap<V> {
    entries: Vec<(Ipv4Addr, V)>,
}

/// The addresses of a list of entries, in its order.
pub open spec fn keys_of<V>(entries: Seq<(Ipv4Addr, V)>) -> Seq<Ipv4Addr> {
    entries.map_values(|e: (Ipv4Addr, V)| e.0)
}

/// The map that a list of entries stands for.
pub open spec fn map_of<V>(entries: Seq<(Ipv4Addr, V)>) -> Map<Ipv4Addr, V>
    decreases entries.len(),
{
    if entries.len() == 0 {
        Map::empty()
    } else {
        map_of(entries.drop_last()).insert(entries.last().0, entries.last().1)
    }
}

/// An address is in the map exactly if an entry has it, and maps to what that entry holds.
proof fn lemma_map_of<V>(entries: Seq<(Ipv4Addr, V)>)
    requires
        keys_of(entries).no_duplicates(),
    ensures
        forall|ip: Ipv4Addr| #[trigger]
            map_of(entries).contains_key(ip) <==> keys_of(entries).contains(ip),
        forall|i: int|
            #![trigger entries[i]]
            0 <= i < entries.len() ==> map_of(entries).contains_key(entries[i].0) && map_of(
                entries,
            )[entries[i].0] == entries[i].1,
    decreases entries.len(),
{
    let keys = keys_of(entries);
    if entries.len() > 0 {
        let front = entries.drop_last();
        assert(keys_of(front) =~= keys.drop_last());
        assert forall|i: int, j: int|
            0 <= i < keys_of(front).len() && 0 <= j < keys_of(front).len() && i != j implies keys_of(
            front,
        )[i] != keys_of(front)[j] by {
            assert(keys[i] != keys[j]);
        }
        lemma_map_of(front);
        assert forall|ip: Ipv4Addr| #[trigger]
            map_of(entries).contains_key(ip) <==> keys.contains(ip) by {
            if keys.contains(ip) {
                let i = choose|i: int| 0 <= i < keys.len() && keys[i] == ip;
                if i < front.len() {
                    assert(keys_of(front)[i] == ip);
                    assert(keys_of(front).contains(ip));
                }
            }
            if map_of(entries).contains_key(ip) {
                if ip == entries.last().0 {
                    assert(keys[keys.len() - 1] == ip);
                } else {
                    assert(map_of(front).contains_key(ip));
                    let i = choose|i: int| 0 <= i < keys_of(front).len() && keys_of(front)[i] == ip;
                    assert(keys[i] == ip);
                }
            }
        }
        assert forall|i: int| #![trigger entries[i]] 0 <= i < entries.len() implies map_of(
            entries,
        ).contains_key(entries[i].0) && map_of(entries)[entries[i].0] == entries[i].1 by {
            if i < front.len() {
                assert(front[i] == entries[i]);
                assert(keys[i] != keys[keys.len() - 1]);
            }
        }
    }
}

/// Replacing what one entry holds changes the map at that entry's address alone.
proof fn lemma_map_of_update<V>(entries: Seq<(Ipv4Addr, V)>, i: int, value: V)
    requires
        keys_of(entries).no_duplicates(),
        0 <= i < entries.len(),
    ensures
        map_of(entries.update(i, (entries[i].0, value))) == map_of(entries).insert(
            entries[i].0,
            value,
        ),
        keys_of(entries.update(i, (entries[i].0, value))) == keys_of(entries),
{
    let after = entries.update(i, (entries[i].0, value));
    let ip = entries[i].0;
    assert(keys_of(after) =~= keys_of(entries));
    lemma_map_of(entries);
    lemma_map_of(after);
    assert forall|k: Ipv4Addr| #[trigger] map_of(after).contains_key(k) implies map_of(after)[k]
        == map_of(entries).insert(ip, value)[k] by {
        let j = choose|j: int| 0 <= j < after.len() && keys_of(after)[j] == k;
        assert(after[j].0 == k);
        assert(entries[j].0 == k);
        assert(keys_of(entries)[j] == k && keys_of(entries)[i] == ip);
    }
    assert(map_of(after).dom() =~= map_of(entries).insert(ip, value).dom());
    assert(map_of(after) =~= map_of(entries).insert(ip, value));
}

/// The addresses other than one, in their order.
pub open spec fn without(keys: Seq<Ipv4Addr>, ip: Ipv4Addr) -> Seq<Ipv4Addr> {
    keys.filter(|k: Ipv4Addr| k != ip)
}

/// Nothing is dropped where the address does not occur.
proof fn lemma_filter_all(keys: Seq<Ipv4Addr>, ip: Ipv4Addr)
    requires
        !keys.contains(ip),
    ensures
        without(keys, ip) == keys,
    decreases keys.len(),
{
    reveal(Seq::filter);
    if keys.len() > 0 {
        assert(keys[keys.len() - 1] != ip);
        assert forall|j: int| 0 <= j < keys.drop_last().len() implies keys.drop_last()[j] != ip by {
            assert(keys[j] != ip);
        }
        lemma_filter_all(keys.drop_last(), ip);
    }
}

/// Dropping the one occurrence of an address leaves what stands before and behind it.
proof fn lemma_filter_one(keys: Seq<Ipv4Addr>, i: int)
    requires
        keys.no_duplicates(),
        0 <= i < keys.len(),
    ensures
        without(keys, keys[i]) == keys.remove(i),
    decreases keys.len(),
{
    let front = keys.drop_last();
    reveal(Seq::filter);
    if i == keys.len() - 1 {
        assert forall|j: int| 0 <= j < front.len() implies front[j] != keys[i] by {
            assert(keys[j] != keys[i]);
        }
        lemma_filter_all(front, keys[i]);
        assert(keys.remove(i) =~= front);
    } else {
        assert forall|a: int, b: int|
            0 <= a < front.len() && 0 <= b < front.len() && a != b implies front[a] != front[b] by {
            assert(keys[a] != keys[b]);
        }
        lemma_filter_one(front, i);
        assert(front[i] == keys[i]);
        assert(keys[keys.len() - 1] != keys[i]);
        assert(keys.remove(i) =~= front.remove(i).push(keys.last()));
    }
}

/// Taking an entry out takes its address out of the map.
proof fn lemma_map_of_remove<V>(entries: Seq<(Ipv4Addr, V)>, i: int)
    requires
        keys_of(entries).no_duplicates(),
        0 <= i < entries.len(),
    ensures
        map_of(entries.remove(i)) == map_of(entries).remove(entries[i].0),
        keys_of(entries.remove(i)) == without(keys_of(entries), entries[i].0),
        keys_of(entries.remove(i)).no_duplicates(),
{
    let after = entries.remove(i);
    let ip = entries[i].0;
    let keys = keys_of(entries);
    assert(keys_of(after) =~= keys.remove(i));
    lemma_filter_one(keys, i);
    assert forall|a: int, b: int|
        0 <= a < keys_of(after).len() && 0 <= b < keys_of(after).len() && a != b implies keys_of(
        after,
    )[a] != keys_of(after)[b] by {
        let a1 = if a < i { a } else { a + 1 };
        let b1 = if b < i { b } else { b + 1 };
        assert(keys[a1] != keys[b1]);
    }
    lemma_map_of(entries);
    lemma_map_of(after);
    assert forall|k: Ipv4Addr|
        (#[trigger] map_of(after).contains_key(k) <==> map_of(entries).remove(ip).contains_key(k))
            && (map_of(after).contains_key(k) ==> map_of(after)[k] == map_of(entries)[k]) by {
        if map_of(after).contains_key(k) {
            let j = choose|j: int| 0 <= j < after.len() && keys_of(after)[j] == k;
            let j1 = if j < i { j } else { j + 1 };
            assert(after[j].0 == k && entries[j1].0 == k);
            assert(keys[j1] == k && keys[i] == ip);
        }
        if map_of(entries).contains_key(k) && k != ip {
            let j1 = choose|j1: int| 0 <= j1 < entries.len() && keys[j1] == k;
            let j = if j1 < i { j1 } else { j1 - 1 };
            assert(entries[j1].0 == k && keys[i] == ip);
            assert(keys_of(after)[j] == k);
        }
    }
    assert(map_of(after) =~= map_of(entries).remove(ip));
}

impl<V> View for AddressMap<V> {
    type V = Map<Ipv4Addr, V>;

    closed spec fn view(&self) -> Map<Ipv4Addr, V> {
        map_of(self.entries@)
    }
}

impl<V> AddressMap<V> {
    /// The addresses of the map, in its order.
    pub closed spec fn keys(&self) -> Seq<Ipv4Addr> {
        keys_of(self.entries@)
    }

    /// No address stands in the map twice.
    pub closed spec fn wf(&self) -> bool {
        keys_of(self.entries@).no_duplicates()
    }

    /// The addresses in the order of the map are those that it maps, each once.
    pub proof fn lemma_keys(&self)
        requires
            self.wf(),
        ensures
            self.keys().no_duplicates(),
            forall|ip: Ipv4Addr| #[trigger] self@.contains_key(ip) <==> self.keys().contains(ip),
    {
        lemma_map_of(self.entries@);
    }

    /// An empty map.
    pub fn new() -> (r: AddressMap<V>)
        ensures
            r.wf(),
            r@ == Map::<Ipv4Addr, V>::empty(),
            r.keys() == Seq::<Ipv4Addr>::empty(),
    {
        AddressMap { entries: Vec::new() }
    }

    /// Where an address stands in the order of the map.
    fn position(&self, ip: Ipv4Addr) -> (r: Option<usize>)
        ensures
            match r {
                Some(i) => i < self.entries@.len() && self.entries@[i as int].0 == ip,
                None => !self.keys().contains(ip),
            },
    {
        let mut i: usize = 0;
        while i < self.entries.len()
            invariant
                i <= self.entries@.len(),
                forall|j: int| 0 <= j < i ==> (#[trigger] self.entries@[j]).0 != ip,
            decreases self.entries@.len() - i,
        {
            if self.entries[i].0 == ip {
                return Some(i);
            }
            i += 1;
        }
        proof {
            if self.keys().contains(ip) {
                let j = choose|j: int| 0 <= j < self.keys().len() && self.keys()[j] == ip;
                assert(self.entries@[j].0 == ip);
            }
        }
        None
    }

    /// How many addresses the map holds.
    pub fn len(&self) -> (r: usize)
        ensures
            r == self.keys().len(),
    {
        self.entries.len()
    }

    /// The address at a place of the order.
    pub fn key_at(&self, i: usize) -> (r: Ipv4Addr)
        requires
            i < self.keys().len(),
        ensures
            r == self.keys()[i as int],
    {
        self.entries[i].0
    }

    /// Whether the map holds an address.
    pub fn contains_key(&self, ip: Ipv4Addr) -> (r: bool)
        requires
            self.wf(),
        ensures
            r == self@.contains_key(ip),
    {
        proof {
            lemma_map_of(self.entries@);
        }
        match self.position(ip) {
            Some(i) => {
                assert(self.keys()[i as int] == ip);
                true
            },
            None => false,
        }
    }

    /// What the map holds for an address.
    pub fn get(&self, ip: Ipv4Addr) -> (r: Option<&V>)
        requires
            self.wf(),
        ensures
            match r {
                Some(v) => self@.contains_key(ip) && self@[ip] == *v,
                None => !self@.contains_key(ip),
            },
    {
        proof {
            lemma_map_of(self.entries@);
        }
        match self.position(ip) {
            Some(i) => Some(&self.entries[i].1),
            None => None,
        }
    }

    /// What the map holds for an address, to be changed in place.
    pub fn get_mut(&mut self, ip: Ipv4Addr) -> (r: Option<&mut V>)
        requires
            old(self).wf(),
        ensures
            final(self).wf(),
            final(self).keys() == old(self).keys(),
            match r {
                Some(v) => old(self)@.contains_key(ip) && *v == old(self)@[ip] && final(self)@
                    == old(self)@.insert(ip, *final(v)),
                None => !old(self)@.contains_key(ip) && *final(self) == *old(self),
            },
    {
        let ghost before = self.entries@;
        proof {
            lemma_map_of(before);
        }
        match self.position(ip) {
            Some(i) => {
                proof {
                    assert forall|e: (Ipv4Addr, V)| e.0 == ip implies {
                        let after = #[trigger] before.update(i as int, e);
                        &&& map_of(after) == map_of(before).insert(ip, e.1)
                        &&& keys_of(after) == keys_of(before)
                    } by {
                        lemma_map_of_update(before, i as int, e.1);
                    }
                }
                Some(&mut self.entries[i].1)
            },
            None => None,
        }
    }

    /// Sets what the map holds for an address. A new address comes last in the order.
    pub fn insert(&mut self, ip: Ipv4Addr, value: V)
        requires
            old(self).wf(),
        ensures
            final(self).wf(),
            final(self)@ == old(self)@.insert(ip, value),
            final(self).keys() == if old(self)@.contains_key(ip) {
                old(self).keys()
            } else {
                old(self).keys().push(ip)
            },
    {
        let ghost before = self.entries@;
        proof {
            lemma_map_of(before);
        }
        match self.position(ip) {
            Some(i) => {
                proof {
                    lemma_map_of_update(before, i as int, value);
                }
                self.entries[i] = (ip, value);
            },
            None => {
                self.entries.push((ip, value));
                proof {
                    let after = self.entries@;
                    assert(after.drop_last() == before);
                    assert(keys_of(after) == keys_of(before).push(ip));
                }
            },
        }
    }

    /// Takes an address out of the map; the order of the others stays.
    pub fn remove(&mut self, ip: Ipv4Addr) -> (r: Option<V>)
        requires
            old(self).wf(),
        ensures
            final(self).wf(),
            final(self)@ == old(self)@.remove(ip),
            final(self).keys() == without(old(self).keys(), ip),
            match r {
                Some(v) => old(self)@.contains_key(ip) && v == old(self)@[ip],
                None => !old(self)@.contains_key(ip),
            },
    {
        let ghost before = self.entries@;
        proof {
            lemma_map_of(before);
        }
        match self.position(ip) {
            Some(i) => {
                let (_, v) = self.entries.remove(i);
                proof {
                    lemma_map_of_remove(before, i as int);
                }
                Some(v)
            },
            None => {
                proof {
                    lemma_filter_all(keys_of(before), ip);
                    assert(map_of(before).remove(ip) == map_of(before));
                }
                None
            },
        }
    }
}

/// Taking an address out of a list takes it out wherever it stands, and keeps all others in their
/// order.
pub proof fn law_without_keeps_the_others(keys: Seq<Ipv4Addr>, ip: Ipv4Addr, k: Ipv4Addr)
    ensures
        without(keys, ip).contains(k) <==> keys.contains(k) && k != ip,
        without(keys.push(k), ip) == if k == ip {
            without(keys, ip)
        } else {
            without(keys, ip).push(k)
        },
        without(seq![], ip).len() == 0,
{
    broadcast use vstd::seq_lib::group_filter_ensures;

    reveal(Seq::filter);
    let left = without(keys, ip);
    assert(keys.push(k).drop_last() =~= keys);
    if left.contains(k) {
        lemma_left_was_there(keys, ip, k);
    }
}

/// What is left was there before.
proof fn lemma_left_was_there(keys: Seq<Ipv4Addr>, ip: Ipv4Addr, k: Ipv4Addr)
    requires
        without(keys, ip).contains(k),
    ensures
        keys.contains(k),
        k != ip,
    decreases keys.len(),
{
    reveal(Seq::filter);
    let left = without(keys, ip);
    if keys.len() > 0 {
        let front = keys.drop_last();
        let i = choose|i: int| 0 <= i < left.len() && left[i] == k;
        let rest = without(front, ip);
        if i < rest.len() {
            assert(rest[i] == k);
            lemma_left_was_there(front, ip, k);
            let j = choose|j: int| 0 <= j < front.len() && front[j] == k;
            assert(keys[j] == k);
        } else {
            assert(keys[keys.len() - 1] == k);
        }
    }
}

} // verus!
