//! A map keyed by account identity, held as a list of distinct keys.
use vstd::prelude::*;
use crate::types::AccountId;

verus! {

pub struct MapEntry<V> {
    pub key: AccountId,
    pub value: V,
}

/// A finite map from accounts to values.
pub struct AccountMap<V> {
    entries: Vec<MapEntry<V>>,
}

/// Index of the entry holding `k`.
pub open spec fn index_of<V>(s: Seq<MapEntry<V>>, k: AccountId) -> int {
    choose|i: int| 0 <= i < s.len() && s[i].key == k
}

/// The keys of the entries are distinct.
pub open spec fn distinct_keys<V>(s: Seq<MapEntry<V>>) -> bool {
    forall|i: int, j: int| 0 <= i < s.len() && 0 <= j < s.len() && i != j ==> s[i].key != s[j].key
}

/// The map that a list of entries with distinct keys stands for.
pub open spec fn map_of<V>(s: Seq<MapEntry<V>>) -> Map<AccountId, V> {
    Map::new(
        |k: AccountId| exists|i: int| 0 <= i < s.len() && s[i].key == k,
        |k: AccountId| s[index_of(s, k)].value,
    )
}

/// Entry `i` is in the map it belongs to.
pub proof fn lemma_lookup<V>(s: Seq<MapEntry<V>>, i: int)
    requires
        distinct_keys(s),
        0 <= i < s.len(),
    ensures
        map_of(s).contains_key(s[i].key),
        map_of(s)[s[i].key] == s[i].value,
{
    assert(map_of(s).dom().contains(s[i].key));
    let j = index_of(s, s[i].key);
    assert(0 <= j < s.len() && s[j].key == s[i].key);
}

/// Each key of the map comes from an entry that holds its value.
pub proof fn lemma_key_entry<V>(s: Seq<MapEntry<V>>, k: AccountId)
    requires
        distinct_keys(s),
        map_of(s).contains_key(k),
    ensures
        exists|i: int| 0 <= i < s.len() && s[i].key == k && #[trigger] s[i].value == map_of(s)[k],
{
    let i = choose|i: int| 0 <= i < s.len() && s[i].key == k;
    lemma_lookup(s, i);
}

impl<V> AccountMap<V> {
    /// The entries have distinct keys.
    pub closed spec fn wf(&self) -> bool {
        distinct_keys(self.entries@)
    }

    pub closed spec fn view(&self) -> Map<AccountId, V> {
        map_of(self.entries@)
    }

    pub fn new() -> (m: Self)
        ensures
            m.wf(),
            m.view() == Map::<AccountId, V>::empty(),
    {
        let m = AccountMap { entries: Vec::new() };
        assert(m.view() =~= Map::<AccountId, V>::empty());
        m
    }

    /// Position of `k` among the entries, if present.
    fn find(&self, k: &AccountId) -> (r: Option<usize>)
        requires
            self.wf(),
        ensures
            match r {
                Some(i) => i < self.entries@.len() && self.entries@[i as int].key == *k,
                None => !self.view().contains_key(*k),
            },
    {
        let mut i: usize = 0;
        while i < self.entries.len()
            invariant
                i <= self.entries@.len(),
                forall|j: int| 0 <= j < i ==> self.entries@[j].key != *k,
            decreases self.entries@.len() - i,
        {
            if self.entries[i].key == *k {
                return Some(i);
            }
            i = i + 1;
        }
        None
    }

    pub fn contains_key(&self, k: &AccountId) -> (r: bool)
        requires
            self.wf(),
        ensures
            r == self.view().contains_key(*k),
    {
        match self.find(k) {
            Some(i) => {
                proof {
                    lemma_lookup(self.entries@, i as int);
                }
                true
            },
            None => false,
        }
    }

    pub fn get(&self, k: &AccountId) -> (r: Option<&V>)
        requires
            self.wf(),
        ensures
            match r {
                Some(v) => self.view().contains_key(*k) && *v == self.view()[*k],
                None => !self.view().contains_key(*k),
            },
    {
        match self.find(k) {
            Some(i) => {
                proof {
                    lemma_lookup(self.entries@, i as int);
                }
                Some(&self.entries[i].value)
            },
            None => None,
        }
    }

    /// Sets the value of `k`, adding the key if it is new.
    pub fn insert(&mut self, k: AccountId, v: V)
        requires
            old(self).wf(),
        ensures
            final(self).wf(),
            final(self).view() == old(self).view().insert(k, v),
    {
        let ghost before = self.entries@;
        match self.find(&k) {
            Some(i) => {
                self.entries.set(i, MapEntry { key: k, value: v });
                proof {
                    let after = self.entries@;
                    assert forall|kk: AccountId| #[trigger] map_of(after).contains_key(kk) == (kk == k
                        || map_of(before).contains_key(kk)) by {
                        if map_of(before).contains_key(kk) {
                            let j = choose|j: int| 0 <= j < before.len() && before[j].key == kk;
                            assert(after[j].key == kk);
                        }
                        if map_of(after).contains_key(kk) {
                            let j = choose|j: int| 0 <= j < after.len() && after[j].key == kk;
                            assert(j == i || before[j].key == kk);
                        }
                    }
                    assert forall|kk: AccountId| #[trigger]
                        map_of(after).contains_key(kk) implies map_of(after)[kk] == map_of(
                        before,
                    ).insert(k, v)[kk] by {
                        let j = choose|j: int| 0 <= j < after.len() && after[j].key == kk;
                        lemma_lookup(after, j);
                        if j != i {
                            lemma_lookup(before, j);
                        }
                    }
                    assert(map_of(after) =~= map_of(before).insert(k, v));
                }
            },
            None => {
                self.entries.push(MapEntry { key: k, value: v });
                proof {
                    let after = self.entries@;
                    assert forall|kk: AccountId| #[trigger] map_of(after).contains_key(kk) == (kk == k
                        || map_of(before).contains_key(kk)) by {
                        if map_of(before).contains_key(kk) {
                            let j = choose|j: int| 0 <= j < before.len() && before[j].key == kk;
                            assert(after[j].key == kk);
                        }
                        if kk == k {
                            assert(after[before.len() as int].key == kk);
                        }
                        if map_of(after).contains_key(kk) {
                            let j = choose|j: int| 0 <= j < after.len() && after[j].key == kk;
                            assert(j == before.len() || before[j].key == kk);
                        }
                    }
                    assert forall|kk: AccountId| #[trigger]
                        map_of(after).contains_key(kk) implies map_of(after)[kk] == map_of(
                        before,
                    ).insert(k, v)[kk] by {
                        let j = choose|j: int| 0 <= j < after.len() && after[j].key == kk;
                        lemma_lookup(after, j);
                        if j != before.len() {
                            lemma_lookup(before, j);
                        }
                    }
                    assert(map_of(after) =~= map_of(before).insert(k, v));
                }
            },
        }
    }

    /// Removes `k`, handing back its value if it was present.
    pub fn remove(&mut self, k: &AccountId) -> (r: Option<V>)
        requires
            old(self).wf(),
        ensures
            final(self).wf(),
            final(self).view() == old(self).view().remove(*k),
            match r {
                Some(v) => old(self).view().contains_key(*k) && v == old(self).view()[*k],
                None => !old(self).view().contains_key(*k),
            },
    {
        let ghost before = self.entries@;
        match self.find(k) {
            Some(i) => {
                proof {
                    lemma_lookup(before, i as int);
                }
                let e = self.entries.remove(i);
                proof {
                    let after = self.entries@;
                    assert forall|a: int| 0 <= a < after.len() implies #[trigger] after[a] == before[
                        if a < i { a } else { a + 1 }
                    ] by {}
                    assert forall|kk: AccountId| #[trigger] map_of(after).contains_key(kk) == (kk != *k
                        && map_of(before).contains_key(kk)) by {
                        if map_of(before).contains_key(kk) && kk != *k {
                            let j = choose|j: int| 0 <= j < before.len() && before[j].key == kk;
                            assert(j != i);
                            let a = if j < i { j } else { j - 1 };
                            assert(after[a].key == kk);
                        }
                        if map_of(after).contains_key(kk) {
                            let a = choose|a: int| 0 <= a < after.len() && after[a].key == kk;
                            let j = if a < i { a } else { a + 1 };
                            assert(before[j].key == kk);
                        }
                    }
                    assert forall|kk: AccountId| #[trigger]
                        map_of(after).contains_key(kk) implies map_of(after)[kk] == map_of(
                        before,
                    )[kk] by {
                        let a = choose|a: int| 0 <= a < after.len() && after[a].key == kk;
                        let j = if a < i { a } else { a + 1 };
                        lemma_lookup(after, a);
                        lemma_lookup(before, j);
                    }
                    assert(map_of(after) =~= map_of(before).remove(*k));
                }
                Some(e.value)
            },
            None => {
                assert(map_of(before) =~= map_of(before).remove(*k));
                None
            },
        }
    }

    /// The map as a list of entries with distinct keys.
    pub fn into_entries(self) -> (r: Vec<MapEntry<V>>)
        requires
            self.wf(),
        ensures
            distinct_keys(r@),
            map_of(r@) == self.view(),
    {
        self.entries
    }

    /// The map a list of entries stands for; `None` when two entries share a
    /// key.
    pub fn from_entries(entries: Vec<MapEntry<V>>) -> (r: Option<Self>)
        ensures
            r is Some <==> distinct_keys(entries@),
            r matches Some(m) ==> m.wf() && m.view() == map_of(entries@),
    {
        let mut i: usize = 0;
        while i < entries.len()
            invariant
                i <= entries@.len(),
                forall|a: int, b: int| 0 <= a < i && 0 <= b < entries@.len() && a != b ==> entries@[a].key
                    != entries@[b].key,
            decreases entries@.len() - i,
        {
            let mut j: usize = 0;
            while j < entries.len()
                invariant
                    i < entries@.len(),
                    j <= entries@.len(),
                    forall|b: int| 0 <= b < j && b != i ==> entries@[i as int].key != entries@[b].key,
                decreases entries@.len() - j,
            {
                if j != i && entries[i].key == entries[j].key {
                    assert(!distinct_keys(entries@)) by {
                        assert(entries@[i as int].key == entries@[j as int].key);
                    }
                    return None;
                }
                j = j + 1;
            }
            i = i + 1;
        }
        Some(AccountMap { entries })
    }

    /// Whether the map has no keys.
    pub fn is_empty(&self) -> (r: bool)
        requires
            self.wf(),
        ensures
            r == (forall|k: AccountId| !self.view().contains_key(k)),
    {
        if self.entries.len() == 0 {
            assert(self.view() =~= Map::<AccountId, V>::empty());
            true
        } else {
            proof {
                lemma_lookup(self.entries@, 0);
                assert(self.view().contains_key(self.entries@[0].key));
            }
            false
        }
    }
}

impl AccountMap<()> {
    /// The keys of a set-like map.
    pub fn keys(&self) -> (r: Vec<AccountId>)
        requires
            self.wf(),
        ensures
            forall|k: AccountId| r@.contains(k) <==> self.view().contains_key(k),
    {
        let mut out: Vec<AccountId> = Vec::new();
        let mut i: usize = 0;
        while i < self.entries.len()
            invariant
                i <= self.entries@.len(),
                out@.len() == i,
                forall|j: int| 0 <= j < i ==> out@[j] == self.entries@[j].key,
            decreases self.entries@.len() - i,
        {
            out.push(self.entries[i].key);
            i = i + 1;
        }
        proof {
            assert forall|k: AccountId| out@.contains(k) <==> self.view().contains_key(k) by {
                if out@.contains(k) {
                    let j = choose|j: int| 0 <= j < out@.len() && out@[j] == k;
                    assert(self.entries@[j].key == k);
                }
                if self.view().contains_key(k) {
                    let j = choose|j: int| 0 <= j < self.entries@.len() && self.entries@[j].key == k;
                    assert(out@[j] == k);
                }
            }
        }
        out
    }

    /// The set-like map holding the given keys (repeats are ignored).
    pub fn from_keys(keys: &Vec<AccountId>) -> (r: Self)
        ensures
            r.wf(),
            forall|k: AccountId| r.view().contains_key(k) <==> keys@.contains(k),
    {
        let mut m: AccountMap<()> = AccountMap::new();
        let mut i: usize = 0;
        while i < keys.len()
            invariant
                m.wf(),
                i <= keys@.len(),
                forall|k: AccountId| m.view().contains_key(k) <==> exists|j: int| 0 <= j < i && #[trigger] keys@[j] == k,
            decreases keys@.len() - i,
        {
            m.insert(keys[i], ());
            proof {
                assert forall|k: AccountId| m.view().contains_key(k) <==> exists|j: int| 0 <= j < i + 1 && #[trigger] keys@[j] == k by {
                    if k == keys@[i as int] {
                        assert(keys@[i as int] == k);
                    }
                }
            }
            i = i + 1;
        }
        m
    }
}

} // verus!
