//! The volatile backend: an in-process mapping from key to value with no
//! durability.  It implements the storage contract directly and is the
//! baseline the durable backend is held to.
//!
//! The cache is a vector of key/value pairs with pairwise distinct keys;
//! its abstract value is the finite map those pairs denote.
use vstd::prelude::*;

verus! {

/// The views of a pair sequence's entries.
pub open spec fn entry_views(s: Seq<(String, String)>) -> Seq<(Seq<char>, Seq<char>)> {
    s.map_values(|p: (String, String)| (p.0@, p.1@))
}

/// The map a sequence of key/value pairs denotes; a later pair with the
/// same key wins.
pub open spec fn map_of(s: Seq<(Seq<char>, Seq<char>)>) -> Map<Seq<char>, Seq<char>>
    decreases s.len(),
{
    if s.len() == 0 {
        Map::empty()
    } else {
        map_of(s.drop_last()).insert(s.last().0, s.last().1)
    }
}

pub open spec fn distinct_keys(s: Seq<(Seq<char>, Seq<char>)>) -> bool {
    forall|i: int, j: int| 0 <= i < j < s.len() ==> s[i].0 != s[j].0
}

pub proof fn lemma_map_of_contains(s: Seq<(Seq<char>, Seq<char>)>, k: Seq<char>)
    ensures
        map_of(s).dom().contains(k) <==> exists|i: int| 0 <= i < s.len() && s[i].0 == k,
    decreases s.len(),
{
    if s.len() > 0 {
        lemma_map_of_contains(s.drop_last(), k);
        if s.last().0 == k {
            assert(s[s.len() - 1].0 == k);
        } else if map_of(s).dom().contains(k) {
            let i = choose|i: int| 0 <= i < s.drop_last().len() && s.drop_last()[i].0 == k;
            assert(s[i].0 == k);
        } else {
            assert forall|i: int| 0 <= i < s.len() implies s[i].0 != k by {
                if i < s.len() - 1 {
                    assert(s.drop_last()[i] == s[i]);
                }
            }
        }
    }
}

pub proof fn lemma_map_of_index(s: Seq<(Seq<char>, Seq<char>)>, i: int)
    requires
        distinct_keys(s),
        0 <= i < s.len(),
    ensures
        map_of(s).dom().contains(s[i].0),
        map_of(s)[s[i].0] == s[i].1,
    decreases s.len(),
{
    if i == s.len() - 1 {
    } else {
        assert(s.drop_last()[i] == s[i]);
        lemma_map_of_index(s.drop_last(), i);
        assert(s.last().0 != s[i].0);
    }
}

pub proof fn lemma_map_of_update(s: Seq<(Seq<char>, Seq<char>)>, i: int, v: Seq<char>)
    requires
        distinct_keys(s),
        0 <= i < s.len(),
    ensures
        map_of(s.update(i, (s[i].0, v))) == map_of(s).insert(s[i].0, v),
    decreases s.len(),
{
    let t = s.update(i, (s[i].0, v));
    if i == s.len() - 1 {
        assert(t.drop_last() =~= s.drop_last());
        assert(map_of(t) =~= map_of(s).insert(s[i].0, v));
    } else {
        assert(t.drop_last() =~= s.drop_last().update(i, (s[i].0, v)));
        assert(s.drop_last()[i] == s[i]);
        lemma_map_of_update(s.drop_last(), i, v);
        assert(s.last().0 != s[i].0);
        assert(map_of(t) =~= map_of(s).insert(s[i].0, v));
    }
}

pub proof fn lemma_map_of_remove(s: Seq<(Seq<char>, Seq<char>)>, i: int)
    requires
        distinct_keys(s),
        0 <= i < s.len(),
    ensures
        map_of(s.remove(i)) == map_of(s).remove(s[i].0),
    decreases s.len(),
{
    let t = s.remove(i);
    if i == s.len() - 1 {
        assert(t =~= s.drop_last());
        lemma_map_of_contains(s.drop_last(), s[i].0);
        assert forall|j: int| 0 <= j < s.drop_last().len() implies s.drop_last()[j].0 != s[i].0 by {
            assert(s.drop_last()[j] == s[j]);
        }
        assert(!map_of(s.drop_last()).dom().contains(s[i].0));
        assert(map_of(t) =~= map_of(s).remove(s[i].0));
    } else {
        assert(t.last() == s.last());
        assert(t.drop_last() =~= s.drop_last().remove(i));
        assert(s.drop_last()[i] == s[i]);
        lemma_map_of_remove(s.drop_last(), i);
        assert(s.last().0 != s[i].0);
        assert(map_of(t) =~= map_of(s).remove(s[i].0));
    }
}

/// The volatile cache.
pub struct MemCache {
    entries: Vec<(String, String)>,
}

impl View for MemCache {
    type V = Map<Seq<char>, Seq<char>>;

    closed spec fn view(&self) -> Map<Seq<char>, Seq<char>> {
        map_of(entry_views(self.entries@))
    }
}

impl MemCache {
    /// The cache's one internal invariant: no key appears twice.
    pub closed spec fn wf(&self) -> bool {
        distinct_keys(entry_views(self.entries@))
    }

    pub fn new() -> (r: MemCache)
        ensures
            r.wf(),
            r@ == Map::<Seq<char>, Seq<char>>::empty(),
    {
        MemCache { entries: Vec::new() }
    }

    /// The position of `key` among the entries, if it is there.
    fn find(&self, key: &String) -> (r: Option<usize>)
        ensures
            match r {
                Some(i) => i < self.entries@.len() && self.entries@[i as int].0@ == key@,
                None => forall|j: int|
                    0 <= j < self.entries@.len() ==> self.entries@[j].0@ != key@,
            },
    {
        let mut i: usize = 0;
        while i < self.entries.len()
            invariant
                0 <= i <= self.entries@.len(),
                forall|j: int| 0 <= j < i ==> self.entries@[j].0@ != key@,
            decreases self.entries@.len() - i,
        {
            if self.entries[i].0 == *key {
                return Some(i);
            }
            i = i + 1;
        }
        None
    }

    /// The current value under `key`, or absence; absence is not an error.
    pub fn get(&self, key: &String) -> (r: Option<String>)
        requires
            self.wf(),
        ensures
            match r {
                Some(v) => self@.dom().contains(key@) && self@[key@] == v@,
                None => !self@.dom().contains(key@),
            },
    {
        match self.find(key) {
            Some(i) => {
                proof {
                    lemma_map_of_index(entry_views(self.entries@), i as int);
                }
                Some(self.entries[i].1.clone())
            },
            None => {
                proof {
                    lemma_map_of_contains(entry_views(self.entries@), key@);
                }
                None
            },
        }
    }

    /// Insert the entry if absent, or replace its value if present.
    pub fn add(&mut self, key: String, value: String)
        requires
            old(self).wf(),
        ensures
            final(self).wf(),
            final(self)@ == old(self)@.insert(key@, value@),
    {
        match self.find(&key) {
            Some(i) => {
                let ghost s = entry_views(self.entries@);
                self.entries.set(i, (key, value));
                proof {
                    assert(entry_views(self.entries@) =~= s.update(i as int, (s[i as int].0, value@)));
                    lemma_map_of_update(s, i as int, value@);
                    assert(distinct_keys(entry_views(self.entries@)));
                }
            },
            None => {
                let ghost s = entry_views(self.entries@);
                self.entries.push((key, value));
                proof {
                    let t = entry_views(self.entries@);
                    assert(t.drop_last() =~= s);
                    assert(t.last() == (key@, value@));
                    assert forall|a: int, b: int| 0 <= a < b < t.len() implies t[a].0 != t[b].0 by {
                        if b < t.len() - 1 {
                            assert(t[a] == s[a] && t[b] == s[b]);
                        } else {
                            assert(t[a] == s[a] && s[a].0 != key@);
                        }
                    }
                    assert(final(self)@ == old(self)@.insert(key@, value@));
                }
            },
        }
    }

    /// Remove the entry if present; the result says whether one existed.
    /// Deleting an absent key is not an error.
    pub fn delete(&mut self, key: &String) -> (r: bool)
        requires
            old(self).wf(),
        ensures
            final(self).wf(),
            r == old(self)@.dom().contains(key@),
            final(self)@ == old(self)@.remove(key@),
    {
        proof {
            lemma_map_of_contains(entry_views(self.entries@), key@);
        }
        match self.find(key) {
            Some(i) => {
                let ghost s = entry_views(self.entries@);
                self.entries.remove(i);
                proof {
                    assert(entry_views(self.entries@) =~= s.remove(i as int));
                    lemma_map_of_remove(s, i as int);
                    assert forall|a: int, b: int|
                        0 <= a < b < s.remove(i as int).len() implies s.remove(i as int)[a].0
                        != s.remove(i as int)[b].0 by {}
                }
                true
            },
            None => {
                proof {
                    assert(final(self)@ =~= old(self)@.remove(key@));
                }
                false
            },
        }
    }

    /// Replace the value only if the entry already exists; never creates
    /// one.  The result says whether it existed.
    pub fn modify(&mut self, key: String, value: String) -> (r: bool)
        requires
            old(self).wf(),
        ensures
            final(self).wf(),
            r == old(self)@.dom().contains(key@),
            r ==> final(self)@ == old(self)@.insert(key@, value@),
            !r ==> final(self)@ == old(self)@,
    {
        proof {
            lemma_map_of_contains(entry_views(self.entries@), key@);
        }
        match self.find(&key) {
            Some(i) => {
                let ghost s = entry_views(self.entries@);
                self.entries.set(i, (key, value));
                proof {
                    assert(entry_views(self.entries@) =~= s.update(i as int, (s[i as int].0, value@)));
                    lemma_map_of_update(s, i as int, value@);
                    assert(distinct_keys(entry_views(self.entries@)));
                }
                true
            },
            None => false,
        }
    }

    /// A snapshot of all live entries; the order is unspecified.
    pub fn list(&self) -> (r: Vec<(String, String)>)
        requires
            self.wf(),
        ensures
            distinct_keys(entry_views(r@)),
            map_of(entry_views(r@)) == self@,
    {
        let mut r: Vec<(String, String)> = Vec::new();
        let mut i: usize = 0;
        while i < self.entries.len()
            invariant
                0 <= i <= self.entries@.len(),
                r@ =~= self.entries@.subrange(0, i as int),
            decreases self.entries@.len() - i,
        {
            let p = &self.entries[i];
            r.push((p.0.clone(), p.1.clone()));
            i = i + 1;
        }
        proof {
            assert(r@ =~= self.entries@);
        }
        r
    }
}

} // verus!
