//! A map from strings to strings, used for job environments and for the
//! labels that workers advertise and jobs require.
use vstd::prelude::*;
use crate::text::str_eq;

verus! {

/// The map that a list of (key, value) entries stands for; a later entry
/// for a key overrides an earlier one.
pub open spec fn entries_map(e: Seq<(String, String)>) -> Map<Seq<char>, Seq<char>>
    decreases e.len(),
{
    if e.len() == 0 {
        Map::empty()
    } else {
        entries_map(e.drop_last()).insert(e.last().0@, e.last().1@)
    }
}

/// No key occurs twice among the entries.
pub open spec fn keys_distinct(e: Seq<(String, String)>) -> bool {
    forall|i: int, j: int| 0 <= i < j < e.len() ==> e[i].0@ != e[j].0@
}

/// With distinct keys, the map holds exactly the entries' keys, each with its
/// entry's value.
pub proof fn lemma_entries_map(e: Seq<(String, String)>)
    requires
        keys_distinct(e),
    ensures
        forall|k: Seq<char>|
            #[trigger] entries_map(e).contains_key(k) <==> exists|i: int|
                0 <= i < e.len() && e[i].0@ == k,
        forall|i: int| 0 <= i < e.len() ==> #[trigger] entries_map(e)[e[i].0@] == e[i].1@,
    decreases e.len(),
{
    if e.len() > 0 {
        let p = e.drop_last();
        assert(keys_distinct(p));
        lemma_entries_map(p);
        assert forall|k: Seq<char>| #[trigger] entries_map(e).contains_key(k) implies exists|i: int|
            0 <= i < e.len() && e[i].0@ == k by {
            if k != e.last().0@ {
                assert(entries_map(p).contains_key(k));
                let i = choose|i: int| 0 <= i < p.len() && p[i].0@ == k;
                assert(e[i] == p[i]);
            } else {
                assert(e[e.len() - 1].0@ == k);
            }
        }
        assert forall|k: Seq<char>| (exists|i: int| 0 <= i < e.len() && e[i].0@ == k) implies #[trigger] entries_map(
            e,
        ).contains_key(k) by {
            let i = choose|i: int| 0 <= i < e.len() && e[i].0@ == k;
            if i < e.len() - 1 {
                assert(p[i] == e[i]);
                assert(p[i].0@ == k);
                assert(entries_map(p).contains_key(k));
            }
        }
        assert forall|i: int| 0 <= i < e.len() implies #[trigger] entries_map(e)[e[i].0@] == e[i].1@ by {
            if i < e.len() - 1 {
                assert(p[i] == e[i]);
                assert(e[i].0@ != e[e.len() - 1].0@);
                assert(entries_map(p)[p[i].0@] == p[i].1@);
            }
        }
    }
}

/// Replacing the value of one entry, keeping its key, replaces that key's value
/// in the map.
pub proof fn lemma_entries_map_update(e: Seq<(String, String)>, i: int, x: (String, String))
    requires
        keys_distinct(e),
        0 <= i < e.len(),
        x.0@ == e[i].0@,
    ensures
        entries_map(e.update(i, x)) == entries_map(e).insert(x.0@, x.1@),
    decreases e.len(),
{
    let u = e.update(i, x);
    if i == e.len() - 1 {
        assert(u.drop_last() =~= e.drop_last());
        assert(entries_map(e).insert(x.0@, x.1@) =~= entries_map(e.drop_last()).insert(x.0@, x.1@));
    } else {
        lemma_entries_map_update(e.drop_last(), i, x);
        assert(u.drop_last() =~= e.drop_last().update(i, x));
        let m = entries_map(e.drop_last());
        assert(e[e.len() - 1].0@ != e[i].0@);
        assert(u.last() == e.last());
        assert(entries_map(u) == m.insert(x.0@, x.1@).insert(e.last().0@, e.last().1@));
        assert(m.insert(x.0@, x.1@).insert(e.last().0@, e.last().1@) =~= m.insert(
            e.last().0@,
            e.last().1@,
        ).insert(x.0@, x.1@));
    }
}

/// Two entry lists with distinct keys that agree entry by entry on the views
/// stand for the same map.
pub proof fn lemma_entries_map_views(a: Seq<(String, String)>, b: Seq<(String, String)>)
    requires
        a.len() == b.len(),
        forall|i: int| 0 <= i < a.len() ==> a[i].0@ == b[i].0@ && a[i].1@ == b[i].1@,
    ensures
        entries_map(a) == entries_map(b),
    decreases a.len(),
{
    if a.len() > 0 {
        lemma_entries_map_views(a.drop_last(), b.drop_last());
    }
}

/// A map from strings to strings. Each key occurs once.
#[derive(Debug)]
pub struct StringMap {
    entries: Vec<(String, String)>,
}

impl StringMap {
    #[verifier::type_invariant]
    closed spec fn keys_unique(self) -> bool {
        keys_distinct(self.entries@)
    }
}

impl View for StringMap {
    type V = Map<Seq<char>, Seq<char>>;

    closed spec fn view(&self) -> Map<Seq<char>, Seq<char>> {
        entries_map(self.entries@)
    }
}

impl StringMap {
    /// An empty map.
    pub fn new() -> (m: StringMap)
        ensures
            m@ == Map::<Seq<char>, Seq<char>>::empty(),
    {
        StringMap { entries: Vec::new() }
    }

    /// The position of `key` among the entries, if it is there.
    fn find(&self, key: &str) -> (r: Option<usize>)
        ensures
            match r {
                Some(i) => i < self.entries@.len() && self.entries@[i as int].0@ == key@,
                None => forall|i: int|
                    0 <= i < self.entries@.len() ==> self.entries@[i].0@ != key@,
            },
    {
        let mut i: usize = 0;
        while i < self.entries.len()
            invariant
                i <= self.entries@.len(),
                forall|j: int| 0 <= j < i ==> self.entries@[j].0@ != key@,
            decreases self.entries@.len() - i,
        {
            if str_eq(self.entries[i].0.as_str(), key) {
                return Some(i);
            }
            i = i + 1;
        }
        None
    }

    /// The value stored for `key`, if any.
    pub fn get(&self, key: &str) -> (r: Option<&String>)
        ensures
            match r {
                Some(v) => self@.contains_key(key@) && v@ == self@[key@],
                None => !self@.contains_key(key@),
            },
    {
        proof {
            use_type_invariant(self);
            lemma_entries_map(self.entries@);
        }
        match self.find(key) {
            Some(i) => Some(&self.entries[i].1),
            None => None,
        }
    }

    /// Stores `value` for `key` and returns the value it replaces, if any.
    pub fn insert(&mut self, key: String, value: String) -> (r: Option<String>)
        ensures
            final(self)@ == old(self)@.insert(key@, value@),
            match r {
                Some(v) => old(self)@.contains_key(key@) && v@ == old(self)@[key@],
                None => !old(self)@.contains_key(key@),
            },
    {
        proof {
            use_type_invariant(&*self);
            lemma_entries_map(self.entries@);
        }
        let ghost old_entries = self.entries@;
        match self.find(key.as_str()) {
            Some(i) => {
                let mut entries: Vec<(String, String)> = Vec::new();
                std::mem::swap(&mut entries, &mut self.entries);
                let (_old_key, previous) = entries.remove(i);
                entries.insert(i, (key, value));
                proof {
                    assert(entries@ =~= old_entries.update(i as int, (key, value)));
                    lemma_entries_map_update(old_entries, i as int, (key, value));
                }
                self.entries = entries;
                Some(previous)
            },
            None => {
                let mut entries: Vec<(String, String)> = Vec::new();
                std::mem::swap(&mut entries, &mut self.entries);
                entries.push((key, value));
                proof {
                    assert(entries@.drop_last() == old_entries);
                }
                self.entries = entries;
                None
            },
        }
    }

    /// The entries of the map, each key once.
    pub fn entries(&self) -> (r: &Vec<(String, String)>)
        ensures
            keys_distinct(r@),
            entries_map(r@) == self@,
    {
        proof {
            use_type_invariant(self);
        }
        &self.entries
    }
}

impl Clone for StringMap {
    fn clone(&self) -> (r: Self)
        ensures
            r@ == self@,
    {
        proof {
            use_type_invariant(self);
        }
        let mut entries: Vec<(String, String)> = Vec::new();
        let mut i: usize = 0;
        while i < self.entries.len()
            invariant
                i <= self.entries@.len(),
                entries@.len() == i,
                keys_distinct(self.entries@),
                forall|j: int|
                    0 <= j < i ==> entries@[j].0@ == self.entries@[j].0@ && entries@[j].1@
                        == self.entries@[j].1@,
            decreases self.entries@.len() - i,
        {
            let k = self.entries[i].0.clone();
            let v = self.entries[i].1.clone();
            entries.push((k, v));
            i = i + 1;
        }
        proof {
            lemma_entries_map_views(entries@, self.entries@);
        }
        StringMap { entries }
    }
}

} // verus!
