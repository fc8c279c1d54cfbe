//! The template variable map: string names to string values.
//!
//! Contracts see a `VarMap` as a mathematical map from the characters of a
//! key to the characters of its value.  Insertion overwrites; building a map
//! from a list of pairs lets later pairs win, which is how the process
//! environment overrides the env-file.

use vstd::prelude::*;

verus! {

/// The synthetic key the renderer reserves for the current context's name.
pub open spec fn server_name_key() -> Seq<char> {
    "server_name"@
}

/// The map described by a list of key/value pairs, later pairs winning.
pub open spec fn map_of(entries: Seq<(String, String)>) -> Map<Seq<char>, Seq<char>>
    decreases entries.len(),
{
    if entries.len() == 0 {
        Map::empty()
    } else {
        map_of(entries.drop_last()).insert(entries.last().0@, entries.last().1@)
    }
}

/// String-to-string mapping fed to the renderer.
pub struct VarMap {
    entries: Vec<(String, String)>,
}

impl VarMap {
    /// Well-formed: no two entries share a key.
    pub closed spec fn wf(&self) -> bool {
        forall|i: int, j: int|
            0 <= i < j < self.entries@.len() ==> self.entries@[i].0@ != self.entries@[j].0@
    }

    pub closed spec fn view(&self) -> Map<Seq<char>, Seq<char>> {
        map_of(self.entries@)
    }

    pub fn new() -> (r: VarMap)
        ensures
            r@ == Map::<Seq<char>, Seq<char>>::empty(),
            r.wf(),
    {
        VarMap { entries: Vec::new() }
    }

    /// The pairs held, for hand-off to the template engine; the map view is
    /// exactly the map of these pairs.
    pub(crate) fn entries(&self) -> (r: &Vec<(String, String)>)
        ensures
            map_of(r@) == self@,
    {
        &self.entries
    }

    /// The position of the entry holding a key, if any entry does.
    fn find(&self, key: &String) -> (r: Option<usize>)
        ensures
            match r {
                Some(i) => i < self.entries@.len() && self.entries@[i as int].0@ == key@,
                None => forall|j: int|
                    0 <= j < self.entries@.len() ==> self.entries@[j].0@ != key@,
            },
    {
        let n = self.entries.len();
        for i in 0..n
            invariant
                n == self.entries@.len(),
                forall|j: int| 0 <= j < i ==> self.entries@[j].0@ != key@,
        {
            if self.entries[i].0 == *key {
                return Some(i);
            }
        }
        None
    }

    /// Look a key up.
    pub fn get(&self, key: &String) -> (r: Option<&String>)
        requires
            self.wf(),
        ensures
            match r {
                Some(v) => self@.contains_key(key@) && self@[key@] == v@,
                None => !self@.contains_key(key@),
            },
    {
        match self.find(key) {
            Some(i) => {
                proof {
                    lemma_map_of_found(self.entries@, i as int);
                }
                Some(&self.entries[i].1)
            },
            None => {
                proof {
                    lemma_map_of_absent(self.entries@, key@);
                }
                None
            },
        }
    }

    /// Insert a pair, overwriting any entry with the same key.
    pub fn insert(&mut self, key: String, value: String)
        requires
            old(self).wf(),
        ensures
            final(self)@ == old(self)@.insert(key@, value@),
            final(self).wf(),
    {
        match self.find(&key) {
            Some(i) => {
                proof {
                    lemma_map_of_update(self.entries@, i as int, (key, value));
                    let upd = self.entries@.update(i as int, (key, value));
                    assert forall|p: int, q: int|
                        0 <= p < q < upd.len() implies upd[p].0@ != upd[q].0@ by {
                        assert(self.entries@[p].0@ != self.entries@[q].0@);
                    }
                }
                self.entries[i] = (key, value);
            },
            None => {
                proof {
                    let pushed = self.entries@.push((key, value));
                    assert(pushed.drop_last() =~= self.entries@);
                    assert forall|p: int, q: int|
                        0 <= p < q < pushed.len() implies pushed[p].0@ != pushed[q].0@ by {
                        if q < pushed.len() - 1 {
                            assert(self.entries@[p].0@ != self.entries@[q].0@);
                        }
                    }
                }
                self.entries.push((key, value));
            },
        }
    }

    /// Insert every pair of a list in order; a later pair overrides an
    /// earlier one and every pair overrides what was there before.
    pub fn insert_all(&mut self, pairs: Vec<(String, String)>)
        requires
            old(self).wf(),
        ensures
            final(self)@ == old(self)@.union_prefer_right(map_of(pairs@)),
            final(self).wf(),
    {
        let n = pairs.len();
        let mut i: usize = 0;
        while i < n
            invariant
                n == pairs@.len(),
                0 <= i <= n,
                self.wf(),
                self@ == old(self)@.union_prefer_right(map_of(pairs@.take(i as int))),
            decreases n - i,
        {
            proof {
                assert(pairs@.take(i + 1).drop_last() =~= pairs@.take(i as int));
                assert(pairs@.take(i + 1).last() == pairs@[i as int]);
                assert(old(self)@.union_prefer_right(
                    map_of(pairs@.take(i as int)).insert(pairs@[i as int].0@, pairs@[i as int].1@),
                ) =~= old(self)@.union_prefer_right(map_of(pairs@.take(i as int))).insert(
                    pairs@[i as int].0@,
                    pairs@[i as int].1@,
                ));
            }
            let (k, v) = (pairs[i].0.clone(), pairs[i].1.clone());
            self.insert(k, v);
            i = i + 1;
        }
        proof {
            assert(pairs@.take(n as int) =~= pairs@);
        }
    }

    /// A copy of this map.
    pub fn duplicate(&self) -> (r: VarMap)
        requires
            self.wf(),
        ensures
            r@ == self@,
            r.wf(),
    {
        let mut out: Vec<(String, String)> = Vec::new();
        let n = self.entries.len();
        for i in 0..n
            invariant
                n == self.entries@.len(),
                out@ =~= self.entries@.take(i as int),
        {
            out.push((self.entries[i].0.clone(), self.entries[i].1.clone()));
        }
        proof {
            assert(out@ =~= self.entries@);
        }
        VarMap { entries: out }
    }

    /// The variable map used to render one file of one context: a copy of
    /// this map with `server_name` bound to the context's name, overriding
    /// any entry of that key for the duration of the render.
    pub fn vars_for_context(&self, context_name: &String) -> (r: VarMap)
        requires
            self.wf(),
        ensures
            r@ == self@.insert(server_name_key(), context_name@),
            r.wf(),
    {
        let mut out = self.duplicate();
        let key = String::from_str("server_name");
        proof {
            reveal_strlit("server_name");
        }
        out.insert(key, context_name.clone());
        out
    }
}

/// Looking up the key of the `i`-th entry of a duplicate-free list yields
/// that entry's value.
proof fn lemma_map_of_found(entries: Seq<(String, String)>, i: int)
    requires
        0 <= i < entries.len(),
        forall|p: int, q: int| 0 <= p < q < entries.len() ==> entries[p].0@ != entries[q].0@,
    ensures
        map_of(entries).contains_key(entries[i].0@),
        map_of(entries)[entries[i].0@] == entries[i].1@,
    decreases entries.len(),
{
    if i == entries.len() - 1 {
    } else {
        lemma_map_of_found(entries.drop_last(), i);
        assert(entries.drop_last()[i] == entries[i]);
        assert(entries.last().0@ != entries[i].0@);
    }
}

/// A key under no entry of the list is not in its map.
proof fn lemma_map_of_absent(entries: Seq<(String, String)>, key: Seq<char>)
    requires
        forall|j: int| 0 <= j < entries.len() ==> entries[j].0@ != key,
    ensures
        !map_of(entries).contains_key(key),
    decreases entries.len(),
{
    if entries.len() > 0 {
        lemma_map_of_absent(entries.drop_last(), key);
    }
}

/// Replacing the entry that holds a key rewrites exactly that key's value.
proof fn lemma_map_of_update(entries: Seq<(String, String)>, i: int, pair: (String, String))
    requires
        0 <= i < entries.len(),
        forall|p: int, q: int| 0 <= p < q < entries.len() ==> entries[p].0@ != entries[q].0@,
        entries[i].0@ == pair.0@,
    ensures
        map_of(entries.update(i, pair)) == map_of(entries).insert(pair.0@, pair.1@),
    decreases entries.len(),
{
    let updated = entries.update(i, pair);
    if i == entries.len() - 1 {
        assert(updated.drop_last() =~= entries.drop_last());
        assert(updated.last() == pair);
        assert(map_of(entries.drop_last()).insert(entries.last().0@, entries.last().1@).insert(
            pair.0@,
            pair.1@,
        ) =~= map_of(entries.drop_last()).insert(pair.0@, pair.1@));
    } else {
        lemma_map_of_update(entries.drop_last(), i, pair);
        assert(updated.drop_last() =~= entries.drop_last().update(i, pair));
        assert(updated.last() == entries.last());
        assert(entries.last().0@ != pair.0@);
        assert(map_of(entries.drop_last()).insert(pair.0@, pair.1@).insert(
            entries.last().0@,
            entries.last().1@,
        ) =~= map_of(entries.drop_last()).insert(entries.last().0@, entries.last().1@).insert(
            pair.0@,
            pair.1@,
        ));
    }
}

/// For a key defined by the overriding map, the union takes the overriding
/// value: a variable set in the process environment wins over the same name
/// in the env-file.
pub proof fn lemma_override_wins(
    base: Map<Seq<char>, Seq<char>>,
    over: Map<Seq<char>, Seq<char>>,
    key: Seq<char>,
)
    requires
        over.contains_key(key),
    ensures
        base.union_prefer_right(over).contains_key(key),
        base.union_prefer_right(over)[key] == over[key],
{
}

/// Whatever the surrounding variables say, the map a context renders with
/// binds `server_name` to that context's name.
pub proof fn lemma_server_name_bound(vars: Map<Seq<char>, Seq<char>>, context_name: Seq<char>)
    ensures
        vars.insert(server_name_key(), context_name).contains_key(server_name_key()),
        vars.insert(server_name_key(), context_name)[server_name_key()] == context_name,
{
}

} // verus!
