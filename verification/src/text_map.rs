//! A map from text to text: the settings of a channel.

use crate::text::same_text;
use vstd::prelude::*;

verus! {

/// A map from text to text. No key stands in it twice.
#[derive(Debug)]
pub struct TextMap {
    entries: Vec<(String, String)>,
}

/// Whether `key` is one of the keys of a list of pairs.
spec fn has_key(entries: Seq<(String, String)>, key: Seq<char>) -> bool {
    exists|i: int| 0 <= i < entries.len() && (#[trigger] entries[i]).0@ == key
}

/// Where `key` stands.
spec fn place(entries: Seq<(String, String)>, key: Seq<char>) -> int {
    choose|i: int| 0 <= i < entries.len() && (#[trigger] entries[i]).0@ == key
}

spec fn distinct(entries: Seq<(String, String)>) -> bool {
    forall|i: int, j: int|
        0 <= i < j < entries.len() ==> (#[trigger] entries[i]).0@ != (#[trigger] entries[j]).0@
}

spec fn as_map(entries: Seq<(String, String)>) -> Map<Seq<char>, Seq<char>> {
    Map::new(|key: Seq<char>| has_key(entries, key), |key: Seq<char>| entries[place(entries, key)].1@)
}

proof fn lemma_place(entries: Seq<(String, String)>, i: int)
    requires
        distinct(entries),
        0 <= i < entries.len(),
    ensures
        has_key(entries, entries[i].0@),
        place(entries, entries[i].0@) == i,
        as_map(entries)[entries[i].0@] == entries[i].1@,
{
}

/// The keys of a list of pairs.
spec fn keys(entries: Seq<(String, String)>) -> Seq<Seq<char>> {
    entries.map_values(|p: (String, String)| p.0@)
}

/// There are as many keys as there are pairs.
proof fn lemma_key_count(entries: Seq<(String, String)>)
    requires
        distinct(entries),
    ensures
        as_map(entries).dom().finite(),
        as_map(entries).dom().len() == entries.len(),
{
    let all = keys(entries);
    assert forall|i: int, j: int| 0 <= i < all.len() && 0 <= j < all.len() && i != j implies all[i]
        != all[j] by {
        if i < j {
            assert(entries[i].0@ != entries[j].0@);
        } else {
            assert(entries[j].0@ != entries[i].0@);
        }
    }
    all.unique_seq_to_set();
    assert forall|key: Seq<char>| as_map(entries).dom().contains(key) <==> all.to_set().contains(
        key,
    ) by {
        if has_key(entries, key) {
            let i = place(entries, key);
            assert(all[i] == key);
        }
        if all.contains(key) {
            let i = choose|i: int| 0 <= i < all.len() && all[i] == key;
            assert(entries[i].0@ == key);
        }
    }
    assert(as_map(entries).dom() =~= all.to_set());
}

impl View for TextMap {
    type V = Map<Seq<char>, Seq<char>>;

    closed spec fn view(&self) -> Map<Seq<char>, Seq<char>> {
        as_map(self.entries@)
    }
}

impl TextMap {
    #[verifier::type_invariant]
    spec fn inv(self) -> bool {
        distinct(self.entries@)
    }

    /// How many pairs there are.
    pub closed spec fn count(self) -> nat {
        self.entries@.len()
    }

    /// The key of pair `i`, in the order in which the keys came in.
    pub closed spec fn key_at(self, i: int) -> Seq<char> {
        self.entries@[i].0@
    }

    pub fn new() -> (m: Self)
        ensures
            m@ == Map::<Seq<char>, Seq<char>>::empty(),
            m.count() == 0,
    {
        let m = TextMap { entries: Vec::new() };
        assert(m@ =~= Map::<Seq<char>, Seq<char>>::empty());
        m
    }

    pub fn len(&self) -> (n: usize)
        ensures
            n == self.count(),
            self@.dom().finite(),
            n == self@.dom().len(),
            n == 0 <==> self@ == Map::<Seq<char>, Seq<char>>::empty(),
            forall|i: int| 0 <= i < n ==> self@.contains_key(#[trigger] self.key_at(i)),
            forall|key: Seq<char>|
                self@.contains_key(key) ==> exists|i: int|
                    0 <= i < n && #[trigger] self.key_at(i) == key,
    {
        proof {
            use_type_invariant(self);
            lemma_key_count(self.entries@);
            if self.entries@.len() > 0 {
                lemma_place(self.entries@, 0);
                assert(self@.contains_key(self.entries@[0].0@));
            } else {
                assert(self@ =~= Map::<Seq<char>, Seq<char>>::empty());
            }
            assert forall|i: int| 0 <= i < self.count() implies self@.contains_key(
                #[trigger] self.key_at(i),
            ) by {
                lemma_place(self.entries@, i);
            }
            assert forall|key: Seq<char>| self@.contains_key(key) implies exists|i: int|
                0 <= i < self.count() && #[trigger] self.key_at(i) == key by {
                let i = place(self.entries@, key);
                assert(self.key_at(i) == key);
            }
        }
        self.entries.len()
    }

    /// Pair `i`, in the order in which the keys came in.
    pub fn pair(&self, i: usize) -> (out: (&String, &String))
        requires
            i < self.count(),
        ensures
            out.0@ == self.key_at(i as int),
            self@.contains_key(out.0@),
            out.1@ == self@[out.0@],
    {
        proof {
            use_type_invariant(self);
            lemma_place(self.entries@, i as int);
        }
        (&self.entries[i].0, &self.entries[i].1)
    }

    /// Where `key` stands, or the number of pairs.
    fn find(&self, key: &str) -> (at: usize)
        ensures
            at <= self.entries@.len(),
            at < self.entries@.len() ==> self.entries@[at as int].0@ == key@,
            at == self.entries@.len() ==> !has_key(self.entries@, key@),
    {
        let mut i: usize = 0;
        while i < self.entries.len()
            invariant
                i <= self.entries@.len(),
                forall|j: int| 0 <= j < i ==> (#[trigger] self.entries@[j]).0@ != key@,
            decreases self.entries@.len() - i,
        {
            if same_text(self.entries[i].0.as_str(), key) {
                return i;
            }
            i += 1;
        }
        i
    }

    pub fn get(&self, key: &str) -> (out: Option<&String>)
        ensures
            match out {
                Some(value) => self@.contains_key(key@) && self@[key@] == value@,
                None => !self@.contains_key(key@),
            },
    {
        let i = self.find(key);
        if i < self.entries.len() {
            proof {
                use_type_invariant(self);
                lemma_place(self.entries@, i as int);
            }
            Some(&self.entries[i].1)
        } else {
            None
        }
    }

    pub fn insert(&mut self, key: String, value: String)
        ensures
            final(self)@ == old(self)@.insert(key@, value@),
    {
        proof {
            use_type_invariant(&*self);
        }
        let i = self.find(key.as_str());
        let ghost before = self.entries@;
        let mut entries: Vec<(String, String)> = Vec::new();
        std::mem::swap(&mut entries, &mut self.entries);
        if i < entries.len() {
            entries.set(i, (key, value));
        } else {
            entries.push((key, value));
        }
        proof {
            let now = entries@;
            assert(distinct(now));
            assert forall|k: Seq<char>| has_key(now, k) <==> has_key(before, k) || k == key@ by {
                if has_key(before, k) {
                    let j = place(before, k);
                    assert(now[j].0@ == k);
                }
                if k == key@ {
                    assert(now[i as int].0@ == k);
                }
            }
            assert forall|k: Seq<char>| has_key(now, k) implies #[trigger] as_map(now)[k]
                == as_map(before).insert(key@, value@)[k] by {
                let j = place(now, k);
                lemma_place(now, j);
                if j != i {
                    assert(before[j] == now[j]);
                    lemma_place(before, j);
                }
            }
            assert(as_map(now) =~= as_map(before).insert(key@, value@));
        }
        self.entries = entries;
    }

    pub fn remove(&mut self, key: &str)
        ensures
            final(self)@ == old(self)@.remove(key@),
    {
        proof {
            use_type_invariant(&*self);
        }
        let i = self.find(key);
        if i < self.entries.len() {
            let ghost before = self.entries@;
            let mut entries: Vec<(String, String)> = Vec::new();
            std::mem::swap(&mut entries, &mut self.entries);
            entries.remove(i);
            proof {
                let now = entries@;
                let at = i as int;
                assert(forall|j: int| 0 <= j < at ==> now[j] == before[j]);
                assert(forall|j: int| at <= j < now.len() ==> now[j] == before[j + 1]);
                assert(distinct(now));
                assert forall|k: Seq<char>| has_key(now, k) <==> has_key(before, k) && k
                    != key@ by {
                    if has_key(before, k) && k != key@ {
                        let j = place(before, k);
                        if j < at {
                            assert(now[j].0@ == k);
                        } else {
                            assert(now[j - 1].0@ == k);
                        }
                    }
                    if has_key(now, k) {
                        let j = place(now, k);
                        if j < at {
                            assert(before[j].0@ == k);
                        } else {
                            assert(before[j + 1].0@ == k);
                        }
                    }
                }
                assert forall|k: Seq<char>| has_key(now, k) implies #[trigger] as_map(now)[k]
                    == as_map(before)[k] by {
                    let j = place(now, k);
                    lemma_place(now, j);
                    if j < at {
                        lemma_place(before, j);
                    } else {
                        lemma_place(before, j + 1);
                    }
                }
                assert(as_map(now) =~= as_map(before).remove(key@));
            }
            self.entries = entries;
        } else {
            assert(self@ =~= old(self)@.remove(key@));
        }
    }
}

impl Clone for TextMap {
    fn clone(&self) -> (out: Self)
        ensures
            out@ == self@,
    {
        proof {
            use_type_invariant(self);
        }
        let mut entries: Vec<(String, String)> = Vec::new();
        let mut i: usize = 0;
        while i < self.entries.len()
            invariant
                i <= self.entries@.len(),
                entries@.len() == i,
                forall|j: int|
                    0 <= j < i ==> (#[trigger] entries@[j]).0@ == self.entries@[j].0@ && entries@[j].1@
                        == self.entries@[j].1@,
            decreases self.entries@.len() - i,
        {
            entries.push((self.entries[i].0.clone(), self.entries[i].1.clone()));
            i += 1;
        }
        proof {
            let now = entries@;
            let all = self.entries@;
            assert(distinct(now)) by {
                assert forall|a: int, b: int| 0 <= a < b < now.len() implies (#[trigger] now[a]).0@
                    != (#[trigger] now[b]).0@ by {
                    assert(all[a].0@ != all[b].0@);
                }
            }
            assert forall|k: Seq<char>| has_key(now, k) <==> has_key(all, k) by {
                if has_key(now, k) {
                    let j = place(now, k);
                    assert(all[j].0@ == k);
                }
                if has_key(all, k) {
                    let j = place(all, k);
                    assert(now[j].0@ == k);
                }
            }
            assert forall|k: Seq<char>| has_key(now, k) implies #[trigger] as_map(now)[k]
                == as_map(all)[k] by {
                let j = place(now, k);
                lemma_place(now, j);
                lemma_place(all, j);
            }
            assert(as_map(now) =~= as_map(all));
        }
        TextMap { entries }
    }
}

impl Default for TextMap {
    fn default() -> (m: Self)
        ensures
            m@ == Map::<Seq<char>, Seq<char>>::empty(),
    {
        TextMap::new()
    }
}

} // verus!
