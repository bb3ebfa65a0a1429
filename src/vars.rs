//! A flat mapping from strings to strings: the variable scope of a host, the
//! arguments of a module, the variables of a host or a group.
use vstd::prelude::*;
use crate::text::{chars_of, string_of};

verus! {

/// The mapping that a list of bindings denotes: a later binding of a key wins.
pub open spec fn map_of(s: Seq<(String, String)>) -> Map<Seq<char>, Seq<char>>
    decreases s.len(),
{
    if s.len() == 0 {
        Map::empty()
    } else {
        map_of(s.drop_last()).insert(s.last().0@, s.last().1@)
    }
}

/// Bindings at positions `i..` do not bind `k`, so `k` means what it meant before them.
pub proof fn lemma_map_of_prefix(s: Seq<(String, String)>, i: int, k: Seq<char>)
    requires
        0 <= i <= s.len(),
        forall|j: int| i <= j < s.len() ==> (#[trigger] s[j]).0@ != k,
    ensures
        map_of(s).contains_key(k) == map_of(s.take(i)).contains_key(k),
        map_of(s).contains_key(k) ==> map_of(s)[k] == map_of(s.take(i))[k],
    decreases s.len(),
{
    if s.len() > i {
        assert(s.drop_last().take(i) =~= s.take(i));
        lemma_map_of_prefix(s.drop_last(), i, k);
    } else {
        assert(s.take(i) =~= s);
    }
}

pub proof fn lemma_map_of_take_last(s: Seq<(String, String)>, i: int)
    requires
        0 < i <= s.len(),
    ensures
        map_of(s.take(i)) == map_of(s.take(i - 1)).insert(s[i - 1].0@, s[i - 1].1@),
{
    assert(s.take(i).drop_last() =~= s.take(i - 1));
}

/// A mapping from strings to strings, kept as a list of bindings.
#[derive(Clone, Debug)]
pub struct StrMap {
    entries: Vec<(String, String)>,
}

impl View for StrMap {
    type V = Map<Seq<char>, Seq<char>>;

    closed spec fn view(&self) -> Map<Seq<char>, Seq<char>> {
        map_of(self.entries@)
    }
}

impl StrMap {
    /// The bindings, in the order they were made.
    pub closed spec fn bindings(&self) -> Seq<(String, String)> {
        self.entries@
    }

    pub fn new() -> (r: StrMap)
        ensures
            r@ == Map::<Seq<char>, Seq<char>>::empty(),
    {
        StrMap { entries: Vec::new() }
    }

    /// A copy with the same bindings.
    pub fn duplicate(&self) -> (r: StrMap)
        ensures
            r@ == self@,
    {
        let mut entries: Vec<(String, String)> = Vec::new();
        let mut i: usize = 0;
        while i < self.entries.len()
            invariant
                i <= self.entries@.len(),
                entries@ == self.entries@.take(i as int),
            decreases self.entries@.len() - i,
        {
            let k = self.entries[i].0.clone();
            let v = self.entries[i].1.clone();
            entries.push((k, v));
            assert(entries@ =~= self.entries@.take(i + 1));
            i = i + 1;
        }
        assert(self.entries@.take(self.entries@.len() as int) =~= self.entries@);
        StrMap { entries }
    }

    /// Binds `key` to `value`, replacing an earlier binding of `key`.
    pub fn insert(&mut self, key: &str, value: &str)
        ensures
            final(self)@ == old(self)@.insert(key@, value@),
    {
        let k = key.to_owned();
        let v = value.to_owned();
        self.put(k, v);
    }

    /// Binds `key` to `value`, given as owned strings.
    pub fn put(&mut self, key: String, value: String)
        ensures
            final(self)@ == old(self)@.insert(key@, value@),
    {
        self.entries.push((key, value));
        proof {
            assert(self.entries@.drop_last() =~= old(self).entries@);
        }
    }

    /// Binds `key` to `value`, given as characters.
    pub fn put_chars(&mut self, key: &Vec<char>, value: &Vec<char>)
        ensures
            final(self)@ == old(self)@.insert(key@, value@),
    {
        let k = string_of(key);
        let v = string_of(value);
        self.put(k, v);
    }

    /// The value bound to `key`, looked up by a key already held as a `String`.
    pub fn get_string(&self, key: &String) -> (r: Option<&String>)
        ensures
            match r {
                Some(v) => self@.contains_key(key@) && self@[key@] == v@,
                None => !self@.contains_key(key@),
            },
    {
        let ghost s = self.entries@;
        let mut i: usize = self.entries.len();
        while i > 0
            invariant
                i <= s.len(),
                s == self.entries@,
                forall|j: int| i <= j < s.len() ==> (#[trigger] s[j]).0@ != key@,
            decreases i,
        {
            if self.entries[i - 1].0 == *key {
                proof {
                    lemma_map_of_prefix(s, i as int, key@);
                    lemma_map_of_take_last(s, i as int);
                }
                return Some(&self.entries[i - 1].1);
            }
            i = i - 1;
        }
        proof {
            lemma_map_of_prefix(s, 0, key@);
            assert(s.take(0) =~= Seq::<(String, String)>::empty());
        }
        None
    }

    /// The value bound to `key`.
    pub fn get(&self, key: &str) -> (r: Option<&String>)
        ensures
            match r {
                Some(v) => self@.contains_key(key@) && self@[key@] == v@,
                None => !self@.contains_key(key@),
            },
    {
        let k = key.to_owned();
        self.get_string(&k)
    }

    /// The value bound to `key`, as characters.
    pub fn get_chars(&self, key: &Vec<char>) -> (r: Option<Vec<char>>)
        ensures
            match r {
                Some(v) => self@.contains_key(key@) && self@[key@] == v@,
                None => !self@.contains_key(key@),
            },
    {
        let k = string_of(key);
        match self.get_string(&k) {
            Some(v) => Some(chars_of(v.as_str())),
            None => None,
        }
    }

    /// The value bound to `key` as characters; empty where `key` is unbound.
    pub fn lookup_chars(&self, key: &Vec<char>) -> (r: Vec<char>)
        ensures
            r@ == lookup(self@, key@),
    {
        match self.get_chars(key) {
            Some(v) => v,
            None => Vec::new(),
        }
    }

    pub fn contains_key(&self, key: &str) -> (r: bool)
        ensures
            r == self@.contains_key(key@),
    {
        self.get(key).is_some()
    }

    pub fn contains_chars(&self, key: &Vec<char>) -> (r: bool)
        ensures
            r == self@.contains_key(key@),
    {
        self.get_chars(key).is_some()
    }

    /// Binds every key of `other` to its value there, over the bindings of `self`.
    pub fn extend(&mut self, other: &StrMap)
        ensures
            final(self)@ == old(self)@.union_prefer_right(other@),
    {
        let ghost o = other.entries@;
        let mut i: usize = 0;
        while i < other.entries.len()
            invariant
                i <= o.len(),
                o == other.entries@,
                self@ == old(self)@.union_prefer_right(map_of(o.take(i as int))),
            decreases o.len() - i,
        {
            let k = other.entries[i].0.clone();
            let v = other.entries[i].1.clone();
            self.put(k, v);
            proof {
                lemma_map_of_take_last(o, i + 1);
                assert(self@ =~= old(self)@.union_prefer_right(map_of(o.take(i + 1))));
            }
            i = i + 1;
        }
        proof {
            assert(o.take(o.len() as int) =~= o);
        }
    }

    /// The bound keys, each once, in the order of their first binding.
    pub fn keys(&self) -> (r: Vec<String>)
        ensures
            forall|k: Seq<char>|
                self@.contains_key(k) <==> exists|j: int| 0 <= j < r@.len() && (#[trigger] r@[j])@ == k,
            forall|a: int, b: int| 0 <= a < b < r@.len() ==> (#[trigger] r@[a])@ != (#[trigger] r@[b])@,
    {
        let ghost s = self.entries@;
        let mut r: Vec<String> = Vec::new();
        let mut seen = StrMap::new();
        let mut i: usize = 0;
        while i < self.entries.len()
            invariant
                i <= s.len(),
                s == self.entries@,
                forall|k: Seq<char>|
                    map_of(s.take(i as int)).contains_key(k) <==> seen@.contains_key(k),
                forall|k: Seq<char>|
                    seen@.contains_key(k) <==> exists|j: int| 0 <= j < r@.len() && (#[trigger] r@[j])@ == k,
                forall|a: int, b: int| 0 <= a < b < r@.len() ==> (#[trigger] r@[a])@ != (#[trigger] r@[b])@,
            decreases s.len() - i,
        {
            let k = &self.entries[i].0;
            proof {
                lemma_map_of_take_last(s, i + 1);
            }
            if seen.get_string(k).is_none() {
                let ghost old_r = r@;
                r.push(k.clone());
                seen.put(k.clone(), String::new());
                proof {
                    assert forall|kk: Seq<char>|
                        seen@.contains_key(kk) implies exists|j: int| 0 <= j < r@.len() && (#[trigger] r@[j])@ == kk by {
                        if kk == k@ {
                            assert(r@[old_r.len() as int]@ == kk);
                        } else {
                            let j = choose|j: int| 0 <= j < old_r.len() && (#[trigger] old_r[j])@ == kk;
                            assert(r@[j] == old_r[j]);
                        }
                    }
                    assert forall|kk: Seq<char>|
                        (exists|j: int| 0 <= j < r@.len() && (#[trigger] r@[j])@ == kk) implies seen@.contains_key(kk) by {
                        let j = choose|j: int| 0 <= j < r@.len() && (#[trigger] r@[j])@ == kk;
                        if j < old_r.len() {
                            assert(old_r[j] == r@[j]);
                        }
                    }
                    assert forall|a: int, b: int| 0 <= a < b < r@.len() implies (#[trigger] r@[a])@ != (#[trigger] r@[b])@ by {
                        if b == old_r.len() {
                            assert(r@[a] == old_r[a]);
                        } else {
                            assert(r@[a] == old_r[a]);
                            assert(r@[b] == old_r[b]);
                        }
                    }
                }
            }
            i = i + 1;
        }
        proof {
            assert(s.take(s.len() as int) =~= s);
            assert forall|k: Seq<char>| self@.contains_key(k) <==> seen@.contains_key(k) by {
                assert(map_of(s.take(s.len() as int)).contains_key(k) <==> seen@.contains_key(k));
            }
        }
        r
    }
}

/// The value bound to `k`, or the empty string.
pub open spec fn lookup(m: Map<Seq<char>, Seq<char>>, k: Seq<char>) -> Seq<char> {
    if m.contains_key(k) {
        m[k]
    } else {
        Seq::empty()
    }
}

} // verus!
