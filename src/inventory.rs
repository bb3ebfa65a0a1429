//! The inventory: hosts, groups, group variables and child groups, parsed from
//! the INI dialect, with host-range expansion and group resolution.
use vstd::prelude::*;
use crate::text::{
    chars_eq, chars_of, find, has_prefix, has_suffix, is_space, lemma_find_from_bounds, slice,
    space, split_first, split_once, string_of, to_decimal, decimal, trim, trimmed, find_first,
};
use crate::vars::StrMap;

verus! {

/// A host: its name and its own variables.
#[derive(Debug, Clone)]
pub struct Host {
    pub name: String,
    pub vars: StrMap,
}

/// A group: its member hosts, its child groups and its variables.
#[derive(Debug, Clone)]
pub struct Group {
    pub name: String,
    pub hosts: Vec<String>,
    pub children: Vec<String>,
    pub vars: StrMap,
}

/// What a group holds, as values.
pub struct GroupModel {
    pub hosts: Seq<Seq<char>>,
    pub children: Seq<Seq<char>>,
    pub vars: Map<Seq<char>, Seq<char>>,
}

impl View for Host {
    type V = Map<Seq<char>, Seq<char>>;

    open spec fn view(&self) -> Map<Seq<char>, Seq<char>> {
        self.vars@
    }
}

impl View for Group {
    type V = GroupModel;

    open spec fn view(&self) -> GroupModel {
        GroupModel {
            hosts: self.hosts@.map_values(|h: String| h@),
            children: self.children@.map_values(|c: String| c@),
            vars: self.vars@,
        }
    }
}

/// The first position whose key is `k`.
pub open spec fn key_index<V>(s: Seq<(Seq<char>, V)>, k: Seq<char>) -> Option<int>
    decreases s.len(),
{
    if s.len() == 0 {
        None
    } else {
        match key_index(s.drop_last(), k) {
            Some(i) => Some(i),
            None => if s.last().0 == k {
                Some(s.len() - 1)
            } else {
                None
            },
        }
    }
}

pub proof fn lemma_key_index<V>(s: Seq<(Seq<char>, V)>, k: Seq<char>)
    ensures
        match key_index(s, k) {
            Some(i) => 0 <= i < s.len() && s[i].0 == k && forall|j: int| 0 <= j < i ==> s[j].0 != k,
            None => forall|j: int| 0 <= j < s.len() ==> s[j].0 != k,
        },
    decreases s.len(),
{
    if s.len() > 0 {
        let d = s.drop_last();
        lemma_key_index(d, k);
        assert forall|j: int| 0 <= j < d.len() implies d[j] == s[j] by {}
    }
}

/// The first entry named `k` is the one `key_index` gives.
pub proof fn lemma_key_index_first<V>(s: Seq<(Seq<char>, V)>, k: Seq<char>, i: int)
    requires
        0 <= i < s.len(),
        s[i].0 == k,
        forall|j: int| 0 <= j < i ==> s[j].0 != k,
    ensures
        key_index(s, k) == Some(i),
{
    lemma_key_index(s, k);
    match key_index(s, k) {
        Some(m) => {
            if m < i {
                assert(s[m].0 != k);
            } else if m > i {
                assert(s[i].0 != k);
            }
        },
        None => {
            assert(s[i].0 != k);
        },
    }
}

pub proof fn lemma_remove_insert<A>(s: Seq<A>, i: int, x: A)
    requires
        0 <= i < s.len(),
    ensures
        s.remove(i).insert(i, x) == s.update(i, x),
{
    assert(s.remove(i).insert(i, x) =~= s.update(i, x));
}

/// A table of named entries, in the order they were first inserted.
#[derive(Debug)]
pub struct Table<T> {
    entries: Vec<(String, T)>,
}

impl<T: View> View for Table<T> {
    type V = Seq<(Seq<char>, T::V)>;

    closed spec fn view(&self) -> Seq<(Seq<char>, T::V)> {
        self.entries@.map_values(|e: (String, T)| (e.0@, e.1@))
    }
}

/// No two of the entries share a name.
pub open spec fn unique_entry_names<T>(e: Seq<(String, T)>) -> bool {
    forall|a: int, b: int| 0 <= a < b < e.len() ==> e[a].0@ != e[b].0@
}

impl<T> Table<T> {
    /// The entries, leaving the table empty for a moment.
    fn take_entries(&mut self) -> (r: Vec<(String, T)>)
        ensures
            r@ == old(self).entries@,
            unique_entry_names(r@),
    {
        proof {
            use_type_invariant(&*self);
        }
        let mut other: Table<T> = Table { entries: Vec::new() };
        core::mem::swap(self, &mut other);
        proof {
            use_type_invariant(&other);
        }
        let Table { entries } = other;
        entries
    }

    fn set_entries(&mut self, entries: Vec<(String, T)>)
        requires
            unique_entry_names(entries@),
        ensures
            final(self).entries@ == entries@,
    {
        *self = Table { entries };
    }

    /// A table holds each name at most once.
    #[verifier::type_invariant]
    closed spec fn unique_names(&self) -> bool {
        forall|a: int, b: int|
            0 <= a < b < self.entries@.len() ==> self.entries@[a].0@ != self.entries@[b].0@
    }
}

impl<T: View> Table<T> {
    proof fn lemma_view(&self)
        ensures
            self@.len() == self.entries@.len(),
            forall|i: int|
                0 <= i < self@.len() ==> #[trigger] self@[i] == (self.entries@[i].0@, self.entries@[i].1@),
    {
    }

    pub fn new() -> (r: Table<T>)
        ensures
            r@.len() == 0,
    {
        let r = Table { entries: Vec::new() };
        assert(r@ =~= Seq::<(Seq<char>, T::V)>::empty());
        r
    }

    pub fn len(&self) -> (r: usize)
        ensures
            r == self@.len(),
    {
        self.entries.len()
    }

    /// Where the entry named `k` stands.
    pub fn position(&self, k: &Vec<char>) -> (r: Option<usize>)
        ensures
            match r {
                Some(i) => key_index(self@, k@) == Some(i as int) && i < self@.len(),
                None => key_index(self@, k@) is None,
            },
    {
        proof {
            lemma_key_index(self@, k@);
            self.lemma_view();
        }
        let mut i: usize = 0;
        while i < self.entries.len()
            invariant
                i <= self@.len(),
                self@.len() == self.entries@.len(),
                forall|j: int| 0 <= j < i ==> self@[j].0 != k@,
            decreases self.entries.len() - i,
        {
            let name = chars_of(self.entries[i].0.as_str());
            if chars_eq(&name, k) {
                proof {
                    assert(self@[i as int].0 == k@);
                    lemma_key_index_first(self@, k@, i as int);
                }
                return Some(i);
            }
            i = i + 1;
        }
        None
    }

    pub fn contains_key(&self, k: &str) -> (r: bool)
        ensures
            r == (key_index(self@, k@) is Some),
    {
        self.position(&chars_of(k)).is_some()
    }

    /// The entry named `k`.
    pub fn get(&self, k: &str) -> (r: Option<&T>)
        ensures
            match r {
                Some(v) => key_index(self@, k@) matches Some(i) && self@[i].1 == v@,
                None => key_index(self@, k@) is None,
            },
    {
        proof {
            self.lemma_view();
            lemma_key_index(self@, k@);
        }
        match self.position(&chars_of(k)) {
            Some(i) => Some(&self.entries[i].1),
            None => None,
        }
    }

    /// The entry at position `i`.
    pub fn at(&self, i: usize) -> (r: (&String, &T))
        requires
            i < self@.len(),
        ensures
            r.0@ == self@[i as int].0 && r.1@ == self@[i as int].1,
    {
        proof {
            self.lemma_view();
        }
        (&self.entries[i].0, &self.entries[i].1)
    }

    /// The names, in table order.
    pub fn keys(&self) -> (r: Vec<String>)
        ensures
            r@.map_values(|k: String| k@) == self@.map_values(|e: (Seq<char>, T::V)| e.0),
            forall|a: int, b: int| 0 <= a < b < r@.len() ==> r@[a]@ != r@[b]@,
    {
        proof {
            self.lemma_view();
            use_type_invariant(self);
        }
        let mut r: Vec<String> = Vec::new();
        let mut i: usize = 0;
        while i < self.entries.len()
            invariant
                i <= self@.len(),
                self@.len() == self.entries@.len(),
                forall|i: int|
                    0 <= i < self@.len() ==> #[trigger] self@[i] == (self.entries@[i].0@, self.entries@[i].1@),
                r@.map_values(|k: String| k@) == self@.map_values(|e: (Seq<char>, T::V)| e.0).take(
                    i as int,
                ),
            decreases self.entries.len() - i,
        {
            let ghost before = r@.map_values(|k: String| k@);
            r.push(self.entries[i].0.clone());
            proof {
                assert(self@[i as int].0 == self.entries@[i as int].0@);
                assert(r@.map_values(|k: String| k@) =~= before.push(self@[i as int].0));
                assert(self@.map_values(|e: (Seq<char>, T::V)| e.0).take(i + 1) =~= self@.map_values(
                    |e: (Seq<char>, T::V)| e.0,
                ).take(i as int).push(self@[i as int].0));
            }
            i = i + 1;
        }
        assert(self@.map_values(|e: (Seq<char>, T::V)| e.0).take(self@.len() as int) =~= self@.map_values(
            |e: (Seq<char>, T::V)| e.0,
        ));
        proof {
            assert forall|a: int, b: int| 0 <= a < b < r@.len() implies r@[a]@ != r@[b]@ by {
                assert(r@.map_values(|k: String| k@)[a] == self@.map_values(|e: (Seq<char>, T::V)| e.0)[a]);
                assert(r@.map_values(|k: String| k@)[b] == self@.map_values(|e: (Seq<char>, T::V)| e.0)[b]);
            }
        }
        r
    }

    /// Puts `v` under the name `k`: in place of an entry of that name, else at the end.
    pub fn insert(&mut self, k: String, v: T)
        ensures
            final(self)@ == match key_index(old(self)@, k@) {
                Some(i) => old(self)@.update(i, (k@, v@)),
                None => old(self)@.push((k@, v@)),
            },
    {
        let kc = chars_of(k.as_str());
        proof {
            lemma_key_index(self@, k@);
            use_type_invariant(&*self);
        }
        let pos = self.position(&kc);
        let mut e = self.take_entries();
        let ghost e0 = e@;
        match pos {
            Some(i) => {
                let _ = e.remove(i);
                e.insert(i, (k, v));
                proof {
                    assert(e@ =~= e0.update(i as int, (k, v)));
                    assert(e0[i as int].0@ == k@);
                    assert forall|a: int, b: int| 0 <= a < b < e@.len() implies e@[a].0@ != e@[b].0@ by {
                        if a != i && b != i {
                            assert(e@[a] == e0[a] && e@[b] == e0[b]);
                        } else if a == i {
                            assert(e@[b] == e0[b]);
                        } else {
                            assert(e@[a] == e0[a]);
                        }
                    }
                }
                self.set_entries(e);
                assert(self@ =~= old(self)@.update(i as int, (k@, v@)));
            },
            None => {
                e.push((k, v));
                proof {
                    assert forall|a: int, b: int| 0 <= a < b < e@.len() implies e@[a].0@ != e@[b].0@ by {
                        if b == e0.len() {
                            assert(old(self)@[a].0 != k@);
                        }
                    }
                }
                self.set_entries(e);
                assert(self@ =~= old(self)@.push((k@, v@)));
            },
        }
    }

    /// Takes out the entry at position `i`, to be put back with `restore`.
    fn take_at(&mut self, i: usize) -> (r: (String, T))
        requires
            i < old(self)@.len(),
        ensures
            final(self)@ == old(self)@.remove(i as int),
            r.0@ == old(self)@[i as int].0 && r.1@ == old(self)@[i as int].1,
            forall|j: int| 0 <= j < final(self)@.len() ==> (#[trigger] final(self)@[j]).0 != r.0@,
    {
        proof {
            use_type_invariant(&*self);
            self.lemma_view();
        }
        let mut e = self.take_entries();
        let r = e.remove(i);
        proof {
            assert forall|a: int, b: int| 0 <= a < b < e@.len() implies e@[a].0@ != e@[b].0@ by {
                let a2 = if a < i { a } else { a + 1 };
                let b2 = if b < i { b } else { b + 1 };
                assert(e@[a] == old(self).entries@[a2]);
                assert(e@[b] == old(self).entries@[b2]);
            }
            assert forall|j: int| 0 <= j < e@.len() implies (#[trigger] e@[j]).0@ != r.0@ by {
                if j < i {
                    assert(e@[j] == old(self).entries@[j]);
                } else {
                    assert(e@[j] == old(self).entries@[j + 1]);
                }
            }
        }
        self.set_entries(e);
        assert(self@ =~= old(self)@.remove(i as int));
        r
    }

    fn restore(&mut self, i: usize, k: String, v: T)
        requires
            i <= old(self)@.len(),
            forall|j: int| 0 <= j < old(self)@.len() ==> (#[trigger] old(self)@[j]).0 != k@,
        ensures
            final(self)@ == old(self)@.insert(i as int, (k@, v@)),
    {
        proof {
            use_type_invariant(&*self);
            self.lemma_view();
        }
        let mut e = self.take_entries();
        let ghost e0 = e@;
        e.insert(i, (k, v));
        proof {
            assert forall|a: int, b: int| 0 <= a < b < e@.len() implies e@[a].0@ != e@[b].0@ by {
                if a < i && b < i {
                    assert(e@[a] == e0[a] && e@[b] == e0[b]);
                } else if a < i && b == i {
                    assert(e@[a] == e0[a]);
                    assert(old(self)@[a].0 != k@);
                } else if a < i {
                    assert(e@[a] == e0[a] && e@[b] == e0[b - 1]);
                } else if a == i {
                    assert(e@[b] == e0[b - 1]);
                    assert(old(self)@[b - 1].0 != k@);
                } else {
                    assert(e@[a] == e0[a - 1] && e@[b] == e0[b - 1]);
                }
            }
        }
        self.set_entries(e);
        assert(self@ =~= old(self)@.insert(i as int, (k@, v@)));
    }
}

/// Hosts and groups.
#[derive(Debug)]
pub struct Inventory {
    pub hosts: Table<Host>,
    pub groups: Table<Group>,
}

/// What an inventory holds, as values.
pub struct InventoryModel {
    pub hosts: Seq<(Seq<char>, Map<Seq<char>, Seq<char>>)>,
    pub groups: Seq<(Seq<char>, GroupModel)>,
}

impl View for Inventory {
    type V = InventoryModel;

    open spec fn view(&self) -> InventoryModel {
        InventoryModel { hosts: self.hosts@, groups: self.groups@ }
    }
}

pub open spec fn empty_group() -> GroupModel {
    GroupModel { hosts: Seq::empty(), children: Seq::empty(), vars: Map::empty() }
}

/// The groups with `name` added, empty, where it is missing.
pub open spec fn ensure_group(gs: Seq<(Seq<char>, GroupModel)>, name: Seq<char>) -> Seq<
    (Seq<char>, GroupModel),
> {
    match key_index(gs, name) {
        Some(_) => gs,
        None => gs.push((name, empty_group())),
    }
}

/// The hosts with `vars` layered over host `name`, which is added where missing.
pub open spec fn add_host(
    hs: Seq<(Seq<char>, Map<Seq<char>, Seq<char>>)>,
    name: Seq<char>,
    vars: Map<Seq<char>, Seq<char>>,
) -> Seq<(Seq<char>, Map<Seq<char>, Seq<char>>)> {
    match key_index(hs, name) {
        Some(i) => hs.update(i, (name, hs[i].1.union_prefer_right(vars))),
        None => hs.push((name, vars)),
    }
}

/// The groups with host `h` appended to group `g`'s members, where `g` exists
/// and does not list `h` yet.
pub open spec fn add_member(gs: Seq<(Seq<char>, GroupModel)>, g: Seq<char>, h: Seq<char>) -> Seq<
    (Seq<char>, GroupModel),
> {
    match key_index(gs, g) {
        Some(i) => if gs[i].1.hosts.contains(h) {
            gs
        } else {
            gs.update(
                i,
                (g, GroupModel { hosts: gs[i].1.hosts.push(h), ..gs[i].1 }),
            )
        },
        None => gs,
    }
}

/// The groups with `k = v` set on group `g`, where it exists.
pub open spec fn set_group_var(
    gs: Seq<(Seq<char>, GroupModel)>,
    g: Seq<char>,
    k: Seq<char>,
    v: Seq<char>,
) -> Seq<(Seq<char>, GroupModel)> {
    match key_index(gs, g) {
        Some(i) => gs.update(i, (g, GroupModel { vars: gs[i].1.vars.insert(k, v), ..gs[i].1 })),
        None => gs,
    }
}

/// The groups with child `c` appended to group `g`, where it exists.
pub open spec fn add_child(gs: Seq<(Seq<char>, GroupModel)>, g: Seq<char>, c: Seq<char>) -> Seq<
    (Seq<char>, GroupModel),
> {
    match key_index(gs, g) {
        Some(i) => gs.update(
            i,
            (g, GroupModel { children: gs[i].1.children.push(c), ..gs[i].1 }),
        ),
        None => gs,
    }
}


// ------------------------------------------------------------ host lines

/// The white-space separated words of `s`.
pub open spec fn words(s: Seq<char>) -> Seq<Seq<char>>
    decreases s.len(),
{
    if s.len() == 0 {
        Seq::empty()
    } else {
        let w = words(s.drop_last());
        let c = s.last();
        if is_space(c) {
            w
        } else if s.len() >= 2 && !is_space(s[s.len() - 2]) && w.len() > 0 {
            w.update(w.len() - 1, w.last().push(c))
        } else {
            w.push(seq![c])
        }
    }
}

/// The variables of a host line: each `k=v` word after the first, a later
/// one for the same key winning.
pub open spec fn line_vars(ws: Seq<Seq<char>>) -> Map<Seq<char>, Seq<char>>
    decreases ws.len(),
{
    if ws.len() <= 1 {
        Map::empty()
    } else {
        let m = line_vars(ws.drop_last());
        match split_once(ws.last(), seq!['=']) {
            Some((k, v)) => m.insert(k, v),
            None => m,
        }
    }
}

pub open spec fn is_digit(c: char) -> bool {
    '0' <= c && c <= '9'
}

/// The value of a run of decimal digits.
pub open spec fn digits_value(d: Seq<char>) -> nat
    decreases d.len(),
{
    if d.len() == 0 {
        0
    } else {
        digits_value(d.drop_last()) * 10 + (d.last() as u32 - '0' as u32) as nat
    }
}

/// The part of `s` after an optional leading `+`.
pub open spec fn unsigned_digits(s: Seq<char>) -> Seq<char> {
    if s.len() > 0 && s[0] == '+' {
        s.drop_first()
    } else {
        s
    }
}

pub open spec fn all_digits(d: Seq<char>) -> bool {
    forall|i: int| 0 <= i < d.len() ==> is_digit(#[trigger] d[i])
}

/// What `str::parse::<u32>` accepts: an optional `+`, then decimal digits
/// whose value fits in 32 bits.
pub open spec fn parse_u32(s: Seq<char>) -> Option<nat> {
    let d = unsigned_digits(s);
    if d.len() > 0 && all_digits(d) && digits_value(d) <= u32::MAX {
        Some(digits_value(d))
    } else {
        None
    }
}

/// `d` padded on the left with zeros to at least `w` characters.
pub open spec fn zero_padded(d: Seq<char>, w: nat) -> Seq<char> {
    if d.len() >= w {
        d
    } else {
        Seq::new((w - d.len()) as nat, |i: int| '0') + d
    }
}

/// The characters with values `lo..=hi`, in order.
pub open spec fn char_run(lo: int, hi: int) -> Seq<char>
    decreases hi + 1 - lo,
{
    if lo > hi || lo < 0 || hi > u32::MAX {
        Seq::empty()
    } else {
        let rest = char_run(lo + 1, hi);
        if crate::bridge::is_scalar_value(lo as u32) {
            seq![(lo as u32) as char] + rest
        } else {
            rest
        }
    }
}

/// The host names a pattern stands for: one bracketed range `[A:B]` of
/// numbers (zero-padded to the width of `A`) or of single characters is
/// enumerated; any other pattern stands for itself.
pub open spec fn expand_pattern(p: Seq<char>) -> Seq<Seq<char>> {
    match (find(p, seq!['[']), find(p, seq![']'])) {
        (Some(st), Some(en)) => if st < en {
            let prefix = p.subrange(0, st);
            let suffix = p.subrange(en + 1, p.len() as int);
            match split_once(p.subrange(st + 1, en), seq![':']) {
                Some((f, t)) => match (parse_u32(f), parse_u32(t)) {
                    (Some(a), Some(b)) => Seq::new(
                        if b >= a {
                            (b - a + 1) as nat
                        } else {
                            0
                        },
                        |i: int| prefix + zero_padded(decimal((a + i) as nat), f.len()) + suffix,
                    ),
                    _ => if f.len() == 1 && t.len() == 1 {
                        char_run(f[0] as u32 as int, t[0] as u32 as int).map_values(
                            |c: char| prefix + seq![c] + suffix,
                        )
                    } else {
                        seq![p]
                    },
                },
                None => seq![p],
            }
        } else {
            seq![p]
        },
        _ => seq![p],
    }
}

/// The white-space separated words of `s`.
pub fn split_words(s: &Vec<char>) -> (r: Vec<Vec<char>>)
    ensures
        r@.map_values(|w: Vec<char>| w@) == words(s@),
{
    let mut out: Vec<Vec<char>> = Vec::new();
    let mut i: usize = 0;
    assert(s@.take(0) =~= Seq::<char>::empty());
    while i < s.len()
        invariant
            i <= s.len(),
            out@.map_values(|w: Vec<char>| w@) == words(s@.take(i as int)),
        decreases s.len() - i,
    {
        let c = s[i];
        let ghost t = s@.take(i + 1);
        assert(t.drop_last() =~= s@.take(i as int));
        let ghost before = out@.map_values(|w: Vec<char>| w@);
        if space(c) {
        } else if i >= 1 && !space(s[i - 1]) && out.len() > 0 {
            let mut last = out.pop().unwrap();
            last.push(c);
            out.push(last);
            assert(out@.map_values(|w: Vec<char>| w@) =~= before.update(
                before.len() - 1,
                before.last().push(c),
            ));
        } else {
            let single: Vec<char> = vec![c];
            assert(single@ =~= seq![c]);
            out.push(single);
            assert(out@.map_values(|w: Vec<char>| w@) =~= before.push(seq![c]));
        }
        i = i + 1;
    }
    assert(s@.take(s.len() as int) =~= s@);
    out
}

fn host_line_vars(ws: &Vec<Vec<char>>) -> (r: StrMap)
    ensures
        r@ == line_vars(ws@.map_values(|w: Vec<char>| w@)),
{
    let ghost all = ws@.map_values(|w: Vec<char>| w@);
    let mut m = StrMap::new();
    let mut i: usize = 1;
    if ws.len() == 0 {
        return m;
    }
    assert(all.take(1).len() <= 1);
    while i < ws.len()
        invariant
            1 <= i <= ws@.len(),
            all == ws@.map_values(|w: Vec<char>| w@),
            m@ == line_vars(all.take(i as int)),
        decreases ws.len() - i,
    {
        let eq: Vec<char> = vec!['='];
        assert(eq@ =~= seq!['=']);
        assert(all.take(i + 1).drop_last() =~= all.take(i as int));
        match split_first(&ws[i], &eq) {
            Some((k, v)) => m.put_chars(&k, &v),
            None => {},
        }
        i = i + 1;
    }
    assert(all.take(ws@.len() as int) =~= all);
    m
}

fn digit_value(c: char) -> (r: u64)
    requires
        is_digit(c),
    ensures
        r as nat == (c as u32 - '0' as u32) as nat,
        r < 10,
{
    (c as u32 - '0' as u32) as u64
}

proof fn lemma_digits_grow(d: Seq<char>, c: char)
    requires
        is_digit(c),
    ensures
        digits_value(d.push(c)) >= digits_value(d),
{
    assert(d.push(c).drop_last() =~= d);
}

/// Parses an unsigned 32-bit decimal.
pub fn parse_unsigned(s: &Vec<char>) -> (r: Option<u32>)
    ensures
        match r {
            Some(n) => parse_u32(s@) == Some(n as nat),
            None => parse_u32(s@) is None,
        },
{
    let start: usize = if s.len() > 0 && s[0] == '+' {
        1
    } else {
        0
    };
    let ghost d = unsigned_digits(s@);
    assert(d =~= s@.subrange(start as int, s.len() as int));
    if start == s.len() {
        return None;
    }
    let mut acc: u64 = 0;
    let mut i: usize = start;
    assert(d.take(0) =~= Seq::<char>::empty());
    while i < s.len()
        invariant
            start <= i <= s.len(),
            d == unsigned_digits(s@),
            d == s@.subrange(start as int, s.len() as int),
            forall|k: int| 0 <= k < i - start ==> is_digit(#[trigger] d[k]),
            acc as nat == digits_value(d.take(i - start)),
            acc <= u32::MAX,
        decreases s.len() - i,
    {
        let c = s[i];
        if !('0' <= c && c <= '9') {
            proof {
                assert(d[i - start] == c);
                assert(!is_digit(d[i - start]));
                assert(!all_digits(d));
            }
            return None;
        }
        let v = digit_value(c);
        assert(d.take(i - start + 1).drop_last() =~= d.take(i - start));
        assert(d.take(i - start + 1).last() == c);
        let next = acc * 10 + v;
        assert(d[i - start] == c);
        assert(digits_value(d.take(i - start + 1)) == next as nat);
        if next > u32::MAX as u64 {
            proof {
                // Further digits never make the value smaller.
                lemma_digits_prefix_bound(d, i - start + 1);
            }
            return None;
        }
        acc = next;
        i = i + 1;
    }
    assert(d.take(d.len() as int) =~= d);
    Some(acc as u32)
}

proof fn lemma_digits_prefix_bound(d: Seq<char>, k: int)
    requires
        0 <= k <= d.len(),
        forall|i: int| 0 <= i < k ==> is_digit(#[trigger] d[i]),
    ensures
        (forall|i: int| 0 <= i < d.len() ==> is_digit(#[trigger] d[i])) ==> digits_value(d)
            >= digits_value(d.take(k)),
    decreases d.len() - k,
{
    if k < d.len() {
        if all_digits(d) {
            lemma_digits_grow(d.take(k), d[k]);
            assert(d.take(k).push(d[k]) =~= d.take(k + 1));
            lemma_digits_prefix_bound(d, k + 1);
        }
    } else {
        assert(d.take(k) =~= d);
    }
}

fn zero_pad(d: Vec<char>, w: usize) -> (r: Vec<char>)
    ensures
        r@ == zero_padded(d@, w as nat),
{
    if d.len() >= w {
        return d;
    }
    let mut r: Vec<char> = Vec::new();
    let n = w - d.len();
    let mut i: usize = 0;
    while i < n
        invariant
            i <= n,
            r@ == Seq::new(i as nat, |j: int| '0'),
        decreases n - i,
    {
        r.push('0');
        i = i + 1;
        assert(r@ =~= Seq::new(i as nat, |j: int| '0'));
    }
    crate::text::append(&mut r, &d);
    r
}

/// The host names a host pattern stands for.
pub fn expand_host_pattern(p: &Vec<char>) -> (r: Vec<Vec<char>>)
    ensures
        r@.map_values(|h: Vec<char>| h@) == expand_pattern(p@),
{
    let open: Vec<char> = vec!['['];
    let close: Vec<char> = vec![']'];
    let colon: Vec<char> = vec![':'];
    assert(open@ =~= seq!['[']);
    assert(close@ =~= seq![']']);
    assert(colon@ =~= seq![':']);
    let literal = |p: &Vec<char>| -> (r: Vec<Vec<char>>)
        ensures
            r@.map_values(|h: Vec<char>| h@) == seq![p@],
        {
            let r = vec![p.clone()];
            assert(r@.map_values(|h: Vec<char>| h@) =~= seq![p@]);
            r
        };
    let st = match find_first(p, &open) {
        Some(st) => st,
        None => return literal(p),
    };
    let en = match find_first(p, &close) {
        Some(en) => en,
        None => return literal(p),
    };
    if st >= en {
        return literal(p);
    }
    let prefix = slice(p, 0, st);
    let suffix = slice(p, en + 1, p.len());
    let range = slice(p, st + 1, en);
    let (f, t) = match split_first(&range, &colon) {
        Some(ft) => ft,
        None => return literal(p),
    };
    match (parse_unsigned(&f), parse_unsigned(&t)) {
        (Some(a), Some(b)) => {
            let mut r: Vec<Vec<char>> = Vec::new();
            if a <= b {
                let mut n: u64 = a as u64;
                while n <= b as u64
                    invariant
                        a <= n <= b as u64 + 1,
                        r@.len() == n - a,
                        forall|k: int|
                            0 <= k < r@.len() ==> #[trigger] r@[k]@ == prefix@ + zero_padded(
                                decimal((a + k) as nat),
                                f@.len(),
                            ) + suffix@,
                    decreases b as u64 + 1 - n,
                {
                    let digits = zero_pad(to_decimal(n), f.len());
                    let name = crate::text::concat3(&prefix, &digits, &suffix);
                    r.push(name);
                    n = n + 1;
                }
            }
            proof {
                let want = expand_pattern(p@);
                assert(r@.map_values(|h: Vec<char>| h@) =~= want);
            }
            r
        },
        _ => {
            if f.len() == 1 && t.len() == 1 {
                let lo = f[0] as u32;
                let hi = t[0] as u32;
                let mut r: Vec<Vec<char>> = Vec::new();
                let mut n: u64 = lo as u64;
                let ghost all = char_run(lo as int, hi as int).map_values(
                    |c: char| prefix@ + seq![c] + suffix@,
                );
                while n <= hi as u64
                    invariant
                        lo <= n <= hi as u64 + 1 || (n == lo && lo > hi),
                        r@.map_values(|h: Vec<char>| h@) + char_run(n as int, hi as int).map_values(
                            |c: char| prefix@ + seq![c] + suffix@,
                        ) == all,
                    decreases hi as u64 + 1 - n,
                {
                    let ghost before = r@.map_values(|h: Vec<char>| h@);
                    match crate::bridge::char_from_u32(n as u32) {
                        Some(c) => {
                            let mut name = prefix.clone();
                            assert(name@ == prefix@);
                            name.push(c);
                            crate::text::append(&mut name, &suffix);
                            assert(name@ =~= prefix@ + seq![c] + suffix@);
                            r.push(name);
                            proof {
                                assert(r@.map_values(|h: Vec<char>| h@) =~= before.push(
                                    prefix@ + seq![c] + suffix@,
                                ));
                                let run = char_run(n as int, hi as int);
                                assert(run =~= seq![c] + char_run(n + 1, hi as int));
                                assert(run.map_values(|c: char| prefix@ + seq![c] + suffix@) =~= seq![
                                    prefix@ + seq![c] + suffix@,
                                ] + char_run(n + 1, hi as int).map_values(
                                    |c: char| prefix@ + seq![c] + suffix@,
                                ));
                            }
                        },
                        None => {},
                    }
                    n = n + 1;
                }
                proof {
                    assert(char_run(n as int, hi as int) =~= Seq::<char>::empty());
                    assert(r@.map_values(|h: Vec<char>| h@) =~= all);
                }
                r
            } else {
                literal(p)
            }
        },
    }
}

// --------------------------------------------------------------- parsing

pub open spec fn ungrouped() -> Seq<char> {
    seq!['u', 'n', 'g', 'r', 'o', 'u', 'p', 'e', 'd']
}

pub open spec fn vars_suffix() -> Seq<char> {
    seq![':', 'v', 'a', 'r', 's']
}

pub open spec fn children_suffix() -> Seq<char> {
    seq![':', 'c', 'h', 'i', 'l', 'd', 'r', 'e', 'n']
}

/// The inventory with each of `names` added as a host with `vars` and listed
/// in `group` (in `ungrouped`, created where needed, when there is no group).
pub open spec fn place_hosts(
    inv: InventoryModel,
    names: Seq<Seq<char>>,
    vars: Map<Seq<char>, Seq<char>>,
    group: Option<Seq<char>>,
) -> InventoryModel
    decreases names.len(),
{
    if names.len() == 0 {
        inv
    } else {
        let before = place_hosts(inv, names.drop_last(), vars, group);
        let h = names.last();
        InventoryModel {
            hosts: add_host(before.hosts, h, vars),
            groups: match group {
                Some(g) => add_member(before.groups, g, h),
                None => add_member(ensure_group(before.groups, ungrouped()), ungrouped(), h),
            },
        }
    }
}

/// The parser's state between two lines: the inventory so far and the
/// text of the last section header.
pub struct IniState {
    pub inv: InventoryModel,
    pub section: Option<Seq<char>>,
}

/// The host names and variables of a host line.
pub open spec fn host_line(l: Seq<char>) -> (Seq<Seq<char>>, Map<Seq<char>, Seq<char>>) {
    let ws = words(l);
    (expand_pattern(if ws.len() > 0 { ws[0] } else { Seq::empty() }), line_vars(ws))
}

/// One line of the INI dialect applied to the parser's state.
pub open spec fn ini_step(st: IniState, raw: Seq<char>) -> IniState {
    let l = trim(raw);
    if l.len() == 0 || l[0] == '#' || l[0] == ';' {
        st
    } else if l.len() >= 2 && l[0] == '[' && l.last() == ']' {
        let body = l.subrange(1, l.len() - 1);
        let g = match split_once(body, seq![':']) {
            Some((g, _)) => g,
            None => body,
        };
        IniState {
            inv: InventoryModel { hosts: st.inv.hosts, groups: ensure_group(st.inv.groups, g) },
            section: Some(body),
        }
    } else {
        match st.section {
            Some(cur) => if crate::text::ends_with(cur, vars_suffix()) {
                let g = cur.subrange(0, cur.len() - 5);
                match split_once(l, seq!['=']) {
                    Some((k, v)) => IniState {
                        inv: InventoryModel {
                            hosts: st.inv.hosts,
                            groups: set_group_var(st.inv.groups, g, trim(k), trim(v)),
                        },
                        section: st.section,
                    },
                    None => st,
                }
            } else if crate::text::ends_with(cur, children_suffix()) {
                let g = cur.subrange(0, cur.len() - 9);
                IniState {
                    inv: InventoryModel { hosts: st.inv.hosts, groups: add_child(st.inv.groups, g, l) },
                    section: st.section,
                }
            } else {
                IniState {
                    inv: place_hosts(st.inv, host_line(l).0, host_line(l).1, Some(cur)),
                    section: st.section,
                }
            },
            None => IniState {
                inv: place_hosts(st.inv, host_line(l).0, host_line(l).1, None),
                section: None,
            },
        }
    }
}

pub open spec fn empty_inventory() -> InventoryModel {
    InventoryModel { hosts: Seq::empty(), groups: Seq::empty() }
}

/// The parser's state after the given lines.
pub open spec fn ini_after(lines: Seq<Seq<char>>) -> IniState
    decreases lines.len(),
{
    if lines.len() == 0 {
        IniState { inv: empty_inventory(), section: None }
    } else {
        ini_step(ini_after(lines.drop_last()), lines.last())
    }
}

/// The inventory an INI text describes.
pub open spec fn parsed_inventory(content: Seq<char>) -> InventoryModel {
    ini_after(crate::text::split_char(content, '\n')).inv
}

impl Inventory {
    pub fn empty() -> (r: Inventory)
        ensures
            r@ == empty_inventory(),
    {
        let r = Inventory { hosts: Table::new(), groups: Table::new() };
        assert(r@.hosts =~= Seq::<(Seq<char>, Map<Seq<char>, Seq<char>>)>::empty());
        assert(r@.groups =~= Seq::<(Seq<char>, GroupModel)>::empty());
        r
    }

    fn ensure_group(&mut self, g: &Vec<char>)
        ensures
            final(self)@.hosts == old(self)@.hosts,
            final(self)@.groups == ensure_group(old(self)@.groups, g@),
    {
        if self.groups.position(g).is_none() {
            let name = string_of(g);
            let group = Group {
                name: string_of(g),
                hosts: Vec::new(),
                children: Vec::new(),
                vars: StrMap::new(),
            };
            proof {
                assert(group@.hosts =~= Seq::<Seq<char>>::empty());
                assert(group@.children =~= Seq::<Seq<char>>::empty());
            }
            self.groups.insert(name, group);
            assert(self@.groups =~= ensure_group(old(self)@.groups, g@));
        }
    }

    fn add_host(&mut self, name: &Vec<char>, vars: &StrMap)
        ensures
            final(self)@.groups == old(self)@.groups,
            final(self)@.hosts == add_host(old(self)@.hosts, name@, vars@),
    {
        match self.hosts.position(name) {
            Some(i) => {
                let (k, mut h) = self.hosts.take_at(i);
                h.vars.extend(vars);
                self.hosts.restore(i, k, h);
                proof {
                    lemma_key_index(old(self)@.hosts, name@);
                    lemma_remove_insert(old(self)@.hosts, i as int, (k@, h@));
                }
            },
            None => {
                let h = Host { name: string_of(name), vars: vars.duplicate() };
                self.hosts.insert(string_of(name), h);
                proof {
                    lemma_key_index(old(self)@.hosts, name@);
                }
                assert(self@.hosts =~= add_host(old(self)@.hosts, name@, vars@));
            },
        }
    }

    fn add_member(&mut self, g: &Vec<char>, h: &Vec<char>)
        ensures
            final(self)@.hosts == old(self)@.hosts,
            final(self)@.groups == add_member(old(self)@.groups, g@, h@),
    {
        match self.groups.position(g) {
            Some(i) => {
                let (k, mut group) = self.groups.take_at(i);
                let ghost members = group@.hosts;
                let mut j: usize = 0;
                let mut found = false;
                while j < group.hosts.len()
                    invariant
                        j <= group.hosts@.len(),
                        members == group.hosts@.map_values(|x: String| x@),
                        found == exists|m: int| 0 <= m < j && members[m] == h@,
                    decreases group.hosts.len() - j,
                {
                    assert(members[j as int] == group.hosts@[j as int]@);
                    if chars_eq(&chars_of(group.hosts[j].as_str()), h) {
                        found = true;
                    }
                    j = j + 1;
                }
                proof {
                    if members.contains(h@) {
                        let m = choose|m: int| 0 <= m < members.len() && members[m] == h@;
                        assert(found);
                    }
                }
                let ghost old_group = group@;
                if !found {
                    group.hosts.push(string_of(h));
                    assert(group@.hosts =~= members.push(h@));
                }
                self.groups.restore(i, k, group);
                proof {
                    lemma_key_index(old(self)@.groups, g@);
                    if !found {
                        lemma_remove_insert(old(self)@.groups, i as int, (k@, group@));
                        assert(group@ == GroupModel { hosts: members.push(h@), ..old_group });
                    } else {
                        lemma_remove_insert(old(self)@.groups, i as int, (k@, group@));
                        assert(old(self)@.groups.update(i as int, (k@, group@)) =~= old(self)@.groups);
                    }
                }
            },
            None => {},
        }
    }

    fn set_group_var(&mut self, g: &Vec<char>, key: &Vec<char>, value: &Vec<char>)
        ensures
            final(self)@.hosts == old(self)@.hosts,
            final(self)@.groups == set_group_var(old(self)@.groups, g@, key@, value@),
    {
        match self.groups.position(g) {
            Some(i) => {
                let (k, mut group) = self.groups.take_at(i);
                let ghost old_group = group@;
                group.vars.put_chars(key, value);
                self.groups.restore(i, k, group);
                proof {
                    lemma_key_index(old(self)@.groups, g@);
                    lemma_remove_insert(old(self)@.groups, i as int, (k@, group@));
                    assert(group@ == GroupModel { vars: old_group.vars.insert(key@, value@), ..old_group });
                }
            },
            None => {},
        }
    }

    fn add_child(&mut self, g: &Vec<char>, c: &Vec<char>)
        ensures
            final(self)@.hosts == old(self)@.hosts,
            final(self)@.groups == add_child(old(self)@.groups, g@, c@),
    {
        match self.groups.position(g) {
            Some(i) => {
                let (k, mut group) = self.groups.take_at(i);
                let ghost kids = group@.children;
                let ghost old_group = group@;
                group.children.push(string_of(c));
                assert(group@.children =~= kids.push(c@));
                self.groups.restore(i, k, group);
                proof {
                    lemma_key_index(old(self)@.groups, g@);
                    lemma_remove_insert(old(self)@.groups, i as int, (k@, group@));
                    assert(group@ == GroupModel { children: kids.push(c@), ..old_group });
                }
            },
            None => {},
        }
    }

    fn place_hosts(&mut self, names: &Vec<Vec<char>>, vars: &StrMap, group: &Option<Vec<char>>)
        ensures
            final(self)@ == place_hosts(
                old(self)@,
                names@.map_values(|n: Vec<char>| n@),
                vars@,
                match group {
                    Some(g) => Some(g@),
                    None => None,
                },
            ),
    {
        let ghost all = names@.map_values(|n: Vec<char>| n@);
        let ghost gm = match group {
            Some(g) => Some(g@),
            None => None::<Seq<char>>,
        };
        let ug: Vec<char> = vec!['u', 'n', 'g', 'r', 'o', 'u', 'p', 'e', 'd'];
        assert(ug@ =~= ungrouped());
        let mut i: usize = 0;
        assert(all.take(0) =~= Seq::<Seq<char>>::empty());
        while i < names.len()
            invariant
                i <= names@.len(),
                all == names@.map_values(|n: Vec<char>| n@),
                ug@ == ungrouped(),
                gm == match group {
                    Some(g) => Some(g@),
                    None => None::<Seq<char>>,
                },
                self@ == place_hosts(old(self)@, all.take(i as int), vars@, gm),
            decreases names.len() - i,
        {
            assert(all.take(i + 1).drop_last() =~= all.take(i as int));
            self.add_host(&names[i], vars);
            match group {
                Some(g) => self.add_member(g, &names[i]),
                None => {
                    self.ensure_group(&ug);
                    self.add_member(&ug, &names[i]);
                },
            }
            proof {
                let t = all.take(i + 1);
                assert(t.last() == names@[i as int]@);
            }
            i = i + 1;
        }
        assert(all.take(names@.len() as int) =~= all);
    }

    fn apply_line(&mut self, section: &mut Option<Vec<char>>, raw: &Vec<char>)
        ensures
            ini_step(
                IniState {
                    inv: old(self)@,
                    section: match *old(section) {
                        Some(c) => Some(c@),
                        None => None,
                    },
                },
                raw@,
            ) == (IniState {
                inv: final(self)@,
                section: match *final(section) {
                    Some(c) => Some(c@),
                    None => None,
                },
            }),
    {
        let l = trimmed(raw);
        if l.len() == 0 || l[0] == '#' || l[0] == ';' {
            return;
        }
        if l.len() >= 2 && l[0] == '[' && l[l.len() - 1] == ']' {
            let body = slice(&l, 1, l.len() - 1);
            let colon: Vec<char> = vec![':'];
            assert(colon@ =~= seq![':']);
            let g = match split_first(&body, &colon) {
                Some((g, _)) => g,
                None => body.clone(),
            };
            self.ensure_group(&g);
            *section = Some(body);
            return;
        }
        match section {
            Some(cur) => {
                let vs: Vec<char> = vec![':', 'v', 'a', 'r', 's'];
                let cs: Vec<char> = vec![':', 'c', 'h', 'i', 'l', 'd', 'r', 'e', 'n'];
                assert(vs@ =~= vars_suffix());
                assert(cs@ =~= children_suffix());
                if has_suffix(cur, &vs) {
                    let g = slice(cur, 0, cur.len() - 5);
                    let eq: Vec<char> = vec!['='];
                    assert(eq@ =~= seq!['=']);
                    match split_first(&l, &eq) {
                        Some((k, v)) => self.set_group_var(&g, &trimmed(&k), &trimmed(&v)),
                        None => {},
                    }
                } else if has_suffix(cur, &cs) {
                    let g = slice(cur, 0, cur.len() - 9);
                    self.add_child(&g, &l);
                } else {
                    let ws = split_words(&l);
                    let pattern = if ws.len() > 0 {
                        ws[0].clone()
                    } else {
                        Vec::new()
                    };
                    proof {
                        if ws@.len() > 0 {
                            assert(pattern@ == ws@[0]@);
                        } else {
                            assert(pattern@ =~= Seq::<char>::empty());
                        }
                    }
                    let names = expand_host_pattern(&pattern);
                    let vars = host_line_vars(&ws);
                    let grp = Some(cur.clone());
                    assert(cur@ == grp.unwrap()@);
                    self.place_hosts(&names, &vars, &grp);
                }
            },
            None => {
                let ws = split_words(&l);
                let pattern = if ws.len() > 0 {
                    ws[0].clone()
                } else {
                    Vec::new()
                };
                proof {
                    if ws@.len() > 0 {
                        assert(pattern@ == ws@[0]@);
                    } else {
                        assert(pattern@ =~= Seq::<char>::empty());
                    }
                }
                let names = expand_host_pattern(&pattern);
                let vars = host_line_vars(&ws);
                self.place_hosts(&names, &vars, &None);
            },
        }
    }

    /// Parses the INI dialect: `[group]`, `[group:vars]` and `[group:children]`
    /// sections, host lines `PATTERN [k=v ...]`, comments and blank lines.
    pub fn from_ini(content: &str) -> (r: Inventory)
        ensures
            r@ == parsed_inventory(content@),
    {
        let text = chars_of(content);
        let lines = crate::text::split_on(&text, '\n');
        let ghost all = crate::text::split_char(content@, '\n');
        let mut inv = Inventory::empty();
        let mut section: Option<Vec<char>> = None;
        let mut i: usize = 0;
        assert(all.take(0) =~= Seq::<Seq<char>>::empty());
        while i < lines.len()
            invariant
                i <= lines@.len(),
                lines@.len() == all.len(),
                forall|k: int| 0 <= k < lines@.len() ==> #[trigger] lines@[k]@ == all[k],
                ini_after(all.take(i as int)) == (IniState {
                    inv: inv@,
                    section: match section {
                        Some(c) => Some(c@),
                        None => None,
                    },
                }),
            decreases lines.len() - i,
        {
            assert(all.take(i + 1).drop_last() =~= all.take(i as int));
            inv.apply_line(&mut section, &lines[i]);
            i = i + 1;
        }
        assert(all.take(all.len() as int) =~= all);
        inv
    }
}

// --------------------------------------------------------------- queries

/// `acc` followed by the items of `xs` it does not hold yet, in order.
pub open spec fn add_new(acc: Seq<Seq<char>>, xs: Seq<Seq<char>>) -> Seq<Seq<char>>
    decreases xs.len(),
{
    if xs.len() == 0 {
        acc
    } else {
        let a = add_new(acc, xs.drop_last());
        if a.contains(xs.last()) {
            a
        } else {
            a.push(xs.last())
        }
    }
}

/// The child groups of group `g`; none where it does not exist.
pub open spec fn children_of(gs: Seq<(Seq<char>, GroupModel)>, g: Seq<char>) -> Seq<Seq<char>> {
    match key_index(gs, g) {
        Some(i) => gs[i].1.children,
        None => Seq::empty(),
    }
}

/// The member hosts of group `g`; none where it does not exist.
pub open spec fn members_of(gs: Seq<(Seq<char>, GroupModel)>, g: Seq<char>) -> Seq<Seq<char>> {
    match key_index(gs, g) {
        Some(i) => gs[i].1.hosts,
        None => Seq::empty(),
    }
}

/// `seen` extended by the children of its first `j` groups.
pub open spec fn widen_upto(gs: Seq<(Seq<char>, GroupModel)>, seen: Seq<Seq<char>>, j: int) -> Seq<
    Seq<char>,
>
    decreases j,
{
    if j <= 0 || j > seen.len() {
        seen
    } else {
        add_new(widen_upto(gs, seen, j - 1), children_of(gs, seen[j - 1]))
    }
}

/// The groups reached from `g` through at most `n` child links, each once,
/// in the order they are reached.
pub open spec fn reach_list(gs: Seq<(Seq<char>, GroupModel)>, g: Seq<char>, n: nat) -> Seq<
    Seq<char>,
>
    decreases n,
{
    if n == 0 {
        seq![g]
    } else {
        let prev = reach_list(gs, g, (n - 1) as nat);
        widen_upto(gs, prev, prev.len() as int)
    }
}

/// The member hosts of the first `j` of `groups`, each once.
pub open spec fn hosts_of_groups(
    gs: Seq<(Seq<char>, GroupModel)>,
    groups: Seq<Seq<char>>,
    j: int,
) -> Seq<Seq<char>>
    decreases j,
{
    if j <= 0 || j > groups.len() {
        Seq::empty()
    } else {
        add_new(hosts_of_groups(gs, groups, j - 1), members_of(gs, groups[j - 1]))
    }
}

/// The hosts of group `g` and of the groups below it, each once. As many
/// rounds of child links are followed as there are groups, which reaches
/// every descendant; a cycle of child links adds nothing twice.
pub open spec fn group_hosts(gs: Seq<(Seq<char>, GroupModel)>, g: Seq<char>) -> Seq<Seq<char>> {
    if key_index(gs, g) is None {
        Seq::empty()
    } else {
        let rs = reach_list(gs, g, gs.len());
        hosts_of_groups(gs, rs, rs.len() as int)
    }
}

/// The groups (in table order) that list host `h` or hold it through a child.
pub open spec fn host_groups_upto(gs: Seq<(Seq<char>, GroupModel)>, h: Seq<char>, n: int) -> Seq<
    Seq<char>,
>
    decreases n,
{
    if n <= 0 || n > gs.len() {
        Seq::empty()
    } else {
        let r = host_groups_upto(gs, h, n - 1);
        if gs[n - 1].1.hosts.contains(h) || group_hosts(gs, gs[n - 1].0).contains(h) {
            r.push(gs[n - 1].0)
        } else {
            r
        }
    }
}

pub open spec fn host_groups(gs: Seq<(Seq<char>, GroupModel)>, h: Seq<char>) -> Seq<Seq<char>> {
    host_groups_upto(gs, h, gs.len() as int)
}

/// The variables of the first `n` of `names`' groups; an earlier group's
/// value for a key wins.
pub open spec fn layered_vars(gs: Seq<(Seq<char>, GroupModel)>, names: Seq<Seq<char>>, n: int) -> Map<
    Seq<char>,
    Seq<char>,
>
    decreases n,
{
    if n <= 0 || n > names.len() {
        Map::empty()
    } else {
        let m = layered_vars(gs, names, n - 1);
        match key_index(gs, names[n - 1]) {
            Some(i) => gs[i].1.vars.union_prefer_right(m),
            None => m,
        }
    }
}

/// How many of the first `n` of `names`, other than `g`, lie below group `g`.
pub open spec fn below_count(
    gs: Seq<(Seq<char>, GroupModel)>,
    names: Seq<Seq<char>>,
    g: Seq<char>,
    n: int,
) -> nat
    decreases n,
{
    if n <= 0 || n > names.len() {
        0
    } else {
        below_count(gs, names, g, n - 1) + if names[n - 1] != g && reach_list(
            gs,
            g,
            gs.len(),
        ).contains(names[n - 1]) {
            1nat
        } else {
            0nat
        }
    }
}

/// The first `n` of `names` that have exactly `c` of `names` below them, in order.
pub open spec fn with_below(
    gs: Seq<(Seq<char>, GroupModel)>,
    names: Seq<Seq<char>>,
    c: nat,
    n: int,
) -> Seq<Seq<char>>
    decreases n,
{
    if n <= 0 || n > names.len() {
        Seq::empty()
    } else {
        let r = with_below(gs, names, c, n - 1);
        if below_count(gs, names, names[n - 1], names.len() as int) == c {
            r.push(names[n - 1])
        } else {
            r
        }
    }
}

/// `names` ordered by how many of them lie below each (fewest first, table
/// order among equals), for the counts below `c`: a group comes before every
/// group above it.
pub open spec fn below_first(gs: Seq<(Seq<char>, GroupModel)>, names: Seq<Seq<char>>, c: int) -> Seq<
    Seq<char>,
>
    decreases c,
{
    if c <= 0 {
        Seq::empty()
    } else {
        below_first(gs, names, c - 1) + with_below(gs, names, (c - 1) as nat, names.len() as int)
    }
}

/// The effective variables of host `h`: its groups' variables, a group
/// below another winning over it (and an earlier group in table order
/// among the rest), then its own.
pub open spec fn host_vars(inv: InventoryModel, h: Seq<char>) -> Map<Seq<char>, Seq<char>> {
    let held = host_groups(inv.groups, h);
    let names = below_first(inv.groups, held, held.len() + 1int);
    let base = layered_vars(inv.groups, names, names.len() as int);
    match key_index(inv.hosts, h) {
        Some(i) => base.union_prefer_right(inv.hosts[i].1),
        None => base,
    }
}

pub fn holds(v: &Vec<String>, x: &Vec<char>) -> (r: bool)
    ensures
        r == v@.map_values(|s: String| s@).contains(x@),
{
    let ghost m = v@.map_values(|s: String| s@);
    let mut j: usize = 0;
    while j < v.len()
        invariant
            j <= v@.len(),
            m == v@.map_values(|s: String| s@),
            forall|k: int| 0 <= k < j ==> m[k] != x@,
        decreases v.len() - j,
    {
        assert(m[j as int] == v@[j as int]@);
        if chars_eq(&chars_of(v[j].as_str()), x) {
            return true;
        }
        j = j + 1;
    }
    proof {
        if m.contains(x@) {
            let k = choose|k: int| 0 <= k < m.len() && m[k] == x@;
        }
    }
    false
}

pub fn push_new(acc: &mut Vec<String>, xs: &Vec<String>)
    ensures
        final(acc)@.map_values(|s: String| s@) == add_new(
            old(acc)@.map_values(|s: String| s@),
            xs@.map_values(|s: String| s@),
        ),
{
    let ghost a0 = old(acc)@.map_values(|s: String| s@);
    let ghost all = xs@.map_values(|s: String| s@);
    let mut i: usize = 0;
    assert(all.take(0) =~= Seq::<Seq<char>>::empty());
    while i < xs.len()
        invariant
            i <= xs@.len(),
            a0 == old(acc)@.map_values(|s: String| s@),
            all == xs@.map_values(|s: String| s@),
            acc@.map_values(|s: String| s@) == add_new(a0, all.take(i as int)),
        decreases xs.len() - i,
    {
        assert(all.take(i + 1).drop_last() =~= all.take(i as int));
        assert(all.take(i + 1).last() == xs@[i as int]@);
        let x = chars_of(xs[i].as_str());
        if !holds(acc, &x) {
            let ghost before = acc@.map_values(|s: String| s@);
            acc.push(xs[i].clone());
            assert(acc@.map_values(|s: String| s@) =~= before.push(x@));
        }
        i = i + 1;
    }
    assert(all.take(xs@.len() as int) =~= all);
}

impl Inventory {
    fn children_list(&self, g: &Vec<char>) -> (r: Vec<String>)
        ensures
            r@.map_values(|s: String| s@) == children_of(self@.groups, g@),
    {
        match self.groups.position(g) {
            Some(i) => {
                let (_, group) = self.groups.at(i);
                group.children.clone()
            },
            None => {
                let r: Vec<String> = Vec::new();
                assert(r@.map_values(|s: String| s@) =~= Seq::<Seq<char>>::empty());
                r
            },
        }
    }

    fn members_list(&self, g: &Vec<char>) -> (r: Vec<String>)
        ensures
            r@.map_values(|s: String| s@) == members_of(self@.groups, g@),
    {
        match self.groups.position(g) {
            Some(i) => {
                let (_, group) = self.groups.at(i);
                group.hosts.clone()
            },
            None => {
                let r: Vec<String> = Vec::new();
                assert(r@.map_values(|s: String| s@) =~= Seq::<Seq<char>>::empty());
                r
            },
        }
    }

    /// Every host name, in table order.
    pub fn get_all_hosts(&self) -> (r: Vec<String>)
        ensures
            r@.map_values(|s: String| s@) == self@.hosts.map_values(
                |e: (Seq<char>, Map<Seq<char>, Seq<char>>)| e.0,
            ),
            forall|a: int, b: int| 0 <= a < b < r@.len() ==> r@[a]@ != r@[b]@,
    {
        self.hosts.keys()
    }

    /// The groups reached from `g` through child links (itself first), each once.
    fn reach_groups(&self, g: &Vec<char>) -> (r: Vec<String>)
        ensures
            r@.map_values(|s: String| s@) == reach_list(self@.groups, g@, self@.groups.len()),
    {
        let mut seen: Vec<String> = vec![string_of(&g)];
        assert(seen@.map_values(|s: String| s@) =~= seq![g@]);
        let rounds = self.groups.len();
        let mut n: usize = 0;
        while n < rounds
            invariant
                n <= rounds,
                rounds == self@.groups.len(),
                seen@.map_values(|s: String| s@) == reach_list(self@.groups, g@, n as nat),
            decreases rounds - n,
        {
            let cur = seen.clone();
            assert(cur@ == seen@);
            let ghost prev = cur@.map_values(|s: String| s@);
            let mut j: usize = 0;
            while j < cur.len()
                invariant
                    j <= cur@.len(),
                    prev == cur@.map_values(|s: String| s@),
                    prev == reach_list(self@.groups, g@, n as nat),
                    seen@.map_values(|s: String| s@) == widen_upto(self@.groups, prev, j as int),
                decreases cur.len() - j,
            {
                let name = chars_of(cur[j].as_str());
                assert(prev[j as int] == name@);
                let kids = self.children_list(&name);
                push_new(&mut seen, &kids);
                j = j + 1;
            }
            n = n + 1;
        }
        seen
    }

    /// The hosts of a group and of the groups below it, each once; none where
    /// the group does not exist.
    pub fn get_group_hosts(&self, group_name: &str) -> (r: Vec<String>)
        ensures
            r@.map_values(|s: String| s@) == group_hosts(self@.groups, group_name@),
    {
        let g = chars_of(group_name);
        if self.groups.position(&g).is_none() {
            let r: Vec<String> = Vec::new();
            assert(r@.map_values(|s: String| s@) =~= Seq::<Seq<char>>::empty());
            return r;
        }
        let seen = self.reach_groups(&g);
        let ghost rs = seen@.map_values(|s: String| s@);
        let mut hosts: Vec<String> = Vec::new();
        let mut j: usize = 0;
        assert(hosts@.map_values(|s: String| s@) =~= Seq::<Seq<char>>::empty());
        while j < seen.len()
            invariant
                j <= seen@.len(),
                rs == seen@.map_values(|s: String| s@),
                hosts@.map_values(|s: String| s@) == hosts_of_groups(self@.groups, rs, j as int),
            decreases seen.len() - j,
        {
            let name = chars_of(seen[j].as_str());
            assert(rs[j as int] == name@);
            let ms = self.members_list(&name);
            push_new(&mut hosts, &ms);
            j = j + 1;
        }
        hosts
    }

    /// The groups that hold a host, directly or through a child group, in table order.
    pub fn get_host_groups(&self, host_name: &str) -> (r: Vec<String>)
        ensures
            r@.map_values(|s: String| s@) == host_groups(self@.groups, host_name@),
    {
        let h = chars_of(host_name);
        let mut r: Vec<String> = Vec::new();
        let mut i: usize = 0;
        assert(r@.map_values(|s: String| s@) =~= Seq::<Seq<char>>::empty());
        while i < self.groups.len()
            invariant
                i <= self@.groups.len(),
                h@ == host_name@,
                r@.map_values(|s: String| s@) == host_groups_upto(self@.groups, h@, i as int),
            decreases self@.groups.len() - i,
        {
            let (name, group) = self.groups.at(i);
            let direct = holds(&group.hosts, &h);
            let hit = if direct {
                true
            } else {
                let below = self.get_group_hosts(name.as_str());
                holds(&below, &h)
            };
            if hit {
                let ghost before = r@.map_values(|s: String| s@);
                r.push(name.clone());
                assert(r@.map_values(|s: String| s@) =~= before.push(name@));
            }
            i = i + 1;
        }
        r
    }

    fn count_below(&self, names: &Vec<String>, g: &Vec<char>) -> (r: usize)
        ensures
            r == below_count(
                self@.groups,
                names@.map_values(|s: String| s@),
                g@,
                names@.len() as int,
            ),
    {
        let reach = self.reach_groups(g);
        let ghost ns = names@.map_values(|s: String| s@);
        let mut count: usize = 0;
        let mut i: usize = 0;
        while i < names.len()
            invariant
                i <= names@.len(),
                ns == names@.map_values(|s: String| s@),
                reach@.map_values(|s: String| s@) == reach_list(self@.groups, g@, self@.groups.len()),
                count == below_count(self@.groups, ns, g@, i as int),
                count <= i,
            decreases names.len() - i,
        {
            let n = chars_of(names[i].as_str());
            assert(ns[i as int] == n@);
            if !chars_eq(&n, g) && holds(&reach, &n) {
                count = count + 1;
            }
            i = i + 1;
        }
        count
    }

    /// A host's groups, each after every group below it.
    fn groups_below_first(&self, held: &Vec<String>) -> (r: Vec<String>)
        ensures
            r@.map_values(|s: String| s@) == below_first(
                self@.groups,
                held@.map_values(|s: String| s@),
                held@.len() + 1int,
            ),
    {
        let ghost ns = held@.map_values(|s: String| s@);
        let mut counts: Vec<usize> = Vec::new();
        let mut i: usize = 0;
        while i < held.len()
            invariant
                i <= held@.len(),
                ns == held@.map_values(|s: String| s@),
                counts@.len() == i,
                forall|k: int| 0 <= k < i ==> #[trigger] counts@[k] == below_count(self@.groups, ns, ns[k], ns.len() as int),
            decreases held.len() - i,
        {
            let n = chars_of(held[i].as_str());
            assert(ns[i as int] == n@);
            counts.push(self.count_below(held, &n));
            i = i + 1;
        }
        let mut r: Vec<String> = Vec::new();
        let mut c: u128 = 0;
        let total: u128 = held.len() as u128 + 1;
        assert(r@.map_values(|s: String| s@) =~= below_first(self@.groups, ns, 0));
        while c < total
            invariant
                total == held@.len() + 1,
                c <= total,
                ns == held@.map_values(|s: String| s@),
                counts@.len() == held@.len(),
                forall|k: int| 0 <= k < held@.len() ==> #[trigger] counts@[k] == below_count(self@.groups, ns, ns[k], ns.len() as int),
                r@.map_values(|s: String| s@) == below_first(self@.groups, ns, c as int),
            decreases total - c,
        {
            let ghost before = r@.map_values(|s: String| s@);
            let mut j: usize = 0;
            assert(with_below(self@.groups, ns, c as nat, 0) =~= Seq::<Seq<char>>::empty());
            assert(before + with_below(self@.groups, ns, c as nat, 0) =~= before);
            while j < held.len()
                invariant
                    j <= held@.len(),
                    ns == held@.map_values(|s: String| s@),
                    counts@.len() == held@.len(),
                    forall|k: int| 0 <= k < held@.len() ==> #[trigger] counts@[k] == below_count(self@.groups, ns, ns[k], ns.len() as int),
                    r@.map_values(|s: String| s@) == before + with_below(self@.groups, ns, c as nat, j as int),
                decreases held.len() - j,
            {
                if counts[j] as u128 == c {
                    let ghost prev = r@.map_values(|s: String| s@);
                    r.push(held[j].clone());
                    assert(r@.map_values(|s: String| s@) =~= prev.push(ns[j as int]));
                }
                j = j + 1;
            }
            c = c + 1;
        }
        r
    }

    /// A host's effective variables: those of its groups (a group below
    /// another winning over it, an earlier group in table order among the
    /// rest), then its own over them.
    pub fn get_host_vars(&self, host_name: &str) -> (r: StrMap)
        ensures
            r@ == host_vars(self@, host_name@),
    {
        let held = self.get_host_groups(host_name);
        let groups = self.groups_below_first(&held);
        let ghost names = groups@.map_values(|s: String| s@);
        let mut vars = StrMap::new();
        let mut i: usize = 0;
        assert(vars@ =~= layered_vars(self@.groups, names, 0));
        while i < groups.len()
            invariant
                i <= groups@.len(),
                names == groups@.map_values(|s: String| s@),
                vars@ == layered_vars(self@.groups, names, i as int),
            decreases groups.len() - i,
        {
            let name = chars_of(groups[i].as_str());
            assert(names[i as int] == name@);
            match self.groups.position(&name) {
                Some(k) => {
                    let (_, group) = self.groups.at(k);
                    let mut merged = group.vars.duplicate();
                    merged.extend(&vars);
                    vars = merged;
                },
                None => {},
            }
            i = i + 1;
        }
        match self.hosts.get(host_name) {
            Some(host) => vars.extend(&host.vars),
            None => {},
        }
        vars
    }
}

impl Default for Inventory {
    fn default() -> (r: Inventory)
        ensures
            r@ == empty_inventory(),
    {
        Inventory::empty()
    }
}
} // verus!
