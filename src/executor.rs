//! The play executor's decisions: which hosts a play targets, which tasks run,
//! which module a task selects and with what arguments, and how results,
//! registered variables and handler notifications accumulate per host.
//! Connecting and running modules is I/O and happens outside the library,
//! which hands each step's outcome back to a `HostRun`.
use vstd::prelude::*;
use crate::bridge::{regex_compiles, regex_is_match, regex_matched, regex_valid};
use crate::inventory::{holds, key_index, Inventory, InventoryModel};
use crate::text::{
    chars_eq, chars_of, concat3, contains, find_from, has, join, lemma_split_join, replace_all,
    replaced, split_char,
    split_on, string_of, trim, trimmed,
};
use crate::vars::StrMap;
use crate::inventory::add_new;
use crate::modules::{ModuleArgs, ModuleResult};
use crate::playbook::{ArgValue, ModuleValue, Play, Task};
use crate::template::{eval_when, render, rendered, when_holds};
use crate::words::{
    m_command, m_command_chars, m_shell, m_shell_chars, m_copy, m_copy_chars, m_file, m_file_chars, m_template, m_template_chars, m_apt, m_apt_chars, m_service, m_service_chars, m_lineinfile, m_lineinfile_chars, m_raw, m_raw_chars, m_script, m_script_chars, m_yum, m_yum_chars, m_dnf, m_dnf_chars, m_pip, m_pip_chars, m_user, m_user_chars, m_group, m_group_chars, w_raw_arg, w_raw_arg_chars, w_true, w_true_chars,
    w_inventory_hostname, w_inventory_hostname_chars, w_ansible_host, w_ansible_host_chars,
    w_dot_stdout, w_dot_stdout_chars, w_dot_stderr, w_dot_stderr_chars, w_dot_rc, w_dot_rc_chars,
    w_dot_changed, w_dot_changed_chars, w_dot_failed, w_dot_failed_chars,
    w_all, w_all_chars, w_always, w_always_chars, w_dot_star, w_dot_star_chars, w_localhost,
    w_localhost_chars, w_regex_end, w_regex_end_chars, w_regex_start, w_regex_start_chars, w_star,
    w_star_chars,
};

verus! {

/// The names held by a list of strings.
pub open spec fn names(v: Seq<String>) -> Seq<Seq<char>> {
    v.map_values(|s: String| s@)
}

/// Runs plays against an inventory, with the invocation's options.
#[derive(Debug)]
pub struct Executor {
    inventory: Inventory,
    extra_vars: StrMap,
    check_mode: bool,
    diff_mode: bool,
    forks: usize,
    tags: Vec<String>,
    skip_tags: Vec<String>,
    limit: Option<String>,
}

impl Executor {
    pub closed spec fn inventory_model(&self) -> InventoryModel {
        self.inventory@
    }

    pub closed spec fn extra(&self) -> Map<Seq<char>, Seq<char>> {
        self.extra_vars@
    }

    pub closed spec fn in_check_mode(&self) -> bool {
        self.check_mode
    }

    pub closed spec fn in_diff_mode(&self) -> bool {
        self.diff_mode
    }

    pub closed spec fn fork_count(&self) -> usize {
        self.forks
    }

    pub closed spec fn only_tags(&self) -> Seq<Seq<char>> {
        names(self.tags@)
    }

    pub closed spec fn skipped_tags(&self) -> Seq<Seq<char>> {
        names(self.skip_tags@)
    }

    pub closed spec fn limit_pattern(&self) -> Option<Seq<char>> {
        match self.limit {
            Some(l) => Some(l@),
            None => None,
        }
    }

    /// An executor with no extra variables, no tag filter, no limit, five
    /// forks, and check and diff modes off.
    pub fn new(inventory: Inventory) -> (r: Executor)
        ensures
            r.inventory_model() == inventory@,
            r.extra() == Map::<Seq<char>, Seq<char>>::empty(),
            !r.in_check_mode() && !r.in_diff_mode(),
            r.fork_count() == 5,
            r.only_tags().len() == 0 && r.skipped_tags().len() == 0,
            r.limit_pattern() is None,
    {
        let r = Executor {
            inventory,
            extra_vars: StrMap::new(),
            check_mode: false,
            diff_mode: false,
            forks: 5,
            tags: Vec::new(),
            skip_tags: Vec::new(),
            limit: None,
        };
        r
    }

    /// The extra variables, the highest layer of every host's scope.
    pub fn with_vars(self, vars: StrMap) -> (r: Executor)
        ensures
            r.extra() == vars@,
            r.inventory_model() == self.inventory_model(),
            r.in_check_mode() == self.in_check_mode() && r.in_diff_mode() == self.in_diff_mode(),
            r.fork_count() == self.fork_count(),
            r.only_tags() == self.only_tags() && r.skipped_tags() == self.skipped_tags(),
            r.limit_pattern() == self.limit_pattern(),
    {
        let mut r = self;
        r.extra_vars = vars;
        r
    }

    pub fn check_mode(self, enabled: bool) -> (r: Executor)
        ensures
            r.in_check_mode() == enabled,
            r.extra() == self.extra(),
            r.inventory_model() == self.inventory_model(),
            r.in_diff_mode() == self.in_diff_mode(),
            r.fork_count() == self.fork_count(),
            r.only_tags() == self.only_tags() && r.skipped_tags() == self.skipped_tags(),
            r.limit_pattern() == self.limit_pattern(),
    {
        let mut r = self;
        r.check_mode = enabled;
        r
    }

    pub fn diff_mode(self, enabled: bool) -> (r: Executor)
        ensures
            r.in_diff_mode() == enabled,
            r.extra() == self.extra(),
            r.inventory_model() == self.inventory_model(),
            r.in_check_mode() == self.in_check_mode(),
            r.fork_count() == self.fork_count(),
            r.only_tags() == self.only_tags() && r.skipped_tags() == self.skipped_tags(),
            r.limit_pattern() == self.limit_pattern(),
    {
        let mut r = self;
        r.diff_mode = enabled;
        r
    }

    /// The worker pool size; at least one.
    pub fn forks(self, n: usize) -> (r: Executor)
        ensures
            r.fork_count() == if n >= 1 {
                n
            } else {
                1
            },
            r.extra() == self.extra(),
            r.inventory_model() == self.inventory_model(),
            r.in_check_mode() == self.in_check_mode() && r.in_diff_mode() == self.in_diff_mode(),
            r.only_tags() == self.only_tags() && r.skipped_tags() == self.skipped_tags(),
            r.limit_pattern() == self.limit_pattern(),
    {
        let mut r = self;
        r.forks = if n >= 1 {
            n
        } else {
            1
        };
        r
    }

    /// Runs only tasks with one of these tags (or `always`); none means all.
    pub fn tags(self, tags: Vec<String>) -> (r: Executor)
        ensures
            r.only_tags() == names(tags@),
            r.extra() == self.extra(),
            r.inventory_model() == self.inventory_model(),
            r.in_check_mode() == self.in_check_mode() && r.in_diff_mode() == self.in_diff_mode(),
            r.fork_count() == self.fork_count(),
            r.skipped_tags() == self.skipped_tags(),
            r.limit_pattern() == self.limit_pattern(),
    {
        let mut r = self;
        r.tags = tags;
        r
    }

    /// Skips tasks with one of these tags.
    pub fn skip_tags(self, tags: Vec<String>) -> (r: Executor)
        ensures
            r.skipped_tags() == names(tags@),
            r.extra() == self.extra(),
            r.inventory_model() == self.inventory_model(),
            r.in_check_mode() == self.in_check_mode() && r.in_diff_mode() == self.in_diff_mode(),
            r.fork_count() == self.fork_count(),
            r.only_tags() == self.only_tags(),
            r.limit_pattern() == self.limit_pattern(),
    {
        let mut r = self;
        r.skip_tags = tags;
        r
    }

    /// Restricts every play to the hosts a limit pattern allows.
    pub fn limit(self, pattern: Option<String>) -> (r: Executor)
        ensures
            r.limit_pattern() == match pattern {
                Some(l) => Some(l@),
                None => None,
            },
            r.extra() == self.extra(),
            r.inventory_model() == self.inventory_model(),
            r.in_check_mode() == self.in_check_mode() && r.in_diff_mode() == self.in_diff_mode(),
            r.fork_count() == self.fork_count(),
            r.only_tags() == self.only_tags() && r.skipped_tags() == self.skipped_tags(),
    {
        let mut r = self;
        r.limit = pattern;
        r
    }

    pub fn get_forks(&self) -> (r: usize)
        ensures
            r == self.fork_count(),
    {
        self.forks
    }

    pub fn inventory(&self) -> (r: &Inventory)
        ensures
            r@ == self.inventory_model(),
    {
        &self.inventory
    }

    pub fn extra_vars(&self) -> (r: &StrMap)
        ensures
            r@ == self.extra(),
    {
        &self.extra_vars
    }
}

// ------------------------------------------------------------ tag filter

/// Whether the tag filter lets a task with `task_tags` run: a skipped tag
/// stops it; otherwise, where tags are selected, it needs one of them or `always`.
pub open spec fn tags_allow(
    only: Seq<Seq<char>>,
    skip: Seq<Seq<char>>,
    task_tags: Seq<Seq<char>>,
) -> bool {
    if skip.len() > 0 && exists|i: int| 0 <= i < task_tags.len() && skip.contains(task_tags[i]) {
        false
    } else if only.len() > 0 {
        task_tags.contains(w_always()) || exists|i: int|
            0 <= i < task_tags.len() && only.contains(task_tags[i])
    } else {
        true
    }
}

/// Whether any of `xs` is among `set`.
fn any_in(xs: &Vec<String>, set: &Vec<String>) -> (r: bool)
    ensures
        r == exists|i: int| 0 <= i < xs@.len() && names(set@).contains(names(xs@)[i]),
{
    let mut i: usize = 0;
    while i < xs.len()
        invariant
            i <= xs@.len(),
            forall|k: int| 0 <= k < i ==> !names(set@).contains(#[trigger] names(xs@)[k]),
        decreases xs.len() - i,
    {
        let x = chars_of(xs[i].as_str());
        assert(names(xs@)[i as int] == x@);
        if holds(set, &x) {
            return true;
        }
        i = i + 1;
    }
    false
}

impl Executor {
    /// Whether the tag filter lets a task run.
    pub fn should_run_task(&self, task: &crate::playbook::Task) -> (r: bool)
        ensures
            r == tags_allow(self.only_tags(), self.skipped_tags(), names(task.tags@)),
    {
        if self.skip_tags.len() > 0 && any_in(&task.tags, &self.skip_tags) {
            return false;
        }
        if self.tags.len() > 0 {
            let always = w_always_chars();
            if holds(&task.tags, &always) {
                return true;
            }
            return any_in(&task.tags, &self.tags);
        }
        true
    }
}

// --------------------------------------------------------- host patterns

pub open spec fn has_host(inv: InventoryModel, h: Seq<char>) -> bool {
    key_index(inv.hosts, h) is Some
}

/// Every host name, in table order.
pub open spec fn all_hosts(inv: InventoryModel) -> Seq<Seq<char>> {
    inv.hosts.map_values(|e: (Seq<char>, Map<Seq<char>, Seq<char>>)| e.0)
}

/// The items of `xs` that name hosts of the inventory, in order.
pub open spec fn known_hosts(inv: InventoryModel, xs: Seq<Seq<char>>) -> Seq<Seq<char>>
    decreases xs.len(),
{
    if xs.len() == 0 {
        Seq::empty()
    } else {
        let r = known_hosts(inv, xs.drop_last());
        if has_host(inv, xs.last()) {
            r.push(xs.last())
        } else {
            r
        }
    }
}

/// The host names of a comma-separated list that the inventory knows.
pub open spec fn listed_hosts(inv: InventoryModel, p: Seq<char>) -> Seq<Seq<char>> {
    known_hosts(inv, split_char(p, ',').map_values(|x: Seq<char>| trim(x)))
}

/// The hosts of group `g` and of the groups below it, where `g` exists.
pub open spec fn group_members(inv: InventoryModel, g: Seq<char>) -> Option<Seq<Seq<char>>> {
    match key_index(inv.groups, g) {
        Some(i) => Some(crate::inventory::group_hosts(inv.groups, g)),
        None => None,
    }
}

/// The hosts a play's host pattern names: `all`, `localhost`, a group's
/// hosts (with those of the groups below it), one host, or a
/// comma-separated list of known hosts.
pub open spec fn pattern_hosts(inv: InventoryModel, p: Seq<char>) -> Seq<Seq<char>> {
    if p == w_all() {
        all_hosts(inv)
    } else if p == w_localhost() {
        seq![w_localhost()]
    } else if group_members(inv, p) is Some {
        group_members(inv, p).unwrap()
    } else if has_host(inv, p) {
        seq![p]
    } else {
        listed_hosts(inv, p)
    }
}

/// The anchored regular expression for a glob with `*`.
pub open spec fn glob_regex(p: Seq<char>) -> Seq<char> {
    w_regex_start() + replace_all(p, w_star(), w_dot_star()) + w_regex_end()
}

/// The hosts, in table order, that a regular expression matches.
pub open spec fn matching_hosts(inv: InventoryModel, re: Seq<char>, n: int) -> Seq<Seq<char>>
    decreases n,
{
    if n <= 0 || n > inv.hosts.len() {
        Seq::empty()
    } else {
        let r = matching_hosts(inv, re, n - 1);
        if regex_matched(re, inv.hosts[n - 1].0) == Some(true) {
            r.push(inv.hosts[n - 1].0)
        } else {
            r
        }
    }
}

/// The hosts one component of a limit names: a group's members, the hosts a
/// glob with `*` matches, a comma-separated list, or one host.
pub open spec fn limit_component_hosts(inv: InventoryModel, p: Seq<char>) -> Seq<Seq<char>> {
    if group_members(inv, p) is Some {
        group_members(inv, p).unwrap()
    } else if contains(p, w_star()) && regex_valid(glob_regex(p)) {
        matching_hosts(inv, glob_regex(p), inv.hosts.len() as int)
    } else if contains(p, seq![',']) {
        listed_hosts(inv, p)
    } else if has_host(inv, p) {
        seq![p]
    } else {
        Seq::empty()
    }
}

/// The hosts named by the first `n` components of a limit that are
/// negated (`negated`) or not.
pub open spec fn limit_side(inv: InventoryModel, parts: Seq<Seq<char>>, n: int, negated: bool) -> Seq<
    Seq<char>,
>
    decreases n,
{
    if n <= 0 || n > parts.len() {
        Seq::empty()
    } else {
        let r = limit_side(inv, parts, n - 1, negated);
        let part = trim(parts[n - 1]);
        if part.len() == 0 {
            r
        } else if part[0] == '!' {
            if negated {
                r + limit_component_hosts(inv, part.drop_first())
            } else {
                r
            }
        } else if negated {
            r
        } else {
            r + limit_component_hosts(inv, part)
        }
    }
}

/// Whether a limit lets host `h` through: it is named by a component that is
/// not negated (any host, where those name none) and by no negated one.
pub open spec fn limit_allows(inv: InventoryModel, l: Seq<char>, h: Seq<char>) -> bool {
    let parts = split_char(l, ':');
    let inc = limit_side(inv, parts, parts.len() as int, false);
    let exc = limit_side(inv, parts, parts.len() as int, true);
    (if inc.len() == 0 {
        has_host(inv, h)
    } else {
        inc.contains(h)
    }) && !exc.contains(h)
}

/// The items of `xs` that a limit lets through, in order.
pub open spec fn limited(inv: InventoryModel, l: Seq<char>, xs: Seq<Seq<char>>) -> Seq<Seq<char>>
    decreases xs.len(),
{
    if xs.len() == 0 {
        Seq::empty()
    } else {
        let r = limited(inv, l, xs.drop_last());
        if limit_allows(inv, l, xs.last()) {
            r.push(xs.last())
        } else {
            r
        }
    }
}

/// The hosts a play targets: its pattern's hosts, through the limit where one is set.
pub open spec fn target_hosts(inv: InventoryModel, limit: Option<Seq<char>>, p: Seq<char>) -> Seq<
    Seq<char>,
> {
    match limit {
        Some(l) => limited(inv, l, pattern_hosts(inv, p)),
        None => pattern_hosts(inv, p),
    }
}

impl Executor {
    /// The items of `xs` that name hosts of the inventory.
    fn keep_known(&self, xs: &Vec<Vec<char>>) -> (r: Vec<String>)
        ensures
            names(r@) == known_hosts(self.inventory_model(), xs@.map_values(|x: Vec<char>| x@)),
    {
        let ghost all = xs@.map_values(|x: Vec<char>| x@);
        let mut r: Vec<String> = Vec::new();
        let mut i: usize = 0;
        assert(all.take(0) =~= Seq::<Seq<char>>::empty());
        assert(names(r@) =~= Seq::<Seq<char>>::empty());
        while i < xs.len()
            invariant
                i <= xs@.len(),
                all == xs@.map_values(|x: Vec<char>| x@),
                names(r@) == known_hosts(self.inventory_model(), all.take(i as int)),
            decreases xs.len() - i,
        {
            assert(all.take(i + 1).drop_last() =~= all.take(i as int));
            assert(all.take(i + 1).last() == xs@[i as int]@);
            if self.inventory.hosts.position(&xs[i]).is_some() {
                let ghost before = names(r@);
                r.push(string_of(&xs[i]));
                assert(names(r@) =~= before.push(xs@[i as int]@));
            }
            i = i + 1;
        }
        assert(all.take(xs@.len() as int) =~= all);
        r
    }

    fn listed(&self, p: &Vec<char>) -> (r: Vec<String>)
        ensures
            names(r@) == listed_hosts(self.inventory_model(), p@),
    {
        let parts = split_on(p, ',');
        let mut items: Vec<Vec<char>> = Vec::new();
        let mut i: usize = 0;
        while i < parts.len()
            invariant
                i <= parts@.len(),
                parts@.len() == split_char(p@, ',').len(),
                forall|k: int| 0 <= k < parts@.len() ==> #[trigger] parts@[k]@ == split_char(p@, ',')[k],
                items@.len() == i,
                forall|k: int| 0 <= k < i ==> #[trigger] items@[k]@ == trim(split_char(p@, ',')[k]),
            decreases parts.len() - i,
        {
            items.push(trimmed(&parts[i]));
            i = i + 1;
        }
        assert(items@.map_values(|x: Vec<char>| x@) =~= split_char(p@, ',').map_values(
            |x: Seq<char>| trim(x),
        ));
        self.keep_known(&items)
    }

    fn group_members_of(&self, g: &Vec<char>) -> (r: Option<Vec<String>>)
        ensures
            match r {
                Some(v) => group_members(self.inventory_model(), g@) == Some(names(v@)),
                None => group_members(self.inventory_model(), g@) is None,
            },
    {
        match self.inventory.groups.position(g) {
            Some(_) => {
                let name = string_of(g);
                Some(self.inventory.get_group_hosts(name.as_str()))
            },
            None => None,
        }
    }

    fn all_host_names(&self) -> (r: Vec<String>)
        ensures
            names(r@) == all_hosts(self.inventory_model()),
    {
        self.inventory.get_all_hosts()
    }

    /// The hosts a play's host pattern names.
    pub fn resolve_pattern(&self, pattern: &str) -> (r: Vec<String>)
        ensures
            names(r@) == pattern_hosts(self.inventory_model(), pattern@),
    {
        let p = chars_of(pattern);
        if chars_eq(&p, &w_all_chars()) {
            return self.all_host_names();
        }
        if chars_eq(&p, &w_localhost_chars()) {
            let r = vec![string_of(&w_localhost_chars())];
            assert(names(r@) =~= seq![w_localhost()]);
            return r;
        }
        match self.group_members_of(&p) {
            Some(v) => return v,
            None => {},
        }
        if self.inventory.hosts.position(&p).is_some() {
            let r = vec![string_of(&p)];
            assert(names(r@) =~= seq![p@]);
            return r;
        }
        self.listed(&p)
    }

    fn matching(&self, re: &Vec<char>) -> (r: Vec<String>)
        ensures
            names(r@) == matching_hosts(
                self.inventory_model(),
                re@,
                self.inventory_model().hosts.len() as int,
            ),
    {
        let mut r: Vec<String> = Vec::new();
        let mut i: usize = 0;
        assert(names(r@) =~= Seq::<Seq<char>>::empty());
        while i < self.inventory.hosts.len()
            invariant
                i <= self.inventory_model().hosts.len(),
                names(r@) == matching_hosts(self.inventory_model(), re@, i as int),
            decreases self.inventory_model().hosts.len() - i,
        {
            let (name, _) = self.inventory.hosts.at(i);
            let n = chars_of(name.as_str());
            if regex_is_match(re, &n) == Some(true) {
                let ghost before = names(r@);
                r.push(name.clone());
                assert(names(r@) =~= before.push(n@));
            }
            i = i + 1;
        }
        r
    }

    /// The hosts one component of a limit names.
    pub fn expand_limit_pattern(&self, pattern: &str) -> (r: Vec<String>)
        ensures
            names(r@) == limit_component_hosts(self.inventory_model(), pattern@),
    {
        let p = chars_of(pattern);
        self.expand_limit_chars(&p)
    }

    fn expand_limit_chars(&self, p: &Vec<char>) -> (r: Vec<String>)
        ensures
            names(r@) == limit_component_hosts(self.inventory_model(), p@),
    {
        match self.group_members_of(p) {
            Some(v) => return v,
            None => {},
        }
        if has(p, &w_star_chars()) {
            let body = replaced(p, &w_star_chars(), &w_dot_star_chars());
            let re = concat3(&w_regex_start_chars(), &body, &w_regex_end_chars());
            if regex_compiles(&re) {
                return self.matching(&re);
            }
        }
        let comma: Vec<char> = vec![','];
        assert(comma@ =~= seq![',']);
        if has(p, &comma) {
            return self.listed(p);
        }
        if self.inventory.hosts.position(p).is_some() {
            let r = vec![string_of(p)];
            assert(names(r@) =~= seq![p@]);
            return r;
        }
        let r: Vec<String> = Vec::new();
        assert(names(r@) =~= Seq::<Seq<char>>::empty());
        r
    }

    /// The hosts named by the limit's negated or plain components.
    fn limit_hosts(&self, l: &Vec<char>, negated: bool) -> (r: Vec<String>)
        ensures
            names(r@) == limit_side(
                self.inventory_model(),
                split_char(l@, ':'),
                split_char(l@, ':').len() as int,
                negated,
            ),
    {
        let parts = split_on(l, ':');
        let ghost ps = split_char(l@, ':');
        let mut r: Vec<String> = Vec::new();
        let mut i: usize = 0;
        assert(names(r@) =~= Seq::<Seq<char>>::empty());
        while i < parts.len()
            invariant
                i <= parts@.len(),
                ps == split_char(l@, ':'),
                parts@.len() == ps.len(),
                forall|k: int| 0 <= k < parts@.len() ==> #[trigger] parts@[k]@ == ps[k],
                names(r@) == limit_side(self.inventory_model(), ps, i as int, negated),
            decreases parts.len() - i,
        {
            let part = trimmed(&parts[i]);
            if part.len() > 0 {
                let is_neg = part[0] == '!';
                if is_neg == negated {
                    let target = if is_neg {
                        crate::text::slice(&part, 1, part.len())
                    } else {
                        part.clone()
                    };
                    proof {
                        if is_neg {
                            assert(target@ =~= part@.drop_first());
                        } else {
                            assert(target@ == part@);
                        }
                    }
                    let more = self.expand_limit_chars(&target);
                    let ghost before = names(r@);
                    let mut j: usize = 0;
                    while j < more.len()
                        invariant
                            j <= more@.len(),
                            names(r@) == before + names(more@).take(j as int),
                        decreases more.len() - j,
                    {
                        let ghost prev = names(r@);
                        r.push(more[j].clone());
                        assert(names(r@) =~= prev.push(more@[j as int]@));
                        assert(names(more@).take(j + 1) =~= names(more@).take(j as int).push(
                            more@[j as int]@,
                        ));
                        assert(names(r@) =~= before + names(more@).take(j + 1));
                        j = j + 1;
                    }
                    assert(names(more@).take(more@.len() as int) =~= names(more@));
                }
            }
            i = i + 1;
        }
        r
    }

    /// The hosts of `hosts` that the limit lets through.
    fn apply_limit(&self, l: &Vec<char>, hosts: &Vec<String>) -> (r: Vec<String>)
        ensures
            names(r@) == limited(self.inventory_model(), l@, names(hosts@)),
    {
        let inc = self.limit_hosts(l, false);
        let exc = self.limit_hosts(l, true);
        let ghost all = names(hosts@);
        let mut r: Vec<String> = Vec::new();
        let mut i: usize = 0;
        assert(all.take(0) =~= Seq::<Seq<char>>::empty());
        assert(names(r@) =~= Seq::<Seq<char>>::empty());
        while i < hosts.len()
            invariant
                i <= hosts@.len(),
                all == names(hosts@),
                names(inc@) == limit_side(
                    self.inventory_model(),
                    split_char(l@, ':'),
                    split_char(l@, ':').len() as int,
                    false,
                ),
                names(exc@) == limit_side(
                    self.inventory_model(),
                    split_char(l@, ':'),
                    split_char(l@, ':').len() as int,
                    true,
                ),
                names(r@) == limited(self.inventory_model(), l@, all.take(i as int)),
            decreases hosts.len() - i,
        {
            let h = chars_of(hosts[i].as_str());
            assert(all.take(i + 1).drop_last() =~= all.take(i as int));
            assert(all.take(i + 1).last() == h@);
            let included = if inc.len() == 0 {
                self.inventory.hosts.position(&h).is_some()
            } else {
                holds(&inc, &h)
            };
            if included && !holds(&exc, &h) {
                let ghost before = names(r@);
                r.push(hosts[i].clone());
                assert(names(r@) =~= before.push(h@));
            }
            i = i + 1;
        }
        assert(all.take(hosts@.len() as int) =~= all);
        r
    }

    /// The hosts a play targets: its pattern's hosts, through the limit.
    pub fn resolve_hosts(&self, pattern: &str) -> (r: Vec<String>)
        ensures
            names(r@) == target_hosts(self.inventory_model(), self.limit_pattern(), pattern@),
    {
        let hosts = self.resolve_pattern(pattern);
        match &self.limit {
            Some(l) => {
                let lc = chars_of(l.as_str());
                self.apply_limit(&lc, &hosts)
            },
            None => hosts,
        }
    }
}


// ------------------------------------------------------- module selection

/// The names the module registry knows.
pub open spec fn known_module(k: Seq<char>) -> bool {
    k == m_command() || k == m_shell() || k == m_copy() || k == m_file() || k == m_template() || k == m_apt() || k == m_service() || k == m_lineinfile() || k == m_raw() || k == m_script() || k == m_yum() || k == m_dnf() || k == m_pip() || k == m_user() || k == m_group()
}

fn is_known_module(k: &Vec<char>) -> (r: bool)
    ensures
        r == known_module(k@),
{
    if chars_eq(k, &m_command_chars()) {
        return true;
    }
    if chars_eq(k, &m_shell_chars()) {
        return true;
    }
    if chars_eq(k, &m_copy_chars()) {
        return true;
    }
    if chars_eq(k, &m_file_chars()) {
        return true;
    }
    if chars_eq(k, &m_template_chars()) {
        return true;
    }
    if chars_eq(k, &m_apt_chars()) {
        return true;
    }
    if chars_eq(k, &m_service_chars()) {
        return true;
    }
    if chars_eq(k, &m_lineinfile_chars()) {
        return true;
    }
    if chars_eq(k, &m_raw_chars()) {
        return true;
    }
    if chars_eq(k, &m_script_chars()) {
        return true;
    }
    if chars_eq(k, &m_yum_chars()) {
        return true;
    }
    if chars_eq(k, &m_dnf_chars()) {
        return true;
    }
    if chars_eq(k, &m_pip_chars()) {
        return true;
    }
    if chars_eq(k, &m_user_chars()) {
        return true;
    }
    if chars_eq(k, &m_group_chars()) {
        return true;
    }
    false
}

pub open spec fn word_false_text() -> Seq<char> {
    seq!['f', 'a', 'l', 's', 'e']
}

/// `true` or `false`.
pub open spec fn bool_text(b: bool) -> Seq<char> {
    if b {
        w_true()
    } else {
        word_false_text()
    }
}

fn bool_chars(b: bool) -> (r: Vec<char>)
    ensures
        r@ == bool_text(b),
{
    if b {
        w_true_chars()
    } else {
        let r: Vec<char> = vec!['f', 'a', 'l', 's', 'e'];
        assert(r@ =~= word_false_text());
        r
    }
}

/// The arguments given by the first `n` entries of a mapping: string values
/// rendered, flags written `true` or `false`, anything else left out.
pub open spec fn mapping_args(
    m: Seq<(String, ArgValue)>,
    n: int,
    vars: Map<Seq<char>, Seq<char>>,
) -> Map<Seq<char>, Seq<char>>
    decreases n,
{
    if n <= 0 || n > m.len() {
        Map::empty()
    } else {
        let a = mapping_args(m, n - 1, vars);
        match m[n - 1].1 {
            ArgValue::Text(v) => a.insert(m[n - 1].0@, rendered(v@, vars)),
            ArgValue::Flag(b) => a.insert(m[n - 1].0@, bool_text(b)),
            ArgValue::Other => a,
        }
    }
}

/// The arguments a module key's value gives: a scalar as `_raw`, a mapping
/// entry by entry.
pub open spec fn module_args(v: ModuleValue, vars: Map<Seq<char>, Seq<char>>) -> Map<
    Seq<char>,
    Seq<char>,
> {
    match v {
        ModuleValue::Text(s) => Map::empty().insert(w_raw_arg(), rendered(s@, vars)),
        ModuleValue::Mapping(m) => mapping_args(m@, m@.len() as int, vars),
        ModuleValue::Other => Map::empty(),
    }
}

/// The first of the first `n` entries whose key names a known module.
pub open spec fn module_index(entries: Seq<(String, ModuleValue)>, n: int) -> Option<int>
    decreases n,
{
    if n <= 0 || n > entries.len() {
        None
    } else {
        match module_index(entries, n - 1) {
            Some(i) => Some(i),
            None => if known_module(entries[n - 1].0@) {
                Some(n - 1)
            } else {
                None
            },
        }
    }
}

/// Once found among the first `k` entries, the module stays the one found.
pub proof fn lemma_module_index_stable(entries: Seq<(String, ModuleValue)>, k: int, n: int)
    requires
        0 <= k <= n <= entries.len(),
        module_index(entries, k) is Some,
    ensures
        module_index(entries, n) == module_index(entries, k),
    decreases n - k,
{
    if n > k {
        lemma_module_index_stable(entries, k, n - 1);
    }
}

/// The module a task selects and its arguments, rendered against a scope.
pub open spec fn selected_module(task: Task, vars: Map<Seq<char>, Seq<char>>) -> Option<
    (Seq<char>, Map<Seq<char>, Seq<char>>),
> {
    match module_index(task.module@, task.module@.len() as int) {
        Some(i) => Some((task.module@[i].0@, module_args(task.module@[i].1, vars))),
        None => None,
    }
}

fn build_args(v: &ModuleValue, vars: &StrMap) -> (r: ModuleArgs)
    ensures
        r@ == module_args(*v, vars@),
{
    let mut args = ModuleArgs::new();
    match v {
        ModuleValue::Text(s) => {
            let value = render(s.as_str(), vars);
            args.insert(string_of(&w_raw_arg_chars()).as_str(), value.as_str());
            assert(args@ =~= module_args(*v, vars@));
        },
        ModuleValue::Mapping(m) => {
            let mut i: usize = 0;
            assert(args@ =~= mapping_args(m@, 0, vars@));
            while i < m.len()
                invariant
                    i <= m@.len(),
                    args@ == mapping_args(m@, i as int, vars@),
                decreases m.len() - i,
            {
                match &m[i].1 {
                    ArgValue::Text(t) => {
                        let value = render(t.as_str(), vars);
                        args.insert(m[i].0.as_str(), value.as_str());
                    },
                    ArgValue::Flag(b) => {
                        let text = string_of(&bool_chars(*b));
                        args.insert(m[i].0.as_str(), text.as_str());
                    },
                    ArgValue::Other => {},
                }
                i = i + 1;
            }
        },
        ModuleValue::Other => {
            assert(args@ =~= module_args(*v, vars@));
        },
    }
    args
}

/// The module a task selects, with its arguments rendered against `vars`.
pub fn extract_module(task: &Task, vars: &StrMap) -> (r: Option<(String, ModuleArgs)>)
    ensures
        match r {
            Some((name, args)) => selected_module(*task, vars@) == Some((name@, args@)),
            None => selected_module(*task, vars@) is None,
        },
{
    let mut i: usize = 0;
    while i < task.module.len()
        invariant
            i <= task.module@.len(),
            module_index(task.module@, i as int) is None,
        decreases task.module.len() - i,
    {
        let key = chars_of(task.module[i].0.as_str());
        if is_known_module(&key) {
            proof {
                assert(module_index(task.module@, i + 1) == Some(i as int));
                lemma_module_index_stable(task.module@, i + 1, task.module@.len() as int);
            }
            let args = build_args(&task.module[i].1, vars);
            return Some((task.module[i].0.clone(), args));
        }
        i = i + 1;
    }
    None
}

// ------------------------------------------------------------- planning

/// What the executor does with one task, before any module runs.
pub enum TaskPlan {
    /// The tag filter skips it.
    SkipTags,
    /// Its `when` is false.
    SkipWhen,
    /// None of its keys names a known module.
    NoModule,
    /// Check mode: the module is not called.
    CheckMode,
    /// The module to call, and its arguments.
    Run(String, ModuleArgs),
}

/// A plan as values.
pub enum PlanModel {
    SkipTags,
    SkipWhen,
    NoModule,
    CheckMode,
    Run(Seq<char>, Map<Seq<char>, Seq<char>>),
}

impl View for TaskPlan {
    type V = PlanModel;

    open spec fn view(&self) -> PlanModel {
        match self {
            TaskPlan::SkipTags => PlanModel::SkipTags,
            TaskPlan::SkipWhen => PlanModel::SkipWhen,
            TaskPlan::NoModule => PlanModel::NoModule,
            TaskPlan::CheckMode => PlanModel::CheckMode,
            TaskPlan::Run(n, a) => PlanModel::Run(n@, a@),
        }
    }
}

/// Whether a task's `when` is present and false against `vars`.
pub open spec fn when_fails(task: Task, vars: Map<Seq<char>, Seq<char>>) -> bool {
    match task.when {
        Some(w) => !when_holds(rendered(w@, vars), vars),
        None => false,
    }
}

/// The plan for a task: the tag filter (where it applies), then `when`, then
/// module selection, then check mode.
pub open spec fn planned(
    only: Seq<Seq<char>>,
    skip: Seq<Seq<char>>,
    check: bool,
    task: Task,
    vars: Map<Seq<char>, Seq<char>>,
    filter_tags: bool,
) -> PlanModel {
    if filter_tags && !tags_allow(only, skip, names(task.tags@)) {
        PlanModel::SkipTags
    } else if when_fails(task, vars) {
        PlanModel::SkipWhen
    } else {
        match selected_module(task, vars) {
            None => PlanModel::NoModule,
            Some((name, args)) => if check {
                PlanModel::CheckMode
            } else {
                PlanModel::Run(name, args)
            },
        }
    }
}

impl Executor {
    fn plan(&self, task: &Task, vars: &StrMap, filter_tags: bool) -> (r: TaskPlan)
        ensures
            r@ == planned(
                self.only_tags(),
                self.skipped_tags(),
                self.in_check_mode(),
                *task,
                vars@,
                filter_tags,
            ),
    {
        if filter_tags && !self.should_run_task(task) {
            return TaskPlan::SkipTags;
        }
        match &task.when {
            Some(w) => {
                let text = render(w.as_str(), vars);
                if !eval_when(text.as_str(), vars) {
                    return TaskPlan::SkipWhen;
                }
            },
            None => {},
        }
        match extract_module(task, vars) {
            None => TaskPlan::NoModule,
            Some((name, args)) => if self.check_mode {
                TaskPlan::CheckMode
            } else {
                TaskPlan::Run(name, args)
            },
        }
    }

    /// The plan for one of a play's tasks against a host's scope.
    pub fn plan_task(&self, task: &Task, vars: &StrMap) -> (r: TaskPlan)
        ensures
            r@ == planned(
                self.only_tags(),
                self.skipped_tags(),
                self.in_check_mode(),
                *task,
                vars@,
                true,
            ),
    {
        self.plan(task, vars, true)
    }

    /// The plan for a notified handler: handlers are not filtered by tags.
    pub fn plan_handler(&self, handler: &Task, vars: &StrMap) -> (r: TaskPlan)
        ensures
            r@ == planned(
                self.only_tags(),
                self.skipped_tags(),
                self.in_check_mode(),
                *handler,
                vars@,
                false,
            ),
    {
        self.plan(handler, vars, false)
    }
}

// ------------------------------------------------------------ host runs

/// One task's outcome on one host.
#[derive(Debug)]
pub struct TaskResult {
    pub task_name: String,
    pub host: String,
    pub result: ModuleResult,
}

/// One host's outcome for a play: the counters and every task's result.
#[derive(Debug)]
pub struct PlayResult {
    pub host: String,
    pub ok: usize,
    pub changed: usize,
    pub failed: usize,
    pub skipped: usize,
    pub task_results: Vec<TaskResult>,
}

impl PlayResult {
    /// Every result is counted exactly once.
    pub open spec fn counted(&self) -> bool {
        self.ok + self.changed + self.failed + self.skipped == self.task_results@.len()
    }
}

impl Default for PlayResult {
    fn default() -> (r: PlayResult)
        ensures
            r.host@.len() == 0,
            r.ok == 0 && r.changed == 0 && r.failed == 0 && r.skipped == 0,
            r.task_results@.len() == 0,
    {
        PlayResult {
            host: String::new(),
            ok: 0,
            changed: 0,
            failed: 0,
            skipped: 0,
            task_results: Vec::new(),
        }
    }
}

pub open spec fn unnamed() -> Seq<char> {
    seq!['u', 'n', 'n', 'a', 'm', 'e', 'd']
}

/// A task's display name.
pub open spec fn task_label(task: Task) -> Seq<char> {
    match task.name {
        Some(n) => n@,
        None => unnamed(),
    }
}

fn label(task: &Task) -> (r: String)
    ensures
        r@ == task_label(*task),
{
    match &task.name {
        Some(n) => n.clone(),
        None => {
            let u: Vec<char> = vec!['u', 'n', 'n', 'a', 'm', 'e', 'd'];
            assert(u@ =~= unnamed());
            string_of(&u)
        },
    }
}

/// `n` in decimal, with a minus sign where negative.
pub open spec fn signed_decimal(n: int) -> Seq<char> {
    if n < 0 {
        seq!['-'] + crate::text::decimal((-n) as nat)
    } else {
        crate::text::decimal(n as nat)
    }
}

fn signed_chars(n: i32) -> (r: Vec<char>)
    ensures
        r@ == signed_decimal(n as int),
{
    if n < 0 {
        let m: u64 = (-(n as i64)) as u64;
        let mut r: Vec<char> = vec!['-'];
        let d = crate::text::to_decimal(m);
        crate::text::append(&mut r, &d);
        r
    } else {
        crate::text::to_decimal(n as u64)
    }
}

/// The scope after registering a result under `reg`: `reg.stdout`,
/// `reg.stderr`, `reg.rc`, `reg.changed` and `reg.failed`.
pub open spec fn registered(
    vars: Map<Seq<char>, Seq<char>>,
    reg: Seq<char>,
    r: ModuleResult,
) -> Map<Seq<char>, Seq<char>> {
    vars.insert(reg + w_dot_stdout(), r.stdout@).insert(reg + w_dot_stderr(), r.stderr@).insert(
        reg + w_dot_rc(),
        signed_decimal(r.rc as int),
    ).insert(reg + w_dot_changed(), bool_text(r.changed)).insert(
        reg + w_dot_failed(),
        bool_text(r.failed),
    )
}

/// The handler names pending after a result: a changed result adds the names
/// its task notifies that are not pending yet.
pub open spec fn notified_after(
    pending: Seq<Seq<char>>,
    task: Task,
    r: ModuleResult,
) -> Seq<Seq<char>> {
    match task.notify {
        Some(list) => if r.changed {
            add_new(pending, names(list@))
        } else {
            pending
        },
        None => pending,
    }
}

/// The state of one host's run through a play.
pub struct HostRun {
    /// The host's scope.
    pub vars: StrMap,
    /// The handlers notified so far, each once.
    pub notified: Vec<String>,
    /// The results so far.
    pub result: PlayResult,
}

/// The scope a host's run starts from: `inventory_hostname` and
/// `ansible_host`, then the host's inventory variables (its groups', then its
/// own), then the play's variables, then the extra variables.
pub open spec fn initial_scope(
    inv: InventoryModel,
    host: Seq<char>,
    play_vars: Map<Seq<char>, Seq<char>>,
    extra: Map<Seq<char>, Seq<char>>,
) -> Map<Seq<char>, Seq<char>> {
    let hv = crate::inventory::host_vars(inv, host);
    let own = match key_index(inv.hosts, host) {
        Some(i) => inv.hosts[i].1,
        None => Map::empty(),
    };
    let target = if own.contains_key(w_ansible_host()) {
        own[w_ansible_host()]
    } else {
        host
    };
    Map::empty().insert(w_inventory_hostname(), host).insert(w_ansible_host(), target).union_prefer_right(
        hv,
    ).union_prefer_right(play_vars).union_prefer_right(extra)
}

/// The classification of a result: failed first, then changed, else ok.
pub open spec fn counts_after(before: PlayResult, after: PlayResult, r: ModuleResult) -> bool {
    &&& after.failed == before.failed + if r.failed {
        1int
    } else {
        0int
    }
    &&& after.changed == before.changed + if !r.failed && r.changed {
        1int
    } else {
        0int
    }
    &&& after.ok == before.ok + if !r.failed && !r.changed {
        1int
    } else {
        0int
    }
    &&& after.skipped == before.skipped
}

impl HostRun {
    pub open spec fn well_formed(&self) -> bool {
        self.result.counted()
    }

    /// The start of a play on a host of the inventory; `None` where the
    /// inventory has no such host.
    pub fn start(exec: &Executor, play: &Play, host_name: &str) -> (r: Option<HostRun>)
        ensures
            match r {
                Some(run) => {
                    &&& has_host(exec.inventory_model(), host_name@)
                    &&& run.vars@ == initial_scope(
                        exec.inventory_model(),
                        host_name@,
                        play.vars@,
                        exec.extra(),
                    )
                    &&& run.notified@.len() == 0
                    &&& run.result.host@ == host_name@
                    &&& run.result.ok == 0 && run.result.changed == 0
                    &&& run.result.failed == 0 && run.result.skipped == 0
                    &&& run.result.task_results@.len() == 0
                    &&& run.well_formed()
                },
                None => !has_host(exec.inventory_model(), host_name@),
            },
    {
        let h = chars_of(host_name);
        let pos = exec.inventory.hosts.position(&h);
        if pos.is_none() {
            return None;
        }
        let host = exec.inventory.hosts.get(host_name).unwrap();
        let target = match host.vars.get_chars(&w_ansible_host_chars()) {
            Some(t) => t,
            None => h.clone(),
        };
        let mut vars = StrMap::new();
        vars.put_chars(&w_inventory_hostname_chars(), &h);
        vars.put_chars(&w_ansible_host_chars(), &target);
        let hv = exec.inventory.get_host_vars(host_name);
        vars.extend(&hv);
        vars.extend(&play.vars);
        vars.extend(&exec.extra_vars);
        let run = HostRun {
            vars,
            notified: Vec::new(),
            result: PlayResult {
                host: host_name.to_owned(),
                ok: 0,
                changed: 0,
                failed: 0,
                skipped: 0,
                task_results: Vec::new(),
            },
        };
        Some(run)
    }

    fn push_result(&mut self, task_name: String, host: &str, result: ModuleResult)
        requires
            old(self).well_formed(),
        ensures
            final(self).well_formed(),
            counts_after(old(self).result, final(self).result, result),
            final(self).result.task_results@ == old(self).result.task_results@.push(
                TaskResult { task_name, host: final(self).result.task_results@.last().host, result },
            ),
            final(self).result.task_results@.last().host@ == host@,
            final(self).result.host == old(self).result.host,
            final(self).vars@ == old(self).vars@,
            final(self).notified@ == old(self).notified@,
    {
        let failed = result.failed;
        let changed = result.changed;
        self.result.task_results.push(TaskResult { task_name, host: host.to_owned(), result });
        let _n = self.result.task_results.len();
        if failed {
            self.result.failed = self.result.failed + 1;
        } else if changed {
            self.result.changed = self.result.changed + 1;
        } else {
            self.result.ok = self.result.ok + 1;
        }
    }

    /// Records a task that the tag filter skipped: an `ok` result
    /// `skipped (tags)`, counted as skipped.
    pub fn skip_tags(&mut self, task: &Task, host: &str)
        requires
            old(self).well_formed(),
        ensures
            final(self).well_formed(),
            final(self).result.skipped == old(self).result.skipped + 1,
            final(self).result.ok == old(self).result.ok,
            final(self).result.changed == old(self).result.changed,
            final(self).result.failed == old(self).result.failed,
            final(self).result.task_results@.len() == old(self).result.task_results@.len() + 1,
            ({
                let t = final(self).result.task_results@.last();
                &&& t.task_name@ == task_label(*task)
                &&& t.host@ == host@
                &&& !t.result.changed && !t.result.failed
                &&& t.result.msg@ == seq![
                    's', 'k', 'i', 'p', 'p', 'e', 'd', ' ', '(', 't', 'a', 'g', 's', ')'
                ]
            }),
            forall|i: int|
                0 <= i < old(self).result.task_results@.len() ==> final(self).result.task_results@[i] == old(self).result.task_results@[i],
            final(self).vars@ == old(self).vars@,
            final(self).notified@ == old(self).notified@,
    {
        let msg: Vec<char> = vec![
            's', 'k', 'i', 'p', 'p', 'e', 'd', ' ', '(', 't', 'a', 'g', 's', ')'
        ];
        let m = string_of(&msg);
        let r = ModuleResult::ok(m.as_str());
        self.result.task_results.push(TaskResult { task_name: label(task), host: host.to_owned(), result: r });
        let _n = self.result.task_results.len();
        self.result.skipped = self.result.skipped + 1;
    }

    /// Records a task whose `when` is false: an `ok` result `skipped`; its
    /// module is not called, nothing is registered or notified.
    pub fn skip_when(&mut self, task: &Task, host: &str)
        requires
            old(self).well_formed(),
        ensures
            final(self).well_formed(),
            final(self).result.ok == old(self).result.ok + 1,
            final(self).result.skipped == old(self).result.skipped,
            final(self).result.changed == old(self).result.changed,
            final(self).result.failed == old(self).result.failed,
            final(self).result.task_results@.len() == old(self).result.task_results@.len() + 1,
            ({
                let t = final(self).result.task_results@.last();
                &&& t.task_name@ == task_label(*task)
                &&& t.host@ == host@
                &&& !t.result.changed && !t.result.failed
                &&& t.result.msg@ == seq!['s', 'k', 'i', 'p', 'p', 'e', 'd']
            }),
            forall|i: int|
                0 <= i < old(self).result.task_results@.len() ==> final(self).result.task_results@[i] == old(self).result.task_results@[i],
            final(self).vars@ == old(self).vars@,
            final(self).notified@ == old(self).notified@,
    {
        let msg: Vec<char> = vec!['s', 'k', 'i', 'p', 'p', 'e', 'd'];
        let m = string_of(&msg);
        let r = ModuleResult::ok(m.as_str());
        self.push_result(label(task), host, r);
    }

    /// Records a task that selects no module: a failed result `no module
    /// found in task`, registered where the task asks, notifying nothing.
    pub fn no_module(&mut self, exec: &Executor, task: &Task, host: &str)
        requires
            old(self).well_formed(),
        ensures
            final(self).well_formed(),
            final(self).result.failed == old(self).result.failed + 1,
            final(self).result.ok == old(self).result.ok,
            final(self).result.skipped == old(self).result.skipped,
            final(self).result.changed == old(self).result.changed,
            final(self).result.task_results@.len() == old(self).result.task_results@.len() + 1,
            ({
                let t = final(self).result.task_results@.last();
                &&& t.result.failed && !t.result.changed
                &&& t.result.msg@ == "no module found in task"@
                &&& t.task_name@ == task_label(*task)
                &&& t.host@ == host@
            }),
            forall|i: int|
                0 <= i < old(self).result.task_results@.len() ==> final(self).result.task_results@[i] == old(self).result.task_results@[i],
            final(self).vars@ == match task.register {
                Some(reg) => registered(
                    old(self).vars@,
                    reg@,
                    final(self).result.task_results@.last().result,
                ).union_prefer_right(exec.extra()),
                None => old(self).vars@,
            },
            names(final(self).notified@) == names(old(self).notified@),
    {
        let r = ModuleResult::failed("no module found in task");
        self.finish(exec, task, host, r, false);
    }

    /// Records the result of a task's module (or of check mode): its result
    /// is registered where the task asks, and, for a task that is not a
    /// handler, a changed result notifies the task's handlers.
    pub fn finish(
        &mut self,
        exec: &Executor,
        task: &Task,
        host: &str,
        result: ModuleResult,
        is_handler: bool,
    )
        requires
            old(self).well_formed(),
        ensures
            final(self).well_formed(),
            counts_after(old(self).result, final(self).result, result),
            final(self).result.task_results@.len() == old(self).result.task_results@.len() + 1,
            final(self).result.task_results@.last().result == result,
            final(self).result.task_results@.last().task_name@ == task_label(*task),
            final(self).result.task_results@.last().host@ == host@,
            forall|i: int|
                0 <= i < old(self).result.task_results@.len() ==> final(self).result.task_results@[i] == old(self).result.task_results@[i],
            final(self).vars@ == match task.register {
                Some(reg) => registered(old(self).vars@, reg@, result).union_prefer_right(
                    exec.extra(),
                ),
                None => old(self).vars@,
            },
            names(final(self).notified@) == if is_handler {
                names(old(self).notified@)
            } else {
                notified_after(names(old(self).notified@), *task, result)
            },
    {
        match &task.register {
            Some(reg) => {
                let r = chars_of(reg.as_str());
                let out = chars_of(result.stdout.as_str());
                let err = chars_of(result.stderr.as_str());
                self.vars.put_chars(&crate::text::concat3(&r, &w_dot_stdout_chars(), &Vec::new()), &out);
                self.vars.put_chars(&crate::text::concat3(&r, &w_dot_stderr_chars(), &Vec::new()), &err);
                self.vars.put_chars(&crate::text::concat3(&r, &w_dot_rc_chars(), &Vec::new()), &signed_chars(result.rc));
                self.vars.put_chars(
                    &crate::text::concat3(&r, &w_dot_changed_chars(), &Vec::new()),
                    &bool_chars(result.changed),
                );
                self.vars.put_chars(
                    &crate::text::concat3(&r, &w_dot_failed_chars(), &Vec::new()),
                    &bool_chars(result.failed),
                );
                self.vars.extend(&exec.extra_vars);
                proof {
                    assert(r@ + w_dot_stdout() + Seq::<char>::empty() =~= r@ + w_dot_stdout());
                    assert(r@ + w_dot_stderr() + Seq::<char>::empty() =~= r@ + w_dot_stderr());
                    assert(r@ + w_dot_rc() + Seq::<char>::empty() =~= r@ + w_dot_rc());
                    assert(r@ + w_dot_changed() + Seq::<char>::empty() =~= r@ + w_dot_changed());
                    assert(r@ + w_dot_failed() + Seq::<char>::empty() =~= r@ + w_dot_failed());
                }
            },
            None => {},
        }
        if !is_handler && result.changed {
            match &task.notify {
                Some(list) => crate::inventory::push_new(&mut self.notified, list),
                None => {},
            }
        }
        self.push_result(label(task), host, result);
    }

    /// The handlers to run after the tasks: in play order, those whose name
    /// has been notified.
    pub fn due_handlers(&self, play: &Play) -> (r: Vec<usize>)
        ensures
            r@.map_values(|x: usize| x as int) == due_indices(
                play.handlers@,
                names(self.notified@),
                play.handlers@.len() as int,
            ),
    {
        let mut r: Vec<usize> = Vec::new();
        let mut i: usize = 0;
        assert(r@.map_values(|x: usize| x as int) =~= Seq::<int>::empty());
        while i < play.handlers.len()
            invariant
                i <= play.handlers@.len(),
                r@.map_values(|x: usize| x as int) == due_indices(
                    play.handlers@,
                    names(self.notified@),
                    i as int,
                ),
            decreases play.handlers.len() - i,
        {
            let due = match &play.handlers[i].name {
                Some(n) => holds(&self.notified, &chars_of(n.as_str())),
                None => false,
            };
            let ghost before = r@.map_values(|x: usize| x as int);
            if due {
                r.push(i);
                assert(r@.map_values(|x: usize| x as int) =~= before.push(i as int));
            }
            i = i + 1;
        }
        r
    }
}

/// The module results held by a list of task results.
pub open spec fn outcomes(v: Seq<TaskResult>) -> Seq<ModuleResult> {
    v.map_values(|t: TaskResult| t.result)
}

/// The pending names after `n` tasks depend only on the first `n` results.
pub proof fn lemma_pending_prefix(tasks: Seq<Task>, a: Seq<ModuleResult>, b: Seq<ModuleResult>, n: int)
    requires
        0 <= n <= tasks.len(),
        n <= a.len(),
        n <= b.len(),
        a.take(n) == b.take(n),
    ensures
        pending_after(tasks, a, n) == pending_after(tasks, b, n),
    decreases n,
{
    if n > 0 {
        assert(a.take(n - 1) =~= a.take(n).take(n - 1));
        assert(b.take(n - 1) =~= b.take(n).take(n - 1));
        lemma_pending_prefix(tasks, a, b, n - 1);
        assert(a[n - 1] == a.take(n)[n - 1]);
        assert(b[n - 1] == b.take(n)[n - 1]);
    }
}

impl HostRun {
    /// Plans one task (or handler) and records its result; `call` runs the
    /// module where the plan asks for it.
    fn run_one<F: Fn(&String, &ModuleArgs, &StrMap) -> ModuleResult>(
        &mut self,
        exec: &Executor,
        task: &Task,
        host: &str,
        is_handler: bool,
        call: &F,
    )
        requires
            old(self).well_formed(),
            forall|m: &String, a: &ModuleArgs, v: &StrMap| call.requires((m, a, v)),
        ensures
            final(self).well_formed(),
            final(self).result.task_results@.len() == old(self).result.task_results@.len() + 1,
            forall|i: int|
                0 <= i < old(self).result.task_results@.len() ==> final(self).result.task_results@[i] == old(self).result.task_results@[i],
            final(self).result.task_results@.last().task_name@ == task_label(*task),
            final(self).result.task_results@.last().host@ == host@,
            names(final(self).notified@) == if is_handler {
                names(old(self).notified@)
            } else {
                notified_after(names(old(self).notified@), *task, final(self).result.task_results@.last().result)
            },
            exec.in_check_mode() ==> !final(self).result.task_results@.last().result.changed,
            planned(exec.only_tags(), exec.skipped_tags(), exec.in_check_mode(), *task, old(self).vars@, !is_handler) is CheckMode
                ==> ({
                let r = final(self).result.task_results@.last().result;
                r.msg@ == "check mode"@ && !r.changed && !r.failed
            }),
    {
        let plan = if is_handler {
            exec.plan_handler(task, &self.vars)
        } else {
            exec.plan_task(task, &self.vars)
        };
        match plan {
            TaskPlan::SkipTags => self.skip_tags(task, host),
            TaskPlan::SkipWhen => self.skip_when(task, host),
            TaskPlan::NoModule => self.no_module(exec, task, host),
            TaskPlan::CheckMode => self.finish(exec, task, host, ModuleResult::ok("check mode"), is_handler),
            TaskPlan::Run(module, args) => {
                let r = call(&module, &args, &self.vars);
                self.finish(exec, task, host, r, is_handler);
            },
        }
    }

    /// Runs a play's tasks in order, then each due handler once, in play
    /// order; `call` runs a module with its rendered arguments and the
    /// host's scope. Every task and every due handler leaves exactly one
    /// result, counted once; a handler is due iff a task that notifies it
    /// returned a changed result; in check mode no task changes anything.
    pub fn run_play<F: Fn(&String, &ModuleArgs, &StrMap) -> ModuleResult>(
        &mut self,
        exec: &Executor,
        play: &Play,
        host: &str,
        call: &F,
    )
        requires
            old(self).well_formed(),
            old(self).result.task_results@.len() == 0,
            old(self).notified@.len() == 0,
            forall|m: &String, a: &ModuleArgs, v: &StrMap| call.requires((m, a, v)),
        ensures
            final(self).well_formed(),
            ({
                let rs = final(self).result.task_results@;
                let t = play.tasks@.len() as int;
                let pend = pending_after(play.tasks@, outcomes(rs).take(t), t);
                let due = due_indices(play.handlers@, pend, play.handlers@.len() as int);
                &&& rs.len() == t + due.len()
                &&& forall|h: Seq<char>| pend.contains(h) <==> exists|k: int|
                    0 <= k < t && notifies(play.tasks@[k], #[trigger] rs[k].result, h)
                &&& forall|i: int| 0 <= i < play.handlers@.len() ==> (due.contains(i) <==> handler_due(
                    play.handlers@[i],
                    pend,
                ))
                &&& forall|a: int, b: int| 0 <= a < b < due.len() ==> due[a] < due[b]
                &&& forall|k: int| 0 <= k < t ==> (#[trigger] rs[k]).task_name@ == task_label(play.tasks@[k])
                &&& forall|j: int| 0 <= j < due.len() ==> (#[trigger] rs[t + j]).task_name@ == task_label(play.handlers@[due[j]])
                &&& exec.in_check_mode() ==> forall|k: int| 0 <= k < t ==> !(#[trigger] rs[k]).result.changed
                &&& forall|k: int| 0 <= k < t && exec.in_check_mode() && play.tasks@[k].when is None
                    && tags_allow(exec.only_tags(), exec.skipped_tags(), names(play.tasks@[k].tags@))
                    && module_index(play.tasks@[k].module@, play.tasks@[k].module@.len() as int) is Some
                    ==> (#[trigger] rs[k]).result.msg@ == "check mode"@ && !rs[k].result.changed && !rs[k].result.failed
            }),
    {
        let ghost tasks = play.tasks@;
        let mut k: usize = 0;
        assert(outcomes(self.result.task_results@).take(0) =~= Seq::<ModuleResult>::empty());
        assert(names(self.notified@) =~= Seq::<Seq<char>>::empty());
        while k < play.tasks.len()
            invariant
                k <= play.tasks@.len(),
                tasks == play.tasks@,
                self.well_formed(),
                self.result.task_results@.len() == k,
                forall|m: &String, a: &ModuleArgs, v: &StrMap| call.requires((m, a, v)),
                names(self.notified@) == pending_after(tasks, outcomes(self.result.task_results@), k as int),
                forall|i: int| 0 <= i < k ==> (#[trigger] self.result.task_results@[i]).task_name@ == task_label(tasks[i]),
                exec.in_check_mode() ==> forall|i: int| 0 <= i < k ==> !(#[trigger] self.result.task_results@[i]).result.changed,
                forall|i: int| 0 <= i < k && exec.in_check_mode() && tasks[i].when is None
                    && tags_allow(exec.only_tags(), exec.skipped_tags(), names(tasks[i].tags@))
                    && module_index(tasks[i].module@, tasks[i].module@.len() as int) is Some
                    ==> (#[trigger] self.result.task_results@[i]).result.msg@ == "check mode"@
                        && !self.result.task_results@[i].result.changed && !self.result.task_results@[i].result.failed,
            decreases play.tasks.len() - k,
        {
            let ghost before = self.result.task_results@;
            let ghost vars0 = self.vars@;
            self.run_one(exec, &play.tasks[k], host, false, call);
            proof {
                let after = self.result.task_results@;
                assert(outcomes(after).take(k as int) =~= outcomes(before).take(k as int)) by {
                    assert forall|i: int| 0 <= i < k implies outcomes(after)[i] == outcomes(before)[i] by {
                        assert(after[i] == before[i]);
                    }
                }
                lemma_pending_prefix(tasks, outcomes(after), outcomes(before), k as int);
                assert(outcomes(after)[k as int] == after.last().result);
                let t = tasks[k as int];
                if exec.in_check_mode() && t.when is None && tags_allow(exec.only_tags(), exec.skipped_tags(), names(t.tags@))
                    && module_index(t.module@, t.module@.len() as int) is Some {
                    let i = module_index(t.module@, t.module@.len() as int).unwrap();
                    assert(selected_module(t, vars0) is Some);
                    assert(planned(exec.only_tags(), exec.skipped_tags(), true, t, vars0, true) is CheckMode);
                }
                assert forall|i: int| 0 <= i < k implies after[i] == before[i] by {}
            }
            k = k + 1;
        }
        let ghost rs_tasks = self.result.task_results@;
        let ghost t = tasks.len() as int;
        let ghost pend = names(self.notified@);
        assert(outcomes(rs_tasks).take(t) =~= outcomes(rs_tasks));
        let due = self.due_handlers(play);
        let ghost dues = due@.map_values(|x: usize| x as int);
        proof {
            lemma_due_indices(play.handlers@, pend, play.handlers@.len() as int);
        }
        let mut j: usize = 0;
        while j < due.len()
            invariant
                j <= due@.len(),
                t == tasks.len(),
                tasks == play.tasks@,
                dues == due@.map_values(|x: usize| x as int),
                dues == due_indices(play.handlers@, pend, play.handlers@.len() as int),
                forall|q: int| 0 <= q < dues.len() ==> 0 <= #[trigger] dues[q] < play.handlers@.len(),
                self.well_formed(),
                self.result.task_results@.len() == t + j,
                forall|m: &String, a: &ModuleArgs, v: &StrMap| call.requires((m, a, v)),
                names(self.notified@) == pend,
                forall|i: int| 0 <= i < t ==> #[trigger] self.result.task_results@[i] == rs_tasks[i],
                forall|q: int| 0 <= q < j ==> (#[trigger] self.result.task_results@[t + q]).task_name@ == task_label(play.handlers@[dues[q]]),
            decreases due.len() - j,
        {
            let h = due[j];
            assert(dues[j as int] == h as int);
            let ghost before = self.result.task_results@;
            assert(before.len() == t + j);
            self.run_one(exec, &play.handlers[h], host, true, call);
            proof {
                assert forall|i: int| 0 <= i < t implies #[trigger] self.result.task_results@[i] == rs_tasks[i] by {
                    assert(self.result.task_results@[i] == before[i]);
                }
                assert forall|q: int| 0 <= q < j + 1 implies (#[trigger] self.result.task_results@[t + q]).task_name@ == task_label(play.handlers@[dues[q]]) by {
                    if q < j {
                        assert(0 <= t + q < before.len());
                        assert(self.result.task_results@[t + q] == before[t + q]);
                    }
                }
            }
            j = j + 1;
        }
        proof {
            let rs = self.result.task_results@;
            assert(outcomes(rs).take(t) =~= outcomes(rs_tasks).take(t)) by {
                assert forall|i: int| 0 <= i < t implies outcomes(rs)[i] == outcomes(rs_tasks)[i] by {
                    assert(rs[i] == rs_tasks[i]);
                }
            }
            lemma_pending_prefix(tasks, outcomes(rs).take(t), outcomes(rs_tasks), t);
            assert(outcomes(rs).take(t).take(t) =~= outcomes(rs).take(t));
            assert forall|k: int| 0 <= k < t implies (#[trigger] rs[k]).task_name@ == task_label(tasks[k]) by {
                assert(rs[k] == rs_tasks[k]);
            }
            let outs = outcomes(rs).take(t);
            lemma_pending(tasks, outs, t);
            assert forall|k: int| 0 <= k < t implies outs[k] == (#[trigger] rs[k]).result by {}
            lemma_due_indices(play.handlers@, pend, play.handlers@.len() as int);
        }
    }
}

/// The positions, in order, of the first `n` handlers that are due.
pub open spec fn due_indices(handlers: Seq<Task>, pending: Seq<Seq<char>>, n: int) -> Seq<int>
    decreases n,
{
    if n <= 0 || n > handlers.len() {
        Seq::empty()
    } else {
        let r = due_indices(handlers, pending, n - 1);
        if handler_due(handlers[n - 1], pending) {
            r.push(n - 1)
        } else {
            r
        }
    }
}

/// The due positions are exactly the handlers that are due, each once, in
/// increasing order.
pub proof fn lemma_due_indices(handlers: Seq<Task>, pending: Seq<Seq<char>>, n: int)
    requires
        0 <= n <= handlers.len(),
    ensures
        forall|i: int| 0 <= i < n ==> (due_indices(handlers, pending, n).contains(i) <==> handler_due(handlers[i], pending)),
        forall|k: int| 0 <= k < due_indices(handlers, pending, n).len() ==> 0 <= #[trigger] due_indices(handlers, pending, n)[k] < n,
        forall|a: int, b: int| 0 <= a < b < due_indices(handlers, pending, n).len() ==> due_indices(handlers, pending, n)[a] < due_indices(handlers, pending, n)[b],
    decreases n,
{
    if n > 0 {
        lemma_due_indices(handlers, pending, n - 1);
        let r = due_indices(handlers, pending, n - 1);
        assert forall|i: int| 0 <= i < n implies (due_indices(handlers, pending, n).contains(i) <==> handler_due(handlers[i], pending)) by {
            let d = due_indices(handlers, pending, n);
            if d.contains(i) {
                let k = choose|k: int| 0 <= k < d.len() && d[k] == i;
                if k < r.len() {
                    assert(r[k] == i);
                    assert(r.contains(i));
                    if i < n - 1 {
                        assert(handler_due(handlers[i], pending));
                    } else {
                        assert(r[k] < n - 1);
                    }
                }
            }
            if handler_due(handlers[i], pending) {
                if i < n - 1 {
                    assert(r.contains(i));
                    let k = choose|k: int| 0 <= k < r.len() && r[k] == i;
                    assert(d[k] == i);
                } else {
                    assert(d[r.len() as int] == i);
                }
            }
        }
    }
}

/// A handler runs when its name has been notified.
pub open spec fn handler_due(handler: Task, pending: Seq<Seq<char>>) -> bool {
    match handler.name {
        Some(n) => pending.contains(n@),
        None => false,
    }
}

/// The result for a host the inventory does not hold: one failure, no task results.
pub fn missing_host(host_name: &str) -> (r: PlayResult)
    ensures
        r.host@ == host_name@,
        r.failed == 1 && r.ok == 0 && r.changed == 0 && r.skipped == 0,
        r.task_results@.len() == 0,
{
    PlayResult {
        host: host_name.to_owned(),
        ok: 0,
        changed: 0,
        failed: 1,
        skipped: 0,
        task_results: Vec::new(),
    }
}

pub open spec fn connect_label() -> Seq<char> {
    seq!['C', 'O', 'N', 'N', 'E', 'C', 'T']
}

/// The result for a host that could not be reached: one failed result
/// named `CONNECT`, carrying the transport's message.
pub fn connect_failed(host_name: &str, error: &str) -> (r: PlayResult)
    ensures
        r.host@ == host_name@,
        r.failed == 1 && r.ok == 0 && r.changed == 0 && r.skipped == 0,
        r.task_results@.len() == 1,
        r.task_results@[0].task_name@ == connect_label(),
        r.task_results@[0].result.failed,
        r.task_results@[0].result.msg@ == "connection failed: "@ + error@,
        r.task_results@[0].host@ == host_name@,
        r.counted(),
{
    let mut msg = chars_of("connection failed: ");
    crate::text::append(&mut msg, &chars_of(error));
    let m = string_of(&msg);
    let name: Vec<char> = vec!['C', 'O', 'N', 'N', 'E', 'C', 'T'];
    assert(name@ =~= connect_label());
    let t = TaskResult {
        task_name: string_of(&name),
        host: host_name.to_owned(),
        result: ModuleResult::failed(m.as_str()),
    };
    PlayResult {
        host: host_name.to_owned(),
        ok: 0,
        changed: 0,
        failed: 1,
        skipped: 0,
        task_results: vec![t],
    }
}

// ------------------------------------------------------------------- laws

/// Whether a task's result notifies handler `h`.
pub open spec fn notifies(task: Task, r: ModuleResult, h: Seq<char>) -> bool {
    r.changed && task.notify is Some && names(task.notify.unwrap()@).contains(h)
}

/// The pending handler names after the first `n` tasks and their results.
pub open spec fn pending_after(tasks: Seq<Task>, results: Seq<ModuleResult>, n: int) -> Seq<
    Seq<char>,
>
    decreases n,
{
    if n <= 0 || n > tasks.len() || n > results.len() {
        Seq::empty()
    } else {
        notified_after(pending_after(tasks, results, n - 1), tasks[n - 1], results[n - 1])
    }
}

pub open spec fn no_repeats(s: Seq<Seq<char>>) -> bool {
    forall|a: int, b: int| 0 <= a < b < s.len() ==> s[a] != s[b]
}

pub proof fn lemma_add_new(acc: Seq<Seq<char>>, xs: Seq<Seq<char>>)
    ensures
        forall|h: Seq<char>| add_new(acc, xs).contains(h) <==> (acc.contains(h) || xs.contains(h)),
        no_repeats(acc) ==> no_repeats(add_new(acc, xs)),
    decreases xs.len(),
{
    if xs.len() > 0 {
        let d = xs.drop_last();
        lemma_add_new(acc, d);
        let a = add_new(acc, d);
        assert forall|h: Seq<char>| add_new(acc, xs).contains(h) <==> (acc.contains(h) || xs.contains(h)) by {
            if d.contains(h) {
                let k = choose|k: int| 0 <= k < d.len() && d[k] == h;
                assert(xs[k] == h);
            }
            if xs.contains(h) {
                let k = choose|k: int| 0 <= k < xs.len() && xs[k] == h;
                if k < d.len() {
                    assert(d[k] == h);
                } else {
                    assert(h == xs.last());
                }
            }
            if !a.contains(xs.last()) {
                if a.push(xs.last()).contains(h) {
                    let k = choose|k: int| 0 <= k < a.len() + 1 && a.push(xs.last())[k] == h;
                    if k < a.len() {
                        assert(a[k] == h);
                    }
                }
                if a.contains(h) {
                    let k = choose|k: int| 0 <= k < a.len() && a[k] == h;
                    assert(a.push(xs.last())[k] == h);
                }
                if h == xs.last() {
                    assert(a.push(xs.last())[a.len() as int] == h);
                }
            }
        }
        if no_repeats(acc) && !a.contains(xs.last()) {
            assert forall|i: int, j: int| 0 <= i < j < a.len() + 1 implies a.push(xs.last())[i] != a.push(
                xs.last(),
            )[j] by {
                if j == a.len() {
                    assert(a[i] == a.push(xs.last())[i]);
                }
            }
        }
    }
}

/// Handlers fire exactly on notification: after a host's tasks, handler `H`
/// is due iff some task that notifies `H` returned `changed`, and each
/// pending name is held once, so each handler runs at most once per host.
pub proof fn law_handler_fires_iff_notified(
    tasks: Seq<Task>,
    results: Seq<ModuleResult>,
    handler: Task,
)
    requires
        tasks.len() == results.len(),
    ensures
        handler_due(handler, pending_after(tasks, results, tasks.len() as int)) <==> (
        handler.name is Some && exists|i: int|
            0 <= i < tasks.len() && notifies(tasks[i], results[i], handler.name.unwrap()@)),
        no_repeats(pending_after(tasks, results, tasks.len() as int)),
{
    lemma_pending(tasks, results, tasks.len() as int);
    if handler.name is Some {
        let h = handler.name.unwrap()@;
        assert(pending_after(tasks, results, tasks.len() as int).contains(h) <==> exists|i: int|
            0 <= i < tasks.len() as int && notifies(tasks[i], results[i], h));
    }
}

proof fn lemma_pending(tasks: Seq<Task>, results: Seq<ModuleResult>, n: int)
    requires
        0 <= n <= tasks.len(),
        tasks.len() == results.len(),
    ensures
        forall|h: Seq<char>|
            pending_after(tasks, results, n).contains(h) <==> exists|i: int|
                0 <= i < n && notifies(tasks[i], results[i], h),
        no_repeats(pending_after(tasks, results, n)),
    decreases n,
{
    if n > 0 {
        lemma_pending(tasks, results, n - 1);
        let before = pending_after(tasks, results, n - 1);
        let t = tasks[n - 1];
        let r = results[n - 1];
        if t.notify is Some && r.changed {
            lemma_add_new(before, names(t.notify.unwrap()@));
        }
        assert forall|h: Seq<char>|
            pending_after(tasks, results, n).contains(h) <==> exists|i: int|
                0 <= i < n && notifies(tasks[i], results[i], h) by {
            if exists|i: int| 0 <= i < n && notifies(tasks[i], results[i], h) {
                let i = choose|i: int| 0 <= i < n && notifies(tasks[i], results[i], h);
                if i < n - 1 {
                    assert(before.contains(h));
                }
            }
            if pending_after(tasks, results, n).contains(h) && !before.contains(h) {
                assert(notifies(tasks[n - 1], results[n - 1], h));
            }
        }
    } else {
        assert(pending_after(tasks, results, 0) =~= Seq::<Seq<char>>::empty());
    }
}


pub proof fn lemma_known_hosts_all(inv: InventoryModel, xs: Seq<Seq<char>>)
    requires
        forall|i: int| 0 <= i < xs.len() ==> has_host(inv, #[trigger] xs[i]),
    ensures
        known_hosts(inv, xs) == xs,
    decreases xs.len(),
{
    if xs.len() > 0 {
        let d = xs.drop_last();
        assert forall|i: int| 0 <= i < d.len() implies has_host(inv, #[trigger] d[i]) by {
            assert(d[i] == xs[i]);
        }
        lemma_known_hosts_all(inv, d);
        assert(d.push(xs.last()) =~= xs);
    }
}

/// Applying a limit twice is applying it once.
pub proof fn lemma_limited_twice(inv: InventoryModel, l: Seq<char>, xs: Seq<Seq<char>>)
    ensures
        limited(inv, l, limited(inv, l, xs)) == limited(inv, l, xs),
    decreases xs.len(),
{
    if xs.len() > 0 {
        let d = xs.drop_last();
        lemma_limited_twice(inv, l, d);
        let once = limited(inv, l, d);
        if limit_allows(inv, l, xs.last()) {
            assert(once.push(xs.last()).drop_last() =~= once);
        }
    }
}

/// The comma-joined list of names.
pub open spec fn comma_joined(hs: Seq<Seq<char>>) -> Seq<char> {
    join(hs, seq![','])
}

/// Resolving is idempotent: the hosts a play targets, written back as a
/// comma-separated pattern, resolve to themselves. This needs each host to
/// be in the inventory and written plainly (no comma, no surrounding white
/// space), and the joined text not to be taken for something else: `all`,
/// `localhost`, a group, or (for two or more hosts) a host name.
pub proof fn law_resolution_idempotent(inv: InventoryModel, limit: Option<Seq<char>>, p: Seq<char>)
    requires
        forall|i: int|
            0 <= i < target_hosts(inv, limit, p).len() ==> has_host(
                inv,
                #[trigger] target_hosts(inv, limit, p)[i],
            ) && !target_hosts(inv, limit, p)[i].contains(',') && trim(
                target_hosts(inv, limit, p)[i],
            ) == target_hosts(inv, limit, p)[i],
        comma_joined(target_hosts(inv, limit, p)) != w_all(),
        comma_joined(target_hosts(inv, limit, p)) != w_localhost(),
        group_members(inv, comma_joined(target_hosts(inv, limit, p))) is None,
        target_hosts(inv, limit, p).len() == 1 || !has_host(
            inv,
            comma_joined(target_hosts(inv, limit, p)),
        ),
    ensures
        target_hosts(inv, limit, comma_joined(target_hosts(inv, limit, p))) == target_hosts(
            inv,
            limit,
            p,
        ),
{
    let hs = target_hosts(inv, limit, p);
    let j = comma_joined(hs);
    if hs.len() == 1 {
        assert(j == hs[0]);
        assert(pattern_hosts(inv, j) =~= hs);
    } else if hs.len() == 0 {
        assert(j =~= Seq::<char>::empty());
        assert(split_char(j, ',') =~= seq![Seq::<char>::empty()]);
        assert(trim(Seq::<char>::empty()) =~= Seq::<char>::empty());
        assert(split_char(j, ',').map_values(|x: Seq<char>| trim(x)) =~= seq![j]);
        let one = seq![j];
        assert(one.drop_last() =~= Seq::<Seq<char>>::empty());
        assert(known_hosts(inv, one.drop_last()) =~= Seq::<Seq<char>>::empty());
        assert(one.last() == j);
        assert(!has_host(inv, j));
        assert(known_hosts(inv, one) =~= Seq::<Seq<char>>::empty());
        assert(pattern_hosts(inv, j) =~= hs);
    } else {
        lemma_split_join(hs, ',');
        assert(split_char(j, ',').map_values(|x: Seq<char>| trim(x)) =~= hs);
        lemma_known_hosts_all(inv, hs);
        assert(pattern_hosts(inv, j) == hs);
    }
    match limit {
        Some(l) => {
            lemma_limited_twice(inv, l, pattern_hosts(inv, p));
        },
        None => {},
    }
}


/// A text none of whose characters is `c` holds no pattern starting with `c`.
pub proof fn lemma_no_char_no_find(s: Seq<char>, pat: Seq<char>, i: int)
    requires
        pat.len() > 0,
        forall|k: int| 0 <= k < s.len() ==> s[k] != pat[0],
        0 <= i,
    ensures
        find_from(s, pat, i) is None,
    decreases s.len() + 1 - i,
{
    if i + pat.len() <= s.len() {
        assert(s.subrange(i, i + pat.len())[0] == s[i]);
        lemma_no_char_no_find(s, pat, i + 1);
    }
}

/// The decimal text of a return code is `0` exactly for code 0.
pub proof fn lemma_rc_zero_text(n: int)
    ensures
        (signed_decimal(n) == seq!['0']) == (n == 0),
{
    if n < 0 {
        assert(signed_decimal(n)[0] == '-');
    } else if n >= 10 {
        assert(crate::text::decimal(n as nat).len() >= 2) by {
            assert(crate::text::decimal(n as nat) == crate::text::decimal((n / 10) as nat) + seq![
                crate::text::digit_char((n % 10) as nat),
            ]);
            assert(crate::text::decimal((n / 10) as nat).len() >= 1) by {
                reveal_with_fuel(crate::text::decimal, 2);
            }
        }
    } else {
        assert(crate::text::decimal(n as nat) == seq![crate::text::digit_char(n as nat)]);
        if n != 0 {
            assert(seq![crate::text::digit_char(n as nat)][0] != '0');
        }
    }
}

/// A registered return code is what a later condition sees: once a result
/// is registered under `r`, the condition `r.rc == "0"` holds exactly when
/// the code was 0 (where the extra variables do not pin `r.rc`).
pub proof fn law_registered_rc_seen(
    vars: Map<Seq<char>, Seq<char>>,
    res: ModuleResult,
    extra: Map<Seq<char>, Seq<char>>,
)
    requires
        !extra.contains_key("r.rc"@),
    ensures
        ({
            let scope = registered(vars, "r"@, res).union_prefer_right(extra);
            when_holds(rendered("r.rc == \"0\""@, scope), scope) == (res.rc == 0)
        }),
{
    let scope = registered(vars, "r"@, res).union_prefer_right(extra);
    let c = "r.rc == \"0\""@;
    reveal_strlit("r.rc == \"0\"");
    reveal_strlit("r.rc");
    reveal_strlit("r");
    let key = "r"@ + w_dot_rc();
    assert(key =~= "r.rc"@);
    assert(key != "r"@ + w_dot_changed());
    assert(key != "r"@ + w_dot_failed());
    assert(scope.contains_key(key) && scope[key] == signed_decimal(res.rc as int));
    assert forall|k: int| 0 <= k < c.len() implies c[k] != '{' by {}
    lemma_no_char_no_find(c, crate::words::open_comment(), 0);
    lemma_no_char_no_find(c, crate::words::open_stmt(), 0);
    lemma_no_char_no_find(c, crate::words::open_expr(), 0);
    crate::template::lemma_plain_text_renders_as_itself(c, scope);
    assert(crate::text::trim_start(c) == c);
    assert(crate::text::trim_end(c) == c);
    assert(trim(c) == c);
    assert(!crate::text::starts_with(c, crate::words::kw_not())) by {
        assert(c.subrange(0, 4)[0] != crate::words::kw_not()[0]);
    }
    let eq = crate::words::op_eq();
    assert(find_from(c, eq, 0) == Some(5int)) by {
        assert(c.subrange(0, 2)[0] != eq[0]);
        assert(c.subrange(1, 3)[0] != eq[0]);
        assert(c.subrange(2, 4)[0] != eq[0]);
        assert(c.subrange(3, 5)[0] != eq[0]);
        assert(c.subrange(4, 6)[0] != eq[0]);
        assert(c.subrange(5, 7) =~= eq);
        assert(find_from(c, eq, 5) == Some(5int));
        assert(find_from(c, eq, 4) == Some(5int));
        assert(find_from(c, eq, 3) == Some(5int));
        assert(find_from(c, eq, 2) == Some(5int));
        assert(find_from(c, eq, 1) == Some(5int));
    }
    let l = c.subrange(0, 5);
    let r = c.subrange(7, 11);
    assert(crate::text::trim_start(l) == l);
    assert(crate::text::trim_end(l) == crate::text::trim_end(l.drop_last()));
    assert(l.drop_last() =~= key);
    assert(crate::text::trim_end(key) == key);
    assert(trim(l) == key);
    assert(crate::template::operand(l, scope) == signed_decimal(res.rc as int));
    assert(crate::text::trim_start(r) == crate::text::trim_start(r.drop_first()));
    let q = r.drop_first();
    assert(crate::text::trim_start(q) == q);
    assert(crate::text::trim_end(q) == q);
    assert(trim(r) == q);
    assert(crate::text::strip_start(q, '"', '\'') == crate::text::strip_start(q.drop_first(), '"', '\''));
    assert(crate::text::strip_start(q.drop_first(), '"', '\'') == q.drop_first());
    let z = q.drop_first();
    assert(crate::text::strip_end(z, '"', '\'') == crate::text::strip_end(z.drop_last(), '"', '\''));
    assert(z.drop_last() =~= seq!['0']);
    assert(crate::text::strip_end(seq!['0'], '"', '\'') == seq!['0']);
    assert(crate::template::operand(r, scope) == seq!['0']);
    lemma_rc_zero_text(res.rc as int);
}
} // verus!
