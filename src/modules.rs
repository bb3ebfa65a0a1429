//! The module protocol: the arguments a module receives, the result it
//! reports, and the pure parts of the built-in modules.
use vstd::prelude::*;
use crate::text::{append, chars_of, contains, has, string_of};
use crate::vars::StrMap;

verus! {

/// The outcome of one module invocation.
#[derive(Debug, Clone, PartialEq)]
pub struct ModuleResult {
    pub changed: bool,
    pub failed: bool,
    pub msg: String,
    pub stdout: String,
    pub stderr: String,
    pub rc: i32,
    pub diff: Option<String>,
}

impl ModuleResult {
    /// The desired state already held.
    pub fn ok(msg: &str) -> (r: ModuleResult)
        ensures
            !r.changed && !r.failed && r.msg@ == msg@ && r.rc == 0,
            r.stdout@.len() == 0 && r.stderr@.len() == 0 && r.diff is None,
    {
        ModuleResult {
            changed: false,
            failed: false,
            msg: msg.to_owned(),
            stdout: String::new(),
            stderr: String::new(),
            rc: 0,
            diff: None,
        }
    }

    /// Remote state was altered.
    pub fn changed(msg: &str) -> (r: ModuleResult)
        ensures
            r.changed && !r.failed && r.msg@ == msg@ && r.rc == 0,
            r.stdout@.len() == 0 && r.stderr@.len() == 0 && r.diff is None,
    {
        ModuleResult {
            changed: true,
            failed: false,
            msg: msg.to_owned(),
            stdout: String::new(),
            stderr: String::new(),
            rc: 0,
            diff: None,
        }
    }

    /// The module could not reach the desired state.
    pub fn failed(msg: &str) -> (r: ModuleResult)
        ensures
            !r.changed && r.failed && r.msg@ == msg@ && r.rc == 1,
            r.stdout@.len() == 0 && r.stderr@.len() == 0 && r.diff is None,
    {
        ModuleResult {
            changed: false,
            failed: true,
            msg: msg.to_owned(),
            stdout: String::new(),
            stderr: String::new(),
            rc: 1,
            diff: None,
        }
    }

    /// Attaches a command's output; a non-zero exit code marks the result failed.
    pub fn with_output(self, stdout: &str, stderr: &str, rc: i32) -> (r: ModuleResult)
        ensures
            r.stdout@ == stdout@ && r.stderr@ == stderr@ && r.rc == rc,
            r.failed == (self.failed || rc != 0),
            r.changed == self.changed && r.msg == self.msg && r.diff == self.diff,
    {
        let mut r = self;
        r.stdout = stdout.to_owned();
        r.stderr = stderr.to_owned();
        r.rc = rc;
        if rc != 0 {
            r.failed = true;
        }
        r
    }

    pub fn with_diff(self, diff: String) -> (r: ModuleResult)
        ensures
            r.diff == Some(diff),
            r.changed == self.changed && r.failed == self.failed && r.msg == self.msg,
            r.stdout == self.stdout && r.stderr == self.stderr && r.rc == self.rc,
    {
        let mut r = self;
        r.diff = Some(diff);
        r
    }
}

/// The arguments of one module invocation, already rendered.
#[derive(Debug, Clone)]
pub struct ModuleArgs {
    args: StrMap,
}

/// The text of the error for a missing required argument.
pub open spec fn missing_message(key: Seq<char>) -> Seq<char> {
    seq![
        'm', 'i', 's', 's', 'i', 'n', 'g', ' ', 'r', 'e', 'q', 'u', 'i', 'r', 'e', 'd', ' ', 'a',
        'r', 'g', 'u', 'm', 'e', 'n', 't', ':', ' '
    ] + key
}

/// The values that count as a true flag.
pub open spec fn flag_true(v: Seq<char>) -> bool {
    v == seq!['t', 'r', 'u', 'e'] || v == seq!['y', 'e', 's'] || v == seq!['1']
}

impl View for ModuleArgs {
    type V = Map<Seq<char>, Seq<char>>;

    closed spec fn view(&self) -> Map<Seq<char>, Seq<char>> {
        self.args@
    }
}

impl ModuleArgs {
    pub fn new() -> (r: ModuleArgs)
        ensures
            r@ == Map::<Seq<char>, Seq<char>>::empty(),
    {
        ModuleArgs { args: StrMap::new() }
    }

    pub fn from_map(map: StrMap) -> (r: ModuleArgs)
        ensures
            r@ == map@,
    {
        ModuleArgs { args: map }
    }

    pub fn get(&self, key: &str) -> (r: Option<&String>)
        ensures
            match r {
                Some(v) => self@.contains_key(key@) && self@[key@] == v@,
                None => !self@.contains_key(key@),
            },
    {
        self.args.get(key)
    }

    /// The value of `key`, or `default` where it is absent.
    pub fn get_or(&self, key: &str, default: &str) -> (r: String)
        ensures
            r@ == (if self@.contains_key(key@) {
                self@[key@]
            } else {
                default@
            }),
    {
        match self.args.get(key) {
            Some(v) => v.clone(),
            None => default.to_owned(),
        }
    }

    /// Whether `key` holds `true`, `yes` or `1`.
    pub fn get_bool(&self, key: &str) -> (r: bool)
        ensures
            r == (self@.contains_key(key@) && flag_true(self@[key@])),
    {
        match self.args.get(key) {
            Some(v) => {
                let c = chars_of(v.as_str());
                let t: Vec<char> = vec!['t', 'r', 'u', 'e'];
                let y: Vec<char> = vec!['y', 'e', 's'];
                let one: Vec<char> = vec!['1'];
                assert(t@ =~= seq!['t', 'r', 'u', 'e']);
                assert(y@ =~= seq!['y', 'e', 's']);
                assert(one@ =~= seq!['1']);
                crate::text::chars_eq(&c, &t) || crate::text::chars_eq(&c, &y)
                    || crate::text::chars_eq(&c, &one)
            },
            None => false,
        }
    }

    /// The value of a required argument.
    pub fn require(&self, key: &str) -> (r: Result<&String, String>)
        ensures
            match r {
                Ok(v) => self@.contains_key(key@) && self@[key@] == v@,
                Err(e) => !self@.contains_key(key@) && e@ == missing_message(key@),
            },
    {
        match self.args.get(key) {
            Some(v) => Ok(v),
            None => {
                let mut m: Vec<char> = vec![
                    'm', 'i', 's', 's', 'i', 'n', 'g', ' ', 'r', 'e', 'q', 'u', 'i', 'r', 'e', 'd', ' ', 'a',
                    'r', 'g', 'u', 'm', 'e', 'n', 't', ':', ' '
                ];
                let k = chars_of(key);
                append(&mut m, &k);
                assert(m@ =~= missing_message(key@));
                Err(string_of(&m))
            },
        }
    }

    pub fn insert(&mut self, key: &str, value: &str)
        ensures
            final(self)@ == old(self)@.insert(key@, value@),
    {
        self.args.insert(key, value);
    }
}

/// Lines joined with a newline between each two.
pub open spec fn joined_lines(lines: Seq<Seq<char>>) -> Seq<char> {
    crate::text::join(lines, seq!['\n'])
}

/// The lines with `line` inserted after the first line that contains `after`,
/// or at the end where no line does or where `after` is `EOF`.
pub open spec fn lines_inserted_after(lines: Seq<Seq<char>>, after: Seq<char>, line: Seq<char>) -> Seq<
    Seq<char>,
> {
    let hit = |l: Seq<char>| contains(l, after);
    if after != seq!['E', 'O', 'F'] && exists|i: int| 0 <= i < lines.len() && hit(lines[i]) {
        let i = choose|i: int|
            0 <= i < lines.len() && hit(lines[i]) && forall|j: int| 0 <= j < i ==> !hit(lines[j]);
        lines.take(i + 1).push(line) + lines.skip(i + 1)
    } else {
        lines.push(line)
    }
}

/// The lines with `line` inserted before the first line that contains `before`
/// (before the first line at all where `before` is `BOF`), or at the start.
pub open spec fn lines_inserted_before(lines: Seq<Seq<char>>, before: Seq<char>, line: Seq<char>) -> Seq<
    Seq<char>,
> {
    let hit = |l: Seq<char>| before == seq!['B', 'O', 'F'] || contains(l, before);
    if exists|i: int| 0 <= i < lines.len() && hit(lines[i]) {
        let i = choose|i: int|
            0 <= i < lines.len() && hit(lines[i]) && forall|j: int| 0 <= j < i ==> !hit(lines[j]);
        lines.take(i).push(line) + lines.skip(i)
    } else {
        seq![line] + lines
    }
}

fn lines_of(lines: &Vec<&str>) -> (r: Vec<Vec<char>>)
    ensures
        r@.len() == lines@.len(),
        forall|k: int| 0 <= k < r@.len() ==> #[trigger] r@[k]@ == lines@[k]@,
{
    let mut r: Vec<Vec<char>> = Vec::new();
    let mut i: usize = 0;
    while i < lines.len()
        invariant
            i <= lines@.len(),
            r@.len() == i,
            forall|k: int| 0 <= k < i ==> #[trigger] r@[k]@ == lines@[k]@,
        decreases lines.len() - i,
    {
        r.push(chars_of(lines[i]));
        i = i + 1;
    }
    r
}

fn is_word(s: &Vec<char>, w: &Vec<char>) -> (r: bool)
    ensures
        r == (s@ == w@),
{
    crate::text::chars_eq(s, w)
}

/// The file's lines with `line` inserted after the first line containing
/// `after` (`EOF`: after the first line), or appended; joined by newlines.
pub fn insert_after(lines: &Vec<&str>, after: &str, line: &str) -> (r: String)
    ensures
        r@ == joined_lines(
            lines_inserted_after(lines@.map_values(|l: &str| l@), after@, line@),
        ),
{
    let ls = lines_of(lines);
    let ghost src = lines@.map_values(|l: &str| l@);
    let a = chars_of(after);
    let ln = chars_of(line);
    let eof: Vec<char> = vec!['E', 'O', 'F'];
    let is_eof = is_word(&a, &eof);
    let ghost hit = |l: Seq<char>| contains(l, after@);
    assert(eof@ =~= seq!['E', 'O', 'F']);
    let mut out: Vec<Vec<char>> = Vec::new();
    let mut inserted = false;
    let mut i: usize = 0;
    let ghost mut at: int = -1;
    while i < ls.len()
        invariant
            i <= ls@.len(),
            ls@.len() == src.len(),
            forall|k: int| 0 <= k < ls@.len() ==> #[trigger] ls@[k]@ == src[k],
            is_eof == (after@ == seq!['E', 'O', 'F']),
            a@ == after@,
            ln@ == line@,
            hit == (|l: Seq<char>| contains(l, after@)),
            inserted ==> !is_eof && 0 <= at < i && hit(src[at]) && (forall|j: int| 0 <= j < at ==> !hit(src[j]))
                && out@.map_values(|p: Vec<char>| p@) == src.take(at + 1).push(line@) + src.subrange(at + 1, i as int),
            !inserted ==> (is_eof || forall|j: int| 0 <= j < i ==> !hit(src[j])) && out@.map_values(
                |p: Vec<char>| p@,
            ) == src.take(i as int),
        decreases ls.len() - i,
    {
        let ghost before = out@.map_values(|p: Vec<char>| p@);
        out.push(ls[i].clone());
        proof {
            assert(out@.map_values(|p: Vec<char>| p@) =~= before.push(src[i as int]));
            if inserted {
                assert(src.take(at + 1).push(line@) + src.subrange(at + 1, i + 1) =~= (src.take(at + 1).push(line@) + src.subrange(at + 1, i as int)).push(src[i as int]));
            } else {
                assert(src.take(i + 1) =~= src.take(i as int).push(src[i as int]));
            }
        }
        if !inserted && !is_eof && has(&ls[i], &a) {
            let ghost before2 = out@.map_values(|p: Vec<char>| p@);
            out.push(ln.clone());
            inserted = true;
            proof {
                at = i as int;
                assert(out@.map_values(|p: Vec<char>| p@) =~= before2.push(line@));
                assert(src.subrange(at + 1, i + 1).len() == 0);
                assert(out@.map_values(|p: Vec<char>| p@) =~= src.take(at + 1).push(line@) + src.subrange(at + 1, i + 1));
            }
        }
        i = i + 1;
    }
    proof {
        if inserted {
            assert(src.subrange(at + 1, src.len() as int) =~= src.skip(at + 1));
            assert(exists|k: int| 0 <= k < src.len() && hit(src[k]));
            let c = choose|k: int|
                0 <= k < src.len() && hit(src[k]) && forall|j: int| 0 <= j < k ==> !hit(src[j]);
            assert(c == at) by {
                if c < at {
                } else if c > at {
                }
            }
        } else {
            assert(src.take(src.len() as int) =~= src);
        }
    }
    if !inserted {
        let ghost before3 = out@.map_values(|p: Vec<char>| p@);
        out.push(ln.clone());
        assert(out@.map_values(|p: Vec<char>| p@) =~= before3.push(line@));
    }
    let sep: Vec<char> = vec!['\n'];
    let joined = crate::text::join_with(&out, &sep);
    assert(sep@ =~= seq!['\n']);
    string_of(&joined)
}

/// The file's lines with `line` inserted before the first line containing
/// `before` (`BOF`: before the first line), or prepended; joined by newlines.
pub fn insert_before(lines: &Vec<&str>, before: &str, line: &str) -> (r: String)
    ensures
        r@ == joined_lines(
            lines_inserted_before(lines@.map_values(|l: &str| l@), before@, line@),
        ),
{
    let ls = lines_of(lines);
    let ghost src = lines@.map_values(|l: &str| l@);
    let b = chars_of(before);
    let ln = chars_of(line);
    let bof: Vec<char> = vec!['B', 'O', 'F'];
    let is_bof = is_word(&b, &bof);
    let ghost hit = |l: Seq<char>| before@ == seq!['B', 'O', 'F'] || contains(l, before@);
    assert(bof@ =~= seq!['B', 'O', 'F']);
    let mut out: Vec<Vec<char>> = Vec::new();
    let mut inserted = false;
    let mut i: usize = 0;
    let ghost mut at: int = -1;
    while i < ls.len()
        invariant
            i <= ls@.len(),
            ls@.len() == src.len(),
            forall|k: int| 0 <= k < ls@.len() ==> #[trigger] ls@[k]@ == src[k],
            is_bof == (before@ == seq!['B', 'O', 'F']),
            b@ == before@,
            ln@ == line@,
            hit == (|l: Seq<char>| before@ == seq!['B', 'O', 'F'] || contains(l, before@)),
            inserted ==> 0 <= at < i && hit(src[at]) && (forall|j: int| 0 <= j < at ==> !hit(src[j]))
                && out@.map_values(|p: Vec<char>| p@) == src.take(at).push(line@) + src.subrange(at, i as int),
            !inserted ==> (forall|j: int| 0 <= j < i ==> !hit(src[j])) && out@.map_values(
                |p: Vec<char>| p@,
            ) == src.take(i as int),
        decreases ls.len() - i,
    {
        if !inserted && (is_bof || has(&ls[i], &b)) {
            let ghost before2 = out@.map_values(|p: Vec<char>| p@);
            out.push(ln.clone());
            inserted = true;
            proof {
                at = i as int;
                assert(out@.map_values(|p: Vec<char>| p@) =~= before2.push(line@));
                assert(out@.map_values(|p: Vec<char>| p@) =~= src.take(at).push(line@) + src.subrange(at, i as int));
            }
        }
        let ghost before = out@.map_values(|p: Vec<char>| p@);
        out.push(ls[i].clone());
        proof {
            assert(out@.map_values(|p: Vec<char>| p@) =~= before.push(src[i as int]));
            if inserted {
                assert(src.take(at).push(line@) + src.subrange(at, i + 1) =~= (src.take(at).push(line@) + src.subrange(at, i as int)).push(src[i as int]));
            } else {
                assert(src.take(i + 1) =~= src.take(i as int).push(src[i as int]));
            }
        }
        i = i + 1;
    }
    proof {
        if inserted {
            assert(src.subrange(at, src.len() as int) =~= src.skip(at));
            assert(exists|k: int| 0 <= k < src.len() && hit(src[k]));
            let c = choose|k: int|
                0 <= k < src.len() && hit(src[k]) && forall|j: int| 0 <= j < k ==> !hit(src[j]);
            assert(c == at) by {
                if c < at {
                } else if c > at {
                }
            }
        } else {
            assert(src.take(src.len() as int) =~= src);
        }
    }
    let result = if !inserted {
        let mut first: Vec<Vec<char>> = vec![ln.clone()];
        let ghost one = first@.map_values(|p: Vec<char>| p@);
        assert(one =~= seq![line@]);
        let mut j: usize = 0;
        while j < out.len()
            invariant
                j <= out@.len(),
                first@.map_values(|p: Vec<char>| p@) == seq![line@] + out@.map_values(
                    |p: Vec<char>| p@,
                ).take(j as int),
            decreases out.len() - j,
        {
            let ghost f0 = first@.map_values(|p: Vec<char>| p@);
            first.push(out[j].clone());
            assert(first@.map_values(|p: Vec<char>| p@) =~= f0.push(out@[j as int]@));
            assert(out@.map_values(|p: Vec<char>| p@).take(j + 1) =~= out@.map_values(
                |p: Vec<char>| p@,
            ).take(j as int).push(out@[j as int]@));
            j = j + 1;
        }
        assert(out@.map_values(|p: Vec<char>| p@).take(out@.len() as int) =~= out@.map_values(
            |p: Vec<char>| p@,
        ));
        first
    } else {
        out
    };
    let sep: Vec<char> = vec!['\n'];
    let joined = crate::text::join_with(&result, &sep);
    assert(sep@ =~= seq!['\n']);
    string_of(&joined)
}

} // verus!
