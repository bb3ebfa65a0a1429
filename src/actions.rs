//! The decisions of the built-in modules. Each module inspects remote state,
//! then acts only where the desired state does not hold; the commands it
//! sends and the result it reports are computed here from the arguments and
//! from what the inspection returned.
use vstd::prelude::*;
use crate::connection::CommandResult;
use crate::modules::{missing_message, ModuleArgs, ModuleResult};
use crate::text::{append, chars_of, contains, replace_all, replaced, string_of};

verus! {

/// The command a command-like module runs: `_raw`, else `cmd`.
pub open spec fn command_arg(args: Map<Seq<char>, Seq<char>>) -> Option<Seq<char>> {
    if args.contains_key("_raw"@) {
        Some(args["_raw"@])
    } else if args.contains_key("cmd"@) {
        Some(args["cmd"@])
    } else {
        None
    }
}

/// `cmd`, run from `chdir` where it is given.
pub open spec fn in_dir(args: Map<Seq<char>, Seq<char>>, cmd: Seq<char>) -> Seq<char> {
    if args.contains_key("chdir"@) {
        "cd "@ + args["chdir"@] + " && "@ + cmd
    } else {
        cmd
    }
}

/// `cmd` quoted for a POSIX shell between single quotes.
pub open spec fn single_quoted(cmd: Seq<char>) -> Seq<char> {
    "'"@ + replace_all(cmd, "'"@, "'\\''"@) + "'"@
}

/// The command line of `command` and `raw` (`shell` is false) or of `shell`,
/// which runs the command through `executable` (default `/bin/sh`) `-c`.
pub open spec fn command_line(args: Map<Seq<char>, Seq<char>>, shell: bool) -> Option<Seq<char>> {
    match command_arg(args) {
        Some(cmd) => if shell {
            let sh = if args.contains_key("executable"@) {
                args["executable"@]
            } else {
                "/bin/sh"@
            };
            Some(in_dir(args, sh + " -c "@ + single_quoted(cmd)))
        } else {
            Some(in_dir(args, cmd))
        },
        None => None,
    }
}

fn join2(a: &str, b: &str) -> (r: String)
    ensures
        r@ == a@ + b@,
{
    let mut v = chars_of(a);
    append(&mut v, &chars_of(b));
    string_of(&v)
}

fn join3(a: &str, b: &str, c: &str) -> (r: String)
    ensures
        r@ == a@ + b@ + c@,
{
    let mut v = chars_of(a);
    append(&mut v, &chars_of(b));
    append(&mut v, &chars_of(c));
    string_of(&v)
}

/// The command line of a command-like module, or its failure where no
/// command is given.
pub fn build_command(args: &ModuleArgs, shell: bool) -> (r: Result<String, ModuleResult>)
    ensures
        match r {
            Ok(c) => command_line(args@, shell) == Some(c@),
            Err(f) => command_line(args@, shell) is None && f.failed && !f.changed && f.msg@
                == missing_message("cmd"@),
        },
{
    let cmd = match args.get("_raw") {
        Some(c) => c.clone(),
        None => match args.require("cmd") {
            Ok(c) => c.clone(),
            Err(e) => return Err(ModuleResult::failed(e.as_str())),
        },
    };
    let body = if shell {
        let sh = args.get_or("executable", "/bin/sh");
        let quoted = replaced(&chars_of(cmd.as_str()), &chars_of("'"), &chars_of("'\\''"));
        let q = join3("'", string_of(&quoted).as_str(), "'");
        join3(sh.as_str(), " -c ", q.as_str())
    } else {
        cmd
    };
    match args.get("chdir") {
        Some(dir) => {
            let head = join3("cd ", dir.as_str(), " && ");
            Ok(join2(head.as_str(), body.as_str()))
        },
        None => Ok(body),
    }
}

/// What a command-like module reports once its command ran: changed, with
/// the output, failed where the exit code is not zero.
pub fn command_ran(label: &str, out: &CommandResult) -> (r: ModuleResult)
    ensures
        r.changed && r.msg@ == label@,
        r.stdout@ == out.stdout@ && r.stderr@ == out.stderr@ && r.rc == out.exit_code,
        r.failed == (out.exit_code != 0),
{
    ModuleResult::changed(label).with_output(out.stdout.as_str(), out.stderr.as_str(), out.exit_code)
}

/// The `creates` / `removes` gates, from the exit codes of `test -e` on each
/// given path (`None` where the test could not run): `creates` skips where
/// its path exists, `removes` where its path does not.
pub open spec fn gated(creates: Option<Option<i32>>, removes: Option<Option<i32>>) -> Option<
    Seq<char>,
> {
    if creates == Some(Some(0i32)) {
        Some("skipped, creates exists"@)
    } else if removes is Some && removes.unwrap() is Some && removes.unwrap().unwrap() != 0 {
        Some("skipped, removes does not exist"@)
    } else {
        None
    }
}

/// The result of the gates, where one of them skips the module.
pub fn gate(creates: Option<Option<i32>>, removes: Option<Option<i32>>) -> (r: Option<ModuleResult>)
    ensures
        match r {
            Some(m) => gated(creates, removes) == Some(m.msg@) && !m.changed && !m.failed,
            None => gated(creates, removes) is None,
        },
{
    if let Some(Some(c)) = creates {
        if c == 0 {
            return Some(ModuleResult::ok("skipped, creates exists"));
        }
    }
    if let Some(Some(c)) = removes {
        if c != 0 {
            return Some(ModuleResult::ok("skipped, removes does not exist"));
        }
    }
    None
}

/// The command that tests whether a path exists.
pub fn exists_test(path: &str) -> (r: String)
    ensures
        r@ == "test -e "@ + path@,
{
    join2("test -e ", path)
}

/// Where `script` uploads the script before it runs it.
pub open spec fn script_target() -> Seq<char> {
    "/tmp/.ansible_script"@
}

/// The local script `script` runs (`_raw_params`, else `cmd`), and the
/// command that runs the uploaded copy; or the failure where none is given.
pub fn script_plan(args: &ModuleArgs) -> (r: Result<(String, String), ModuleResult>)
    ensures
        match r {
            Ok((local, cmd)) => {
                &&& local@ == (if args@.contains_key("_raw_params"@) {
                    args@["_raw_params"@]
                } else {
                    args@["cmd"@]
                })
                &&& (args@.contains_key("_raw_params"@) || args@.contains_key("cmd"@))
                &&& cmd@ == in_dir(args@, script_target())
            },
            Err(f) => !args@.contains_key("_raw_params"@) && !args@.contains_key("cmd"@) && f.failed,
        },
{
    let local = match args.get("_raw_params") {
        Some(p) => p.clone(),
        None => match args.require("cmd") {
            Ok(p) => p.clone(),
            Err(e) => return Err(ModuleResult::failed(e.as_str())),
        },
    };
    let target = "/tmp/.ansible_script";
    let cmd = match args.get("chdir") {
        Some(dir) => {
            let head = join3("cd ", dir.as_str(), " && ");
            join2(head.as_str(), target)
        },
        None => target.to_owned(),
    };
    Ok((local, cmd))
}

// ------------------------------------------------------------------ copy

pub open spec fn is_octal_digit(c: char) -> bool {
    '0' <= c && c <= '7'
}

pub open spec fn all_octal(d: Seq<char>) -> bool {
    forall|i: int| 0 <= i < d.len() ==> is_octal_digit(#[trigger] d[i])
}

/// The value of a run of octal digits.
pub open spec fn octal_digits_value(d: Seq<char>) -> nat
    decreases d.len(),
{
    if d.len() == 0 {
        0
    } else {
        octal_digits_value(d.drop_last()) * 8 + (d.last() as u32 - '0' as u32) as nat
    }
}

/// What `i32::from_str_radix(s, 8)` gives where it gives a value that is
/// not negative: an optional `+`, then octal digits whose value fits.
pub open spec fn octal_value(s: Seq<char>) -> Option<int> {
    let d = crate::inventory::unsigned_digits(s);
    if d.len() > 0 && all_octal(d) && octal_digits_value(d) <= i32::MAX {
        Some(octal_digits_value(d) as int)
    } else {
        None
    }
}

/// The file mode a module writes with: `mode` read as octal, else `0644`.
pub open spec fn file_mode(args: Map<Seq<char>, Seq<char>>) -> int {
    if args.contains_key("mode"@) && octal_value(args["mode"@]) is Some {
        octal_value(args["mode"@]).unwrap()
    } else {
        0o644
    }
}

proof fn lemma_octal_prefix_bound(d: Seq<char>, k: int)
    requires
        0 <= k <= d.len(),
    ensures
        all_octal(d) ==> octal_digits_value(d) >= octal_digits_value(d.take(k)),
    decreases d.len() - k,
{
    if k < d.len() {
        if all_octal(d) {
            assert(d.take(k + 1).drop_last() =~= d.take(k));
            lemma_octal_prefix_bound(d, k + 1);
        }
    } else {
        assert(d.take(k) =~= d);
    }
}

/// The mode `copy` and `template` write with.
pub fn write_mode(args: &ModuleArgs) -> (r: i32)
    ensures
        r as int == file_mode(args@),
{
    let text = match args.get("mode") {
        Some(m) => chars_of(m.as_str()),
        None => return 0o644,
    };
    let start: usize = if text.len() > 0 && text[0] == '+' {
        1
    } else {
        0
    };
    let ghost d = crate::inventory::unsigned_digits(text@);
    assert(d =~= text@.subrange(start as int, text.len() as int));
    if start == text.len() {
        return 0o644;
    }
    let mut acc: u64 = 0;
    let mut i: usize = start;
    assert(d.take(0) =~= Seq::<char>::empty());
    while i < text.len()
        invariant
            start <= i <= text.len(),
            args@.contains_key("mode"@) && text@ == args@["mode"@],
            d == crate::inventory::unsigned_digits(text@),
            d == text@.subrange(start as int, text.len() as int),
            forall|k: int| 0 <= k < i - start ==> is_octal_digit(#[trigger] d[k]),
            acc as nat == octal_digits_value(d.take(i - start)),
            acc <= i32::MAX,
        decreases text.len() - i,
    {
        let c = text[i];
        if !('0' <= c && c <= '7') {
            proof {
                assert(d[i - start] == c);
                assert(!all_octal(d));
            }
            return 0o644;
        }
        let v = (c as u32 - '0' as u32) as u64;
        assert(d.take(i - start + 1).drop_last() =~= d.take(i - start));
        assert(d[i - start] == c);
        let next = acc * 8 + v;
        assert(octal_digits_value(d.take(i - start + 1)) == next as nat);
        if next > i32::MAX as u64 {
            proof {
                lemma_octal_prefix_bound(d, i - start + 1);
            }
            return 0o644;
        }
        acc = next;
        i = i + 1;
    }
    assert(d.take(d.len() as int) =~= d);
    acc as i32
}

/// What `copy` writes: inline `content`, else the local file `src`.
pub enum CopySource {
    Inline(String),
    LocalFile(String),
}

/// The destination and the source of `copy`, or its failure.
pub fn copy_plan(args: &ModuleArgs) -> (r: Result<(String, CopySource), ModuleResult>)
    ensures
        match r {
            Ok((dest, src)) => args@.contains_key("dest"@) && dest@ == args@["dest"@] && match src {
                CopySource::Inline(c) => args@.contains_key("content"@) && c@ == args@["content"@],
                CopySource::LocalFile(p) => !args@.contains_key("content"@) && args@.contains_key(
                    "src"@,
                ) && p@ == args@["src"@],
            },
            Err(f) => f.failed && !f.changed && (!args@.contains_key("dest"@) || (
            !args@.contains_key("content"@) && !args@.contains_key("src"@))),
        },
{
    let dest = match args.require("dest") {
        Ok(d) => d.clone(),
        Err(e) => return Err(ModuleResult::failed(e.as_str())),
    };
    match args.get("content") {
        Some(c) => Ok((dest, CopySource::Inline(c.clone()))),
        None => match args.get("src") {
            Some(p) => Ok((dest, CopySource::LocalFile(p.clone()))),
            None => Err(ModuleResult::failed("either 'src' or 'content' required")),
        },
    }
}

/// Whether the remote file already holds the wanted bytes.
pub fn same_bytes(existing: &Vec<u8>, wanted: &Vec<u8>) -> (r: bool)
    ensures
        r == (existing@ == wanted@),
{
    if existing.len() != wanted.len() {
        return false;
    }
    let mut i: usize = 0;
    while i < existing.len()
        invariant
            existing@.len() == wanted@.len(),
            i <= existing@.len(),
            existing@.take(i as int) == wanted@.take(i as int),
        decreases existing.len() - i,
    {
        if existing[i] != wanted[i] {
            return false;
        }
        assert(existing@.take(i + 1) =~= existing@.take(i as int).push(existing@[i as int]));
        assert(wanted@.take(i + 1) =~= wanted@.take(i as int).push(wanted@[i as int]));
        i = i + 1;
    }
    assert(existing@ =~= existing@.take(existing@.len() as int));
    assert(wanted@ =~= wanted@.take(wanted@.len() as int));
    true
}

// ------------------------------------------------------------------- apt

/// The command whose exit code tells whether package `name` is installed.
pub fn installed_query(name: &str) -> (r: String)
    ensures
        r@ == "dpkg-query -W -f='${Status}' "@ + name@ + " 2>/dev/null | grep -q 'ok installed'"@,
{
    join3("dpkg-query -W -f='${Status}' ", name, " 2>/dev/null | grep -q 'ok installed'")
}

/// What a module does after inspecting: report at once, or run a command
/// and report `changed` with the message where it succeeds.
pub enum Action {
    Report(ModuleResult),
    Run(String, String),
}

/// What `apt` does for `state`, given whether the package is installed.
pub open spec fn apt_action(state: Seq<char>, name: Seq<char>, installed: bool) -> (Option<
    Seq<char>,
>, Seq<char>) {
    if state == "latest"@ {
        if installed {
            (
                Some("DEBIAN_FRONTEND=noninteractive apt-get install -y -qq --only-upgrade "@ + name),
                "upgraded"@,
            )
        } else {
            (Some("DEBIAN_FRONTEND=noninteractive apt-get install -y -qq "@ + name), "installed"@)
        }
    } else if state == "present"@ || state == "installed"@ {
        if installed {
            (None, "already installed"@)
        } else {
            (Some("DEBIAN_FRONTEND=noninteractive apt-get install -y -qq "@ + name), "installed"@)
        }
    } else if state == "absent"@ || state == "removed"@ {
        if !installed {
            (None, "already absent"@)
        } else {
            (Some("DEBIAN_FRONTEND=noninteractive apt-get remove -y -qq "@ + name), "removed"@)
        }
    } else {
        (None, "unknown state: "@ + state)
    }
}

fn str_eq(a: &str, b: &str) -> (r: bool)
    ensures
        r == (a@ == b@),
{
    crate::text::chars_eq(&chars_of(a), &chars_of(b))
}

/// What `apt` does for its `state` (default `present`), given whether the
/// package is installed.
pub fn apt_plan(state: &str, name: &str, installed: bool) -> (r: Action)
    ensures
        match r {
            Action::Report(m) => apt_action(state@, name@, installed).0 is None && m.msg@
                == apt_action(state@, name@, installed).1 && !m.changed && m.failed == !(
            state@ == "present"@ || state@ == "installed"@ || state@ == "latest"@ || state@
                == "absent"@ || state@ == "removed"@),
            Action::Run(cmd, msg) => apt_action(state@, name@, installed).0 == Some(cmd@) && msg@
                == apt_action(state@, name@, installed).1,
        },
{
    if str_eq(state, "latest") {
        if installed {
            Action::Run(
                join2("DEBIAN_FRONTEND=noninteractive apt-get install -y -qq --only-upgrade ", name),
                "upgraded".to_owned(),
            )
        } else {
            Action::Run(
                join2("DEBIAN_FRONTEND=noninteractive apt-get install -y -qq ", name),
                "installed".to_owned(),
            )
        }
    } else if str_eq(state, "present") || str_eq(state, "installed") {
        if installed {
            Action::Report(ModuleResult::ok("already installed"))
        } else {
            Action::Run(
                join2("DEBIAN_FRONTEND=noninteractive apt-get install -y -qq ", name),
                "installed".to_owned(),
            )
        }
    } else if str_eq(state, "absent") || str_eq(state, "removed") {
        if !installed {
            Action::Report(ModuleResult::ok("already absent"))
        } else {
            Action::Run(
                join2("DEBIAN_FRONTEND=noninteractive apt-get remove -y -qq ", name),
                "removed".to_owned(),
            )
        }
    } else {
        let m = join2("unknown state: ", state);
        Action::Report(ModuleResult::failed(m.as_str()))
    }
}

/// What `apt` with `state=latest` reports once apt ran: where the package
/// was installed and apt upgraded nothing (`0 upgraded`), it already was the
/// latest; else what its command did.
pub open spec fn latest_outcome(installed: bool, out: CommandResult) -> (bool, bool, Seq<char>) {
    if out.exit_code != 0 {
        (false, true, out.stderr@)
    } else if installed && contains(out.stdout@, "0 upgraded"@) {
        (false, false, "already latest"@)
    } else {
        (true, false, if installed { "upgraded"@ } else { "installed"@ })
    }
}

pub fn latest_done(installed: bool, out: &CommandResult) -> (r: ModuleResult)
    ensures
        (r.changed, r.failed, r.msg@) == latest_outcome(installed, *out),
{
    if out.exit_code != 0 {
        ModuleResult::failed(out.stderr.as_str())
    } else if installed && crate::text::has(&chars_of(out.stdout.as_str()), &chars_of("0 upgraded")) {
        ModuleResult::ok("already latest")
    } else if installed {
        ModuleResult::changed("upgraded")
    } else {
        ModuleResult::changed("installed")
    }
}

/// What `apt` reports once its command ran: for `latest` as `latest_done`
/// says, else as `mutation_done` says.
pub fn apt_done(state: &str, installed: bool, msg: &str, out: &CommandResult) -> (r: ModuleResult)
    ensures
        state@ == "latest"@ ==> (r.changed, r.failed, r.msg@) == latest_outcome(installed, *out),
        state@ != "latest"@ && out.exit_code == 0 ==> r.changed && !r.failed && r.msg@ == msg@,
        state@ != "latest"@ && out.exit_code != 0 ==> !r.changed && r.failed && r.msg@ == out.stderr@,
{
    if str_eq(state, "latest") {
        latest_done(installed, out)
    } else {
        mutation_done(msg, out)
    }
}

/// The command `apt` runs first where `update_cache` is set.
pub fn cache_update(args: &ModuleArgs) -> (r: Option<String>)
    ensures
        r matches Some(c) ==> c@ == "apt-get update -qq"@,
        r is Some <==> (args@.contains_key("update_cache"@) && crate::modules::flag_true(
            args@["update_cache"@],
        )),
{
    if args.get_bool("update_cache") {
        Some("apt-get update -qq".to_owned())
    } else {
        None
    }
}

/// The failure of a cache update that did not exit 0; `error` is the
/// transport's message where the command could not run.
pub fn cache_update_failed(out: Option<&CommandResult>, error: Option<&str>) -> (r: Option<ModuleResult>)
    ensures
        match r {
            Some(m) => m.failed && !m.changed && (out is Some ==> out.unwrap().exit_code != 0),
            None => out is Some && out.unwrap().exit_code == 0,
        },
{
    match out {
        Some(o) => if o.exit_code != 0 {
            Some(ModuleResult::failed("apt-get update failed"))
        } else {
            None
        },
        None => {
            let m = match error {
                Some(e) => join2("apt-get update failed: ", e),
                None => "apt-get update failed".to_owned(),
            };
            Some(ModuleResult::failed(m.as_str()))
        },
    }
}

/// Whether `copy` or `template` must write: the remote file could not be
/// read or holds other bytes than those wanted.
pub fn must_write(existing: Option<&Vec<u8>>, wanted: &Vec<u8>) -> (r: bool)
    ensures
        r == !(existing matches Some(e) && e@ == wanted@),
{
    match existing {
        Some(e) => !same_bytes(e, wanted),
        None => true,
    }
}

/// What `copy` or `template` reports: the file already held the bytes
/// (`unchanged`), or the write succeeded (`done`) or failed with the
/// transport's message.
pub fn write_outcome(wrote: bool, error: Option<&str>, unchanged: &str, done: &str) -> (r: ModuleResult)
    ensures
        !wrote ==> !r.changed && !r.failed && r.msg@ == unchanged@,
        wrote && error is None ==> r.changed && !r.failed && r.msg@ == done@,
        wrote && error is Some ==> !r.changed && r.failed && r.msg@ == "failed to write: "@
            + error.unwrap()@,
{
    if !wrote {
        ModuleResult::ok(unchanged)
    } else {
        match error {
            None => ModuleResult::changed(done),
            Some(e) => {
                let m = join2("failed to write: ", e);
                ModuleResult::failed(m.as_str())
            },
        }
    }
}

/// The template file and the destination of `template`, or its failure.
pub fn template_plan(args: &ModuleArgs) -> (r: Result<(String, String), ModuleResult>)
    ensures
        match r {
            Ok((src, dest)) => args@.contains_key("src"@) && args@.contains_key("dest"@) && src@
                == args@["src"@] && dest@ == args@["dest"@],
            Err(f) => f.failed && !f.changed && (!args@.contains_key("src"@) || !args@.contains_key(
                "dest"@,
            )),
        },
{
    let src = match args.require("src") {
        Ok(s) => s.clone(),
        Err(e) => return Err(ModuleResult::failed(e.as_str())),
    };
    let dest = match args.require("dest") {
        Ok(d) => d.clone(),
        Err(e) => return Err(ModuleResult::failed(e.as_str())),
    };
    Ok((src, dest))
}

/// What a module reports once its mutating command ran: `changed` with the
/// message where it exited 0, else failed with its error output.
pub fn mutation_done(msg: &str, out: &CommandResult) -> (r: ModuleResult)
    ensures
        out.exit_code == 0 ==> r.changed && !r.failed && r.msg@ == msg@,
        out.exit_code != 0 ==> !r.changed && r.failed && r.msg@ == out.stderr@,
{
    if out.exit_code == 0 {
        ModuleResult::changed(msg)
    } else {
        ModuleResult::failed(out.stderr.as_str())
    }
}

// --------------------------------------------------------------- service

/// The command whose exit code tells whether service `name` is running.
pub fn active_query(name: &str) -> (r: String)
    ensures
        r@ == "systemctl is-active "@ + name@ + " 2>/dev/null"@,
{
    join3("systemctl is-active ", name, " 2>/dev/null")
}

/// What `service` does for `state`, given whether the service is running:
/// `started` and `stopped` act only where the service is not already so;
/// `restarted` and `reloaded` always act.
pub open spec fn service_action(state: Option<Seq<char>>, name: Seq<char>, active: bool) -> (Option<
    Seq<char>,
>, Seq<char>) {
    match state {
        None => (None, "no state specified"@),
        Some(s) => if s == "started"@ {
            if active {
                (None, "already started"@)
            } else {
                (Some("systemctl start "@ + name), "started"@)
            }
        } else if s == "stopped"@ {
            if !active {
                (None, "already stopped"@)
            } else {
                (Some("systemctl stop "@ + name), "stopped"@)
            }
        } else if s == "restarted"@ {
            (Some("systemctl restart "@ + name), "restarted"@)
        } else if s == "reloaded"@ {
            (Some("systemctl reload "@ + name), "reloaded"@)
        } else {
            (None, "unknown state: "@ + s)
        },
    }
}

pub open spec fn opt_view(s: Option<&str>) -> Option<Seq<char>> {
    match s {
        Some(x) => Some(x@),
        None => None,
    }
}

pub open spec fn known_service_state(s: Option<Seq<char>>) -> bool {
    s is None || s == Some("started"@) || s == Some("stopped"@) || s == Some("restarted"@) || s
        == Some("reloaded"@)
}

pub fn service_plan(state: Option<&str>, name: &str, active: bool) -> (r: Action)
    ensures
        match r {
            Action::Report(m) => service_action(opt_view(state), name@, active).0 is None && m.msg@
                == service_action(opt_view(state), name@, active).1 && !m.changed && m.failed
                == !known_service_state(opt_view(state)),
            Action::Run(cmd, msg) => service_action(opt_view(state), name@, active) == (
                Some(cmd@),
                msg@,
            ),
        },
{
    match state {
        None => Action::Report(ModuleResult::ok("no state specified")),
        Some(s) => {
            if str_eq(s, "started") {
                if active {
                    Action::Report(ModuleResult::ok("already started"))
                } else {
                    Action::Run(join2("systemctl start ", name), "started".to_owned())
                }
            } else if str_eq(s, "stopped") {
                if !active {
                    Action::Report(ModuleResult::ok("already stopped"))
                } else {
                    Action::Run(join2("systemctl stop ", name), "stopped".to_owned())
                }
            } else if str_eq(s, "restarted") {
                Action::Run(join2("systemctl restart ", name), "restarted".to_owned())
            } else if str_eq(s, "reloaded") {
                Action::Run(join2("systemctl reload ", name), "reloaded".to_owned())
            } else {
                let m = join2("unknown state: ", s);
                Action::Report(ModuleResult::failed(m.as_str()))
            }
        },
    }
}

/// The command whose exit code tells whether service `name` starts at boot.
pub fn enabled_query(name: &str) -> (r: String)
    ensures
        r@ == "systemctl is-enabled "@ + name@ + " 2>/dev/null"@,
{
    join3("systemctl is-enabled ", name, " 2>/dev/null")
}

/// What `service` does for `enabled`, given whether the service is enabled:
/// `enable` where it should be and is not, `disable` where it should not be
/// and is; nothing otherwise.
pub open spec fn enable_action(enabled: Option<Seq<char>>, name: Seq<char>, is_enabled: bool) -> Option<
    Seq<char>,
> {
    match enabled {
        None => None,
        Some(e) => {
            let want = e == "true"@ || e == "yes"@;
            if want && !is_enabled {
                Some("systemctl enable "@ + name)
            } else if !want && is_enabled {
                Some("systemctl disable "@ + name)
            } else {
                None
            }
        },
    }
}

/// The command that brings the boot setting in line, with its message.
pub fn enable_plan(enabled: Option<&str>, name: &str, is_enabled: bool) -> (r: Option<(String, String)>)
    ensures
        match r {
            Some((c, m)) => enable_action(opt_view(enabled), name@, is_enabled) == Some(c@) && m@
                == (if is_enabled { "disabled"@ } else { "enabled"@ }),
            None => enable_action(opt_view(enabled), name@, is_enabled) is None,
        },
{
    match enabled {
        None => None,
        Some(e) => {
            let want = str_eq(e, "true") || str_eq(e, "yes");
            if want && !is_enabled {
                Some((join2("systemctl enable ", name), "enabled".to_owned()))
            } else if !want && is_enabled {
                Some((join2("systemctl disable ", name), "disabled".to_owned()))
            } else {
                None
            }
        },
    }
}

/// The result of `service` from its two parts: the outcome of the
/// `enable`/`disable` command (where one ran) and that of the running
/// state. A failure of either fails; a change in either changes.
pub fn service_outcome(enable: Option<ModuleResult>, state: ModuleResult) -> (r: ModuleResult)
    ensures
        match enable {
            Some(e) => if e.failed {
                r == e
            } else {
                &&& state.failed ==> r == state
                &&& !state.failed ==> !r.failed && r.changed == (e.changed || state.changed)
            },
            None => r == state,
        },
{
    match enable {
        Some(e) => {
            if e.failed {
                e
            } else if state.failed || state.changed {
                state
            } else {
                e
            }
        },
        None => state,
    }
}

// ------------------------------------------------------------------ file

/// How the inspection command of `file` tells that the state already holds.
pub enum ProbeRule {
    /// It exits 0.
    Succeeds,
    /// It does not exit 0 (or cannot run).
    Fails,
    /// It exits 0 and prints this text (surrounding white space aside).
    Prints(String),
}

/// What `file` does: an optional inspection, the message where the state
/// already holds, the commands that establish it (the last one decides), and
/// the messages for success and failure. With no commands, a state that does
/// not hold is a failure.
pub struct FilePlan {
    pub probe: Option<(String, ProbeRule)>,
    pub settled: String,
    pub commands: Vec<String>,
    pub done: String,
    pub failure: String,
}

/// A plan as values: probe command and rule (`0` succeeds, `1` fails, `2`
/// prints the text), messages, commands.
pub open spec fn probe_model(p: Option<(String, ProbeRule)>) -> Option<(Seq<char>, int, Seq<char>)> {
    match p {
        Some((c, ProbeRule::Succeeds)) => Some((c@, 0, Seq::empty())),
        Some((c, ProbeRule::Fails)) => Some((c@, 1, Seq::empty())),
        Some((c, ProbeRule::Prints(t))) => Some((c@, 2, t@)),
        None => None,
    }
}

pub open spec fn plan_matches(
    p: FilePlan,
    probe: Option<(Seq<char>, int, Seq<char>)>,
    settled: Seq<char>,
    commands: Seq<Seq<char>>,
    done: Seq<char>,
    failure: Seq<char>,
) -> bool {
    &&& probe_model(p.probe) == probe
    &&& p.settled@ == settled
    &&& p.commands@.map_values(|c: String| c@) == commands
    &&& p.done@ == done
    &&& p.failure@ == failure
}

/// What `file` plans for `state` on `path` (with `src` for `link`):
/// `file` checks that a regular file exists; `directory` creates it with
/// `mkdir -p`; `absent` removes with `rm -rf`; `link` compares `readlink`
/// with `src`, then replaces the link; `touch` always touches.
pub open spec fn file_spec(state: Seq<char>, path: Seq<char>, src: Option<Seq<char>>) -> Option<
    (Option<(Seq<char>, int, Seq<char>)>, Seq<char>, Seq<Seq<char>>, Seq<char>, Seq<char>),
> {
    if state == "file"@ {
        Some((Some(("test -f "@ + path, 0, Seq::empty())), "file unchanged"@, Seq::empty(), "file unchanged"@, "path does not exist: "@ + path))
    } else if state == "directory"@ {
        Some((Some(("test -d "@ + path, 0, Seq::empty())), "directory unchanged"@, seq!["mkdir -p "@ + path], "directory created"@, "failed to create directory: "@ + path))
    } else if state == "absent"@ {
        Some((Some(("test -e "@ + path, 1, Seq::empty())), "path already absent"@, seq!["rm -rf "@ + path], "path removed"@, "failed to remove: "@ + path))
    } else if state == "link"@ && src is Some {
        Some((Some(("readlink "@ + path, 2, src.unwrap())), "link unchanged"@, seq!["rm -f "@ + path, "ln -s "@ + src.unwrap() + " "@ + path], "link created"@, "failed to create link: "@ + path))
    } else if state == "touch"@ {
        Some((None, "file touched"@, seq!["touch "@ + path], "file touched"@, "failed to touch: "@ + path))
    } else {
        None
    }
}

/// The `state` argument of `file`, `file` by default.
pub open spec fn file_state(args: Map<Seq<char>, Seq<char>>) -> Seq<char> {
    if args.contains_key("state"@) {
        args["state"@]
    } else {
        "file"@
    }
}

pub open spec fn plan_agrees(
    p: FilePlan,
    f: Option<(Option<(Seq<char>, int, Seq<char>)>, Seq<char>, Seq<Seq<char>>, Seq<char>, Seq<char>)>,
) -> bool {
    match f {
        Some((probe, settled, commands, done, failure)) => plan_matches(
            p,
            probe,
            settled,
            commands,
            done,
            failure,
        ),
        None => false,
    }
}

fn one_command(c: String) -> (r: Vec<String>)
    ensures
        r@.map_values(|x: String| x@) == seq![c@],
{
    let r = vec![c];
    assert(r@.map_values(|x: String| x@) =~= seq![r@[0]@]);
    r
}

/// The plan of `file` for its arguments (`state` defaults to `file`), or its
/// failure: a missing `path`, a `link` without `src`, an unknown state.
pub fn file_plan(args: &ModuleArgs) -> (r: Result<FilePlan, ModuleResult>)
    ensures
        match r {
            Ok(p) => args@.contains_key("path"@) && plan_agrees(
                p,
                file_spec(file_state(args@), args@["path"@], opt_arg(args@, "src"@)),
            ),
            Err(f) => f.failed && !f.changed && (!args@.contains_key("path"@) || file_spec(
                file_state(args@),
                args@["path"@],
                opt_arg(args@, "src"@),
            ) is None),
        },
{
    let path = match args.require("path") {
        Ok(p) => p.clone(),
        Err(e) => return Err(ModuleResult::failed(e.as_str())),
    };
    let state = args.get_or("state", "file");
    let st = state.as_str();
    let p = path.as_str();
    if str_eq(st, "file") {
        let plan = FilePlan {
            probe: Some((join2("test -f ", p), ProbeRule::Succeeds)),
            settled: "file unchanged".to_owned(),
            commands: Vec::new(),
            done: "file unchanged".to_owned(),
            failure: join2("path does not exist: ", p),
        };
        assert(plan.commands@.map_values(|c: String| c@) =~= Seq::<Seq<char>>::empty());
        Ok(plan)
    } else if str_eq(st, "directory") {
        Ok(FilePlan {
            probe: Some((join2("test -d ", p), ProbeRule::Succeeds)),
            settled: "directory unchanged".to_owned(),
            commands: one_command(join2("mkdir -p ", p)),
            done: "directory created".to_owned(),
            failure: join2("failed to create directory: ", p),
        })
    } else if str_eq(st, "absent") {
        Ok(FilePlan {
            probe: Some((join2("test -e ", p), ProbeRule::Fails)),
            settled: "path already absent".to_owned(),
            commands: one_command(join2("rm -rf ", p)),
            done: "path removed".to_owned(),
            failure: join2("failed to remove: ", p),
        })
    } else if str_eq(st, "link") {
        let src = match args.require("src") {
            Ok(s) => s.clone(),
            Err(e) => {
                proof {
                    reveal_strlit("link");
                    reveal_strlit("touch");
                    assert("link"@[0] != "touch"@[0]);
                }
                return Err(ModuleResult::failed(e.as_str()));
            },
        };
        let link = join3(join2("ln -s ", src.as_str()).as_str(), " ", p);
        let commands = vec![join2("rm -f ", p), link];
        assert(commands@.map_values(|c: String| c@) =~= seq![commands@[0]@, commands@[1]@]);
        Ok(FilePlan {
            probe: Some((join2("readlink ", p), ProbeRule::Prints(src))),
            settled: "link unchanged".to_owned(),
            commands,
            done: "link created".to_owned(),
            failure: join2("failed to create link: ", p),
        })
    } else if str_eq(st, "touch") {
        Ok(FilePlan {
            probe: None,
            settled: "file touched".to_owned(),
            commands: one_command(join2("touch ", p)),
            done: "file touched".to_owned(),
            failure: join2("failed to touch: ", p),
        })
    } else {
        let m = join2("unknown state: ", st);
        Err(ModuleResult::failed(m.as_str()))
    }
}

/// Whether the inspection shows the state already holds; `out` is `None`
/// where the command could not run.
pub open spec fn probe_holds(rule: int, text: Seq<char>, out: Option<CommandResult>) -> bool {
    if rule == 0 {
        out matches Some(o) && o.exit_code == 0
    } else if rule == 1 {
        !(out matches Some(o) && o.exit_code == 0)
    } else {
        out matches Some(o) && o.exit_code == 0 && crate::text::trim(o.stdout@) == text
    }
}

pub fn probe_settled(rule: &ProbeRule, out: Option<&CommandResult>) -> (r: bool)
    ensures
        r == match rule {
            ProbeRule::Succeeds => probe_holds(0, Seq::empty(), match out { Some(o) => Some(*o), None => None }),
            ProbeRule::Fails => probe_holds(1, Seq::empty(), match out { Some(o) => Some(*o), None => None }),
            ProbeRule::Prints(t) => probe_holds(2, t@, match out { Some(o) => Some(*o), None => None }),
        },
{
    let ran_ok = match out {
        Some(o) => o.exit_code == 0,
        None => false,
    };
    match rule {
        ProbeRule::Succeeds => ran_ok,
        ProbeRule::Fails => !ran_ok,
        ProbeRule::Prints(t) => match out {
            Some(o) => o.exit_code == 0 && crate::text::chars_eq(
                &crate::text::trimmed(&chars_of(o.stdout.as_str())),
                &chars_of(t.as_str()),
            ),
            None => false,
        },
    }
}

/// The result of a file plan: already settled, else the outcome of its last
/// command (`None` where it could not run); a plan without commands fails.
pub fn file_outcome(plan: &FilePlan, settled: bool, last: Option<&CommandResult>) -> (r: ModuleResult)
    ensures
        settled ==> !r.changed && !r.failed && r.msg@ == plan.settled@,
        !settled && plan.commands@.len() > 0 && (last matches Some(o) && o.exit_code == 0) ==> r.changed
            && !r.failed && r.msg@ == plan.done@,
        !settled && !(plan.commands@.len() > 0 && (last matches Some(o) && o.exit_code == 0)) ==> !r.changed
            && r.failed && r.msg@ == plan.failure@,
{
    if settled {
        return ModuleResult::ok(plan.settled.as_str());
    }
    let ok = plan.commands.len() > 0 && match last {
        Some(o) => o.exit_code == 0,
        None => false,
    };
    if ok {
        ModuleResult::changed(plan.done.as_str())
    } else {
        ModuleResult::failed(plan.failure.as_str())
    }
}

// ------------------------------------------------------------ lineinfile

/// A line without its trailing carriage return.
pub open spec fn strip_cr(l: Seq<char>) -> Seq<char> {
    if l.len() > 0 && l.last() == '\r' {
        l.drop_last()
    } else {
        l
    }
}

/// The text cut at newlines, without the empty piece after a final newline.
pub open spec fn raw_lines(s: Seq<char>) -> Seq<Seq<char>> {
    let parts = crate::text::split_char(s, '\n');
    if parts.len() > 0 && parts.last().len() == 0 {
        parts.drop_last()
    } else {
        parts
    }
}

/// The lines of a file's text, as `str::lines` gives them.
pub open spec fn text_lines(s: Seq<char>) -> Seq<Seq<char>> {
    raw_lines(s).map_values(|l: Seq<char>| strip_cr(l))
}

/// The lines with every line that contains `re` replaced by `line`.
pub open spec fn replace_matching(lines: Seq<Seq<char>>, re: Seq<char>, line: Seq<char>) -> Seq<Seq<char>> {
    lines.map_values(|l: Seq<char>| if contains(l, re) { line } else { l })
}

/// The lines without those equal to `line` (where given) or containing `re`
/// (where given).
pub open spec fn remove_matching(
    lines: Seq<Seq<char>>,
    line: Option<Seq<char>>,
    re: Option<Seq<char>>,
) -> Seq<Seq<char>>
    decreases lines.len(),
{
    if lines.len() == 0 {
        lines
    } else {
        let rest = remove_matching(lines.drop_last(), line, re);
        let l = lines.last();
        if (line is Some && l == line.unwrap()) || (re is Some && contains(l, re.unwrap())) {
            rest
        } else {
            rest.push(l)
        }
    }
}

pub open spec fn opt_arg(args: Map<Seq<char>, Seq<char>>, k: Seq<char>) -> Option<Seq<char>> {
    if args.contains_key(k) {
        Some(args[k])
    } else {
        None
    }
}

/// Where no line matches a `regexp`: insert after or before an anchor line,
/// else append (a missing file needs `create`).
pub open spec fn insert_edit(args: Map<Seq<char>, Seq<char>>, text: Seq<char>, line: Seq<char>) -> (Option<
    Seq<char>,
>, Seq<char>, bool) {
    let lines = text_lines(text);
    if args.contains_key("insertafter"@) {
        (
            Some(
                crate::modules::joined_lines(
                    crate::modules::lines_inserted_after(lines, args["insertafter"@], line),
                ),
            ),
            "line added"@,
            false,
        )
    } else if args.contains_key("insertbefore"@) {
        (
            Some(
                crate::modules::joined_lines(
                    crate::modules::lines_inserted_before(lines, args["insertbefore"@], line),
                ),
            ),
            "line added"@,
            false,
        )
    } else if text.len() == 0 && !(args.contains_key("create"@) && crate::modules::flag_true(
        args["create"@],
    )) {
        (None, "file does not exist and create=false"@, true)
    } else {
        (Some(crate::text::trim_end(text) + seq!['\n'] + line), "line added"@, false)
    }
}

/// Whether some line contains `re`.
pub open spec fn any_matching(lines: Seq<Seq<char>>, re: Seq<char>) -> bool {
    exists|i: int| 0 <= i < lines.len() && contains(lines[i], re)
}

/// What `lineinfile` does for `state=present` to a file with text `text`:
/// the new text to write (if any), the message, and whether it fails. Lines
/// matching `regexp` are replaced; where none matches, the line is inserted
/// at an anchor or appended.
pub open spec fn present_edit(args: Map<Seq<char>, Seq<char>>, text: Seq<char>) -> (Option<
    Seq<char>,
>, Seq<char>, bool) {
    let lines = text_lines(text);
    if !args.contains_key("line"@) {
        (None, crate::modules::missing_message("line"@), true)
    } else {
        let line = args["line"@];
        if lines.contains(line) {
            (None, "line already present"@, false)
        } else if args.contains_key("regexp"@) && any_matching(lines, args["regexp"@]) {
            (
                Some(crate::modules::joined_lines(replace_matching(lines, args["regexp"@], line))),
                "line added"@,
                false,
            )
        } else {
            insert_edit(args, text, line)
        }
    }
}

/// What `lineinfile` does for `state=absent` to a file with text `text`.
pub open spec fn absent_edit(args: Map<Seq<char>, Seq<char>>, text: Seq<char>) -> (Option<
    Seq<char>,
>, Seq<char>, bool) {
    let lines = text_lines(text);
    if !args.contains_key("line"@) && !args.contains_key("regexp"@) {
        (None, "either 'line' or 'regexp' required for state=absent"@, true)
    } else {
        let kept = remove_matching(lines, opt_arg(args, "line"@), opt_arg(args, "regexp"@));
        if kept.len() == lines.len() {
            (None, "line not found"@, false)
        } else {
            (Some(crate::modules::joined_lines(kept)), "line removed"@, false)
        }
    }
}

/// What `lineinfile` does to a file, given its text (`None` where it could
/// not be read): the new text to write (if any), the message, and whether it
/// fails. A file that cannot be read counts as empty, except for `absent`.
pub open spec fn line_edit(args: Map<Seq<char>, Seq<char>>, content: Option<Seq<char>>) -> (Option<
    Seq<char>,
>, Seq<char>, bool) {
    let state = if args.contains_key("state"@) {
        args["state"@]
    } else {
        "present"@
    };
    let text = match content {
        Some(c) => c,
        None => Seq::empty(),
    };
    if !args.contains_key("path"@) {
        (None, crate::modules::missing_message("path"@), true)
    } else if content is None && state == "absent"@ {
        (None, "file does not exist"@, false)
    } else if state == "present"@ {
        present_edit(args, text)
    } else if state == "absent"@ {
        absent_edit(args, text)
    } else {
        (None, "unknown state: "@ + state, true)
    }
}

/// What `lineinfile` decides: report at once, or write a new text.
pub enum LineEdit {
    Report(ModuleResult),
    Write(String, String),
}

/// A decision agrees with the (text, message, failure) triple of the spec.
pub open spec fn edit_agrees(r: LineEdit, e: (Option<Seq<char>>, Seq<char>, bool)) -> bool {
    match r {
        LineEdit::Report(m) => e.0 is None && m.msg@ == e.1 && m.failed == e.2 && !m.changed,
        LineEdit::Write(t, msg) => e.0 == Some(t@) && msg@ == e.1 && !e.2,
    }
}

fn lines_of_text(c: &Vec<char>) -> (r: Vec<String>)
    ensures
        r@.map_values(|l: String| l@) == text_lines(c@),
{
    let parts = crate::text::split_on(c, '\n');
    let ghost ps = crate::text::split_char(c@, '\n');
    proof {
        crate::text::lemma_split_char_nonempty(c@, '\n');
    }
    let n: usize = if parts.len() > 0 && parts[parts.len() - 1].len() == 0 {
        parts.len() - 1
    } else {
        parts.len()
    };
    let ghost kept = raw_lines(c@);
    assert(kept.len() == n);
    let mut r: Vec<String> = Vec::new();
    let mut i: usize = 0;
    while i < n
        invariant
            i <= n,
            n == kept.len(),
            kept == raw_lines(c@),
            n <= parts@.len(),
            parts@.len() == ps.len(),
            forall|k: int| 0 <= k < parts@.len() ==> #[trigger] parts@[k]@ == ps[k],
            forall|k: int| 0 <= k < n ==> kept[k] == ps[k],
            r@.map_values(|l: String| l@) == text_lines(c@).take(i as int),
            text_lines(c@).len() == n,
        decreases n - i,
    {
        let p = &parts[i];
        let cur = if p.len() > 0 && p[p.len() - 1] == '\r' {
            crate::text::slice(p, 0, p.len() - 1)
        } else {
            p.clone()
        };
        proof {
            assert(p@ == ps[i as int]);
            if p@.len() > 0 && p@.last() == '\r' {
                assert(cur@ =~= p@.drop_last());
            }
            assert(text_lines(c@)[i as int] == strip_cr(kept[i as int]));
        }
        let ghost before = r@.map_values(|l: String| l@);
        r.push(string_of(&cur));
        assert(r@.map_values(|l: String| l@) =~= before.push(cur@));
        assert(text_lines(c@).take(i + 1) =~= text_lines(c@).take(i as int).push(cur@));
        i = i + 1;
    }
    assert(text_lines(c@).take(n as int) =~= text_lines(c@));
    r
}

fn strs_of(v: &Vec<String>) -> (r: Vec<&str>)
    ensures
        r@.map_values(|l: &str| l@) == v@.map_values(|l: String| l@),
{
    let mut r: Vec<&str> = Vec::new();
    let mut i: usize = 0;
    while i < v.len()
        invariant
            i <= v@.len(),
            r@.map_values(|l: &str| l@) == v@.map_values(|l: String| l@).take(i as int),
        decreases v.len() - i,
    {
        let ghost before = r@.map_values(|l: &str| l@);
        r.push(v[i].as_str());
        assert(r@.map_values(|l: &str| l@) =~= before.push(v@[i as int]@));
        assert(v@.map_values(|l: String| l@).take(i + 1) =~= v@.map_values(|l: String| l@).take(
            i as int,
        ).push(v@[i as int]@));
        i = i + 1;
    }
    assert(v@.map_values(|l: String| l@).take(v@.len() as int) =~= v@.map_values(|l: String| l@));
    r
}

fn join_lines(v: &Vec<String>) -> (r: String)
    ensures
        r@ == crate::modules::joined_lines(v@.map_values(|l: String| l@)),
{
    let mut parts: Vec<Vec<char>> = Vec::new();
    let mut i: usize = 0;
    while i < v.len()
        invariant
            i <= v@.len(),
            parts@.map_values(|p: Vec<char>| p@) == v@.map_values(|l: String| l@).take(i as int),
        decreases v.len() - i,
    {
        let ghost before = parts@.map_values(|p: Vec<char>| p@);
        parts.push(chars_of(v[i].as_str()));
        assert(parts@.map_values(|p: Vec<char>| p@) =~= before.push(v@[i as int]@));
        assert(v@.map_values(|l: String| l@).take(i + 1) =~= v@.map_values(|l: String| l@).take(
            i as int,
        ).push(v@[i as int]@));
        i = i + 1;
    }
    assert(v@.map_values(|l: String| l@).take(v@.len() as int) =~= v@.map_values(|l: String| l@));
    let sep: Vec<char> = vec!['\n'];
    assert(sep@ =~= seq!['\n']);
    string_of(&crate::text::join_with(&parts, &sep))
}

fn appended(text: &Vec<char>, line: &Vec<char>) -> (r: String)
    ensures
        r@ == crate::text::trim_end(text@) + seq!['\n'] + line@,
{
    let mut out = crate::text::trimmed_end(text);
    out.push('\n');
    append(&mut out, line);
    string_of(&out)
}

/// The lines with those containing `re` replaced by `line`, and whether any did.
fn replace_lines(lines: &Vec<String>, re: &Vec<char>, line: &String) -> (r: (Vec<String>, bool))
    ensures
        r.0@.map_values(|l: String| l@) == replace_matching(lines@.map_values(|l: String| l@), re@, line@),
        r.1 == any_matching(lines@.map_values(|l: String| l@), re@),
{
    let ghost ls = lines@.map_values(|l: String| l@);
    let mut out: Vec<String> = Vec::new();
    let mut found = false;
    let mut i: usize = 0;
    while i < lines.len()
        invariant
            i <= lines@.len(),
            ls == lines@.map_values(|l: String| l@),
            out@.map_values(|l: String| l@) == replace_matching(ls, re@, line@).take(i as int),
            found == exists|k: int| 0 <= k < i && contains(ls[k], re@),
        decreases lines.len() - i,
    {
        let cur = chars_of(lines[i].as_str());
        assert(ls[i as int] == cur@);
        let ghost before = out@.map_values(|l: String| l@);
        if crate::text::has(&cur, re) {
            found = true;
            out.push(line.clone());
            assert(out@.map_values(|l: String| l@) =~= before.push(line@));
        } else {
            out.push(lines[i].clone());
            assert(out@.map_values(|l: String| l@) =~= before.push(cur@));
        }
        assert(replace_matching(ls, re@, line@).take(i + 1) =~= replace_matching(ls, re@, line@).take(i as int).push(replace_matching(ls, re@, line@)[i as int]));
        i = i + 1;
    }
    assert(replace_matching(ls, re@, line@).take(lines@.len() as int) =~= replace_matching(ls, re@, line@));
    (out, found)
}

fn edit_insert(args: &ModuleArgs, text: &Vec<char>, lines: &Vec<String>, line: &String) -> (r: LineEdit)
    requires
        lines@.map_values(|l: String| l@) == text_lines(text@),
    ensures
        edit_agrees(r, insert_edit(args@, text@, line@)),
{
    match args.get("insertafter") {
        Some(after) => {
            let strs = strs_of(lines);
            LineEdit::Write(crate::modules::insert_after(&strs, after.as_str(), line.as_str()), "line added".to_owned())
        },
        None => match args.get("insertbefore") {
            Some(before) => {
                let strs = strs_of(lines);
                LineEdit::Write(crate::modules::insert_before(&strs, before.as_str(), line.as_str()), "line added".to_owned())
            },
            None => {
                if text.len() == 0 && !args.get_bool("create") {
                    LineEdit::Report(ModuleResult::failed("file does not exist and create=false"))
                } else {
                    LineEdit::Write(appended(text, &chars_of(line.as_str())), "line added".to_owned())
                }
            },
        },
    }
}

fn edit_present(args: &ModuleArgs, text: &Vec<char>) -> (r: LineEdit)
    ensures
        edit_agrees(r, present_edit(args@, text@)),
{
    let lines = lines_of_text(text);
    let line = match args.require("line") {
        Ok(l) => l.clone(),
        Err(e) => return LineEdit::Report(ModuleResult::failed(e.as_str())),
    };
    let lc = chars_of(line.as_str());
    if crate::inventory::holds(&lines, &lc) {
        return LineEdit::Report(ModuleResult::ok("line already present"));
    }
    match args.get("regexp") {
        Some(re) => {
            let (out, found) = replace_lines(&lines, &chars_of(re.as_str()), &line);
            if found {
                return LineEdit::Write(join_lines(&out), "line added".to_owned());
            }
        },
        None => {},
    }
    edit_insert(args, text, &lines, &line)
}

fn edit_absent(args: &ModuleArgs, text: &Vec<char>) -> (r: LineEdit)
    ensures
        edit_agrees(r, absent_edit(args@, text@)),
{
    let lines = lines_of_text(text);
    let ghost ls = text_lines(text@);
    let line = args.get("line");
    let re = args.get("regexp");
    if line.is_none() && re.is_none() {
        return LineEdit::Report(ModuleResult::failed("either 'line' or 'regexp' required for state=absent"));
    }
    let lopt: Option<Vec<char>> = match line {
        Some(l) => Some(chars_of(l.as_str())),
        None => None,
    };
    let ropt: Option<Vec<char>> = match re {
        Some(r) => Some(chars_of(r.as_str())),
        None => None,
    };
    let ghost lo = opt_arg(args@, "line"@);
    let ghost ro = opt_arg(args@, "regexp"@);
    let mut kept: Vec<String> = Vec::new();
    let mut i: usize = 0;
    assert(ls.take(0) =~= Seq::<Seq<char>>::empty());
    while i < lines.len()
        invariant
            i <= lines@.len(),
            ls == lines@.map_values(|l: String| l@),
            lo == match lopt { Some(v) => Some(v@), None => None::<Seq<char>> },
            ro == match ropt { Some(v) => Some(v@), None => None::<Seq<char>> },
            kept@.map_values(|l: String| l@) == remove_matching(ls.take(i as int), lo, ro),
        decreases lines.len() - i,
    {
        let cur = chars_of(lines[i].as_str());
        assert(ls[i as int] == cur@);
        assert(ls.take(i + 1).drop_last() =~= ls.take(i as int));
        assert(ls.take(i + 1).last() == cur@);
        let drop_it = (match &lopt {
            Some(l) => crate::text::chars_eq(&cur, l),
            None => false,
        }) || (match &ropt {
            Some(r) => crate::text::has(&cur, r),
            None => false,
        });
        if !drop_it {
            let ghost before = kept@.map_values(|l: String| l@);
            kept.push(lines[i].clone());
            assert(kept@.map_values(|l: String| l@) =~= before.push(cur@));
        }
        i = i + 1;
    }
    assert(ls.take(lines@.len() as int) =~= ls);
    if kept.len() == lines.len() {
        LineEdit::Report(ModuleResult::ok("line not found"))
    } else {
        LineEdit::Write(join_lines(&kept), "line removed".to_owned())
    }
}

/// Decides `lineinfile`: `state=present` (default) makes `line` appear, by
/// replacing the lines that contain `regexp`, or inserting after or before
/// an anchor line, or appending; `state=absent` removes the lines equal to
/// `line` or containing `regexp`.
pub fn lineinfile_edit(args: &ModuleArgs, content: Option<&str>) -> (r: LineEdit)
    ensures
        edit_agrees(r, line_edit(args@, opt_view(content))),
{
    if args.get("path").is_none() {
        let e = args.require("path");
        return LineEdit::Report(ModuleResult::failed(e.unwrap_err().as_str()));
    }
    let state = args.get_or("state", "present");
    let is_absent = str_eq(state.as_str(), "absent");
    if content.is_none() && is_absent {
        return LineEdit::Report(ModuleResult::ok("file does not exist"));
    }
    let text: Vec<char> = match content {
        Some(c) => chars_of(c),
        None => Vec::new(),
    };
    if str_eq(state.as_str(), "present") {
        edit_present(args, &text)
    } else if is_absent {
        edit_absent(args, &text)
    } else {
        let m = join2("unknown state: ", state.as_str());
        LineEdit::Report(ModuleResult::failed(m.as_str()))
    }
}

/// `lineinfile` is idempotent where it appends: once the line has been
/// added to the end of the file, a second run finds it and changes nothing.
/// This holds for a non-empty line without a newline that does not end in a
/// carriage return (those are not one line of the file).
pub proof fn law_line_added_once(args: Map<Seq<char>, Seq<char>>, text: Seq<char>)
    requires
        args.contains_key("line"@),
        args["line"@].len() > 0,
        !args["line"@].contains('\n'),
        args["line"@].last() != '\r',
        !args.contains_key("regexp"@),
        !args.contains_key("insertafter"@),
        !args.contains_key("insertbefore"@),
    ensures
        present_edit(args, text).0 matches Some(t) ==> present_edit(args, t) == (
            None::<Seq<char>>,
            "line already present"@,
            false,
        ),
{
    let line = args["line"@];
    if let Some(t) = present_edit(args, text).0 {
        let head = crate::text::trim_end(text);
        assert(t == head + seq!['\n'] + line);
        crate::text::lemma_split_char_concat(head, line, '\n');
        crate::text::lemma_split_char_whole(line, '\n');
        let parts = crate::text::split_char(t, '\n');
        assert(parts == crate::text::split_char(head, '\n') + seq![line]);
        assert(parts.last() == line);
        assert(raw_lines(t) == parts);
        let k = parts.len() - 1;
        assert(text_lines(t)[k] == strip_cr(line));
        assert(strip_cr(line) == line);
        assert(text_lines(t).contains(line));
    }
}

/// `apt` settles: once a package is installed (or removed), a second run for
/// the same state runs no command; for `latest`, a run in which apt upgrades
/// nothing reports no change.
pub proof fn law_apt_settles(state: Seq<char>, name: Seq<char>, out: CommandResult)
    ensures
        (state == "present"@ || state == "installed"@) ==> apt_action(state, name, true).0 is None,
        out.exit_code == 0 && contains(out.stdout@, "0 upgraded"@) ==> !latest_outcome(true, out).0,
        (state == "absent"@ || state == "removed"@) ==> apt_action(state, name, false).0 is None,
{
    reveal_strlit("present");
    reveal_strlit("installed");
    reveal_strlit("latest");
    reveal_strlit("absent");
    reveal_strlit("removed");
    assert("present"@[0] == 'p' && "installed"@[0] == 'i' && "latest"@[0] == 'l');
    assert("absent"@[0] == 'a' && "removed"@[0] == 'r');
}

/// `service` settles for `started` and `stopped`: once the service runs (or
/// is stopped), a second run runs no command.
pub proof fn law_service_settles(name: Seq<char>)
    ensures
        service_action(Some("started"@), name, true).0 is None,
        service_action(Some("stopped"@), name, false).0 is None,
{
    reveal_strlit("started");
    reveal_strlit("stopped");
    assert("started"@[2] == 'a' && "stopped"@[2] == 'o');
}

} // verus!
