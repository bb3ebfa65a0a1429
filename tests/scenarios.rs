use wand::actions::{
    file_outcome, file_plan, probe_settled, ProbeRule,
    apt_plan, build_command, gate, lineinfile_edit, service_plan, write_mode, Action, LineEdit,
};
use wand::connection::CommandResult;
use wand::executor::{Executor, HostRun, TaskPlan};
use wand::inventory::Inventory;
use wand::modules::{ModuleArgs, ModuleResult};
use wand::playbook::{ModuleValue, Play, Task};
use wand::template::{eval_when, render};
use wand::vars::StrMap;

fn vars(pairs: &[(&str, &str)]) -> StrMap {
    let mut m = StrMap::new();
    for (k, v) in pairs {
        m.insert(k, v);
    }
    m
}

fn task(name: &str, module: &str, arg: &str) -> Task {
    Task {
        name: Some(name.to_string()),
        when: None,
        register: None,
        notify: None,
        tags: vec![],
        module: vec![(module.to_string(), ModuleValue::Text(arg.to_string()))],
    }
}

fn play_with(tasks: Vec<Task>, handlers: Vec<Task>) -> Play {
    Play {
        hosts: "all".to_string(),
        name: None,
        tasks,
        handlers,
        vars: StrMap::new(),
        vars_files: vec![],
        become_: false,
        become_user: None,
    }
}

#[test]
fn inventory_parsing_scenario() {
    let inv = Inventory::from_ini("[web]\nweb1 ansible_host=10.0.0.1\nweb2\n[web:vars]\nport=80");
    assert_eq!(inv.get_all_hosts(), vec!["web1", "web2"]);
    assert_eq!(inv.hosts.get("web1").unwrap().vars.get("ansible_host").unwrap(), "10.0.0.1");
    assert_eq!(inv.groups.get("web").unwrap().vars.get("port").unwrap(), "80");
    assert_eq!(inv.get_host_vars("web2").get("port").unwrap(), "80");
}

#[test]
fn range_expansion_scenario() {
    let inv = Inventory::from_ini("db[01:03].lan");
    assert_eq!(inv.get_all_hosts(), vec!["db01.lan", "db02.lan", "db03.lan"]);
}

#[test]
fn range_expansion_edges() {
    assert_eq!(Inventory::from_ini("h[3:1]").hosts.len(), 0);
    assert_eq!(Inventory::from_ini("h[x:yz]").get_all_hosts(), vec!["h[x:yz]"]);
    assert_eq!(Inventory::from_ini("h[+1:2]").get_all_hosts(), vec!["h01", "h02"]);
}

#[test]
fn limit_grammar_scenario() {
    let inv = Inventory::from_ini("h1\nh2\nh3");
    let exec = Executor::new(inv).limit(Some("!h1".to_string()));
    assert_eq!(exec.resolve_hosts("all"), vec!["h2", "h3"]);

    let inv = Inventory::from_ini("web1\nweb2\nweb3\ndb1");
    let exec = Executor::new(inv).limit(Some("web*:!web3".to_string()));
    assert_eq!(exec.resolve_hosts("all"), vec!["web1", "web2"]);
}

#[test]
fn when_skipping_scenario() {
    let exec = Executor::new(Inventory::from_ini("x"));
    let mut t = task("t", "command", "echo hi");
    t.when = Some("os == \"linux\"".to_string());
    assert!(matches!(exec.plan_task(&t, &vars(&[("os", "linux")])), TaskPlan::Run(..)));
    assert!(matches!(exec.plan_task(&t, &vars(&[("os", "windows")])), TaskPlan::SkipWhen));
}

#[test]
fn when_skip_records_ok_skipped() {
    let exec = Executor::new(Inventory::from_ini("x"));
    let play = play_with(vec![], vec![]);
    let mut run = HostRun::start(&exec, &play, "x").unwrap();
    let t = task("t", "command", "echo hi");
    run.skip_when(&t, "x");
    let r = &run.result.task_results[0].result;
    assert!(r.msg.starts_with("skipped"));
    assert!(!r.changed && !r.failed);
    assert_eq!(run.result.ok, 1);
}

#[test]
fn template_filter_chain_scenario() {
    assert_eq!(render("{{ x | upper | replace('A','Z') }}", &vars(&[("x", "abc")])), "ZBC");
}

#[test]
fn handler_firing_scenario() {
    let exec = Executor::new(Inventory::from_ini("x"));
    let mut t1 = task("t1", "command", "a");
    t1.notify = Some(vec!["restart".to_string()]);
    let t2 = task("t2", "command", "b");
    let h = task("restart", "command", "c");
    let play = play_with(vec![t1.clone(), t2.clone()], vec![h]);

    let mut run = HostRun::start(&exec, &play, "x").unwrap();
    run.finish(&exec, &t1, "x", ModuleResult::changed("done"), false);
    run.finish(&exec, &t2, "x", ModuleResult::ok("done"), false);
    assert_eq!(run.due_handlers(&play), vec![0]);

    let mut run = HostRun::start(&exec, &play, "x").unwrap();
    run.finish(&exec, &t1, "x", ModuleResult::ok("done"), false);
    run.finish(&exec, &t2, "x", ModuleResult::ok("done"), false);
    assert!(run.due_handlers(&play).is_empty());
}

#[test]
fn handler_notified_twice_runs_once() {
    let exec = Executor::new(Inventory::from_ini("x"));
    let mut t1 = task("t1", "command", "a");
    t1.notify = Some(vec!["restart".to_string()]);
    let h = task("restart", "command", "c");
    let play = play_with(vec![t1.clone(), t1.clone()], vec![h]);
    let mut run = HostRun::start(&exec, &play, "x").unwrap();
    run.finish(&exec, &t1, "x", ModuleResult::changed("done"), false);
    run.finish(&exec, &t1, "x", ModuleResult::changed("done"), false);
    assert_eq!(run.notified, vec!["restart".to_string()]);
    assert_eq!(run.due_handlers(&play), vec![0]);
}

#[test]
fn register_propagation_scenario() {
    let exec = Executor::new(Inventory::from_ini("x"));
    let play = play_with(vec![], vec![]);
    let mut run = HostRun::start(&exec, &play, "x").unwrap();
    let mut t1 = task("t1", "command", "true");
    t1.register = Some("r".to_string());
    run.finish(&exec, &t1, "x", ModuleResult::changed("ran").with_output("out", "", 0), false);
    assert_eq!(run.vars.get("r.rc").unwrap(), "0");
    assert_eq!(run.vars.get("r.stdout").unwrap(), "out");
    assert_eq!(run.vars.get("r.changed").unwrap(), "true");
    assert_eq!(run.vars.get("r.failed").unwrap(), "false");
    let mut t2 = task("t2", "command", "next");
    t2.when = Some("r.rc == \"0\"".to_string());
    assert!(matches!(exec.plan_task(&t2, &run.vars), TaskPlan::Run(..)));
}

#[test]
fn register_negative_rc_and_extra_vars_win() {
    let exec = Executor::new(Inventory::from_ini("x")).with_vars(vars(&[("r.rc", "pinned")]));
    let play = play_with(vec![], vec![]);
    let mut run = HostRun::start(&exec, &play, "x").unwrap();
    let mut t1 = task("t1", "command", "x");
    t1.register = Some("r".to_string());
    run.finish(&exec, &t1, "x", ModuleResult::changed("ran").with_output("", "boom", -2), false);
    assert_eq!(run.vars.get("r.rc").unwrap(), "pinned");
    assert_eq!(run.vars.get("r.failed").unwrap(), "true");
}

#[test]
fn check_mode_scenario() {
    let exec = Executor::new(Inventory::from_ini("x")).check_mode(true);
    let t = task("install", "apt", "nginx");
    assert!(matches!(exec.plan_task(&t, &StrMap::new()), TaskPlan::CheckMode));
    let play = play_with(vec![t.clone()], vec![]);
    let mut run = HostRun::start(&exec, &play, "x").unwrap();
    run.finish(&exec, &t, "x", ModuleResult::ok("check mode"), false);
    assert_eq!(run.result.changed, 0);
    assert_eq!(run.result.task_results[0].result.msg, "check mode");
}

#[test]
fn counts_match_results() {
    let exec = Executor::new(Inventory::from_ini("x")).tags(vec!["deploy".to_string()]);
    let play = play_with(vec![], vec![]);
    let mut run = HostRun::start(&exec, &play, "x").unwrap();
    let t = task("t", "command", "a");
    assert!(matches!(exec.plan_task(&t, &run.vars), TaskPlan::SkipTags));
    run.skip_tags(&t, "x");
    run.no_module(&exec, &task("u", "nothing", "a"), "x");
    run.finish(&exec, &t, "x", ModuleResult::failed("bad"), false);
    run.finish(&exec, &t, "x", ModuleResult::changed("c"), false);
    let r = &run.result;
    assert_eq!(r.task_results.len(), 4);
    assert_eq!((r.ok, r.changed, r.failed, r.skipped), (0, 1, 2, 1));
    assert_eq!(r.task_results[0].result.msg, "skipped (tags)");
    assert_eq!(r.task_results[1].result.msg, "no module found in task");
}

#[test]
fn tags_always_and_skip_tags() {
    let exec = Executor::new(Inventory::from_ini("x")).tags(vec!["deploy".to_string()]);
    let mut t = task("t", "command", "a");
    t.tags = vec!["always".to_string()];
    assert!(exec.should_run_task(&t));
    let exec = exec.skip_tags(vec!["always".to_string()]);
    assert!(!exec.should_run_task(&t));
}

#[test]
fn host_scope_layers() {
    let inv = Inventory::from_ini("[web]\nw1 a=host\n[web:vars]\na=group\nb=group");
    let mut play = play_with(vec![], vec![]);
    play.vars.insert("b", "play");
    play.vars.insert("c", "play");
    let exec = Executor::new(inv).with_vars(vars(&[("c", "extra")]));
    let run = HostRun::start(&exec, &play, "w1").unwrap();
    assert_eq!(run.vars.get("inventory_hostname").unwrap(), "w1");
    assert_eq!(run.vars.get("ansible_host").unwrap(), "w1");
    assert_eq!(run.vars.get("a").unwrap(), "host");
    assert_eq!(run.vars.get("b").unwrap(), "play");
    assert_eq!(run.vars.get("c").unwrap(), "extra");
    assert!(HostRun::start(&exec, &play, "nope").is_none());
}

#[test]
fn resolution_is_idempotent_on_values() {
    let inv = Inventory::from_ini("[web]\nw1\nw2\n[db]\nd1");
    let exec = Executor::new(inv);
    for p in ["all", "web", "w1", "w1,d1,zz"] {
        let once = exec.resolve_hosts(p);
        let twice = exec.resolve_hosts(&once.join(","));
        assert_eq!(once, twice);
    }
}

#[test]
fn render_is_idempotent_on_values() {
    let v = vars(&[("a", "1"), ("items", "x,y")]);
    let t = "{# c #}{% if a %}A{% else %}B{% endif %}{% for i in items %}[{{ i }}]{% endfor %}{{ a | default('z') }}";
    let once = render(t, &v);
    assert_eq!(once, "A[x][y]1");
    assert_eq!(render(&once, &v), once);
}

#[test]
fn module_decisions_settle() {
    let mut args = ModuleArgs::new();
    args.insert("path", "/etc/x");
    args.insert("line", "c");
    let first = match lineinfile_edit(&args, Some("a\nb\n")) {
        LineEdit::Write(t, _) => t,
        LineEdit::Report(_) => panic!("expected a write"),
    };
    assert_eq!(first, "a\nb\nc");
    assert!(matches!(lineinfile_edit(&args, Some(&first)), LineEdit::Report(ref r) if !r.changed && r.msg == "line already present"));
    assert!(matches!(apt_plan("present", "nginx", false), Action::Run(..)));
    assert!(matches!(apt_plan("present", "nginx", true), Action::Report(ref r) if !r.changed));
    assert!(matches!(apt_plan("bogus", "nginx", true), Action::Report(ref r) if r.failed));
    assert!(matches!(service_plan(Some("started"), "ssh", true), Action::Report(ref r) if !r.changed));
    match service_plan(Some("started"), "ssh", false) {
        Action::Run(cmd, _) => assert_eq!(cmd, "systemctl start ssh"),
        _ => panic!("expected a command"),
    }
}

#[test]
fn command_lines() {
    let mut args = ModuleArgs::new();
    args.insert("_raw", "echo 'hi'");
    assert_eq!(build_command(&args, false).unwrap(), "echo 'hi'");
    assert_eq!(build_command(&args, true).unwrap(), "/bin/sh -c 'echo '\\''hi'\\'''");
    args.insert("chdir", "/srv");
    assert_eq!(build_command(&args, false).unwrap(), "cd /srv && echo 'hi'");
    let err = build_command(&ModuleArgs::new(), false).unwrap_err();
    assert!(err.failed);
    assert_eq!(err.msg, "missing required argument: cmd");
}

#[test]
fn gates_and_modes() {
    assert!(gate(Some(Some(0)), None).is_some());
    assert!(gate(Some(Some(1)), None).is_none());
    assert!(gate(None, Some(Some(1))).is_some());
    assert!(gate(None, Some(None)).is_none());
    let mut args = ModuleArgs::new();
    assert_eq!(write_mode(&args), 0o644);
    args.insert("mode", "0755");
    assert_eq!(write_mode(&args), 0o755);
    args.insert("mode", "0789");
    assert_eq!(write_mode(&args), 0o644);
    args.insert("mode", "+755");
    assert_eq!(write_mode(&args), 0o755);
    args.insert("mode", "000000000000000600");
    assert_eq!(write_mode(&args), 0o600);
    args.insert("mode", "77777777777777");
    assert_eq!(write_mode(&args), 0o644);
}

#[test]
fn when_grammar_edges() {
    let v = vars(&[("os", "linux"), ("flag", "0")]);
    assert!(!eval_when("not os == \"linux\"", &v));
    assert!(eval_when("  os   ==  'linux' ", &v));
    assert!(!eval_when("flag", &v));
    assert!(eval_when("not flag", &v));
    assert!(eval_when("missing is undefined", &v));
}

#[test]
fn filters_through_outside_calls() {
    let v = vars(&[("p", "/a/b.txt"), ("s", "hi")]);
    assert_eq!(render("{{ s | to_yaml }}", &v), "hi\n");
    assert_eq!(render("{{ s | to_json }}", &v), "\"hi\"");
    assert_eq!(render("{{ p | basename }}|{{ p | dirname }}", &v), "b.txt|/a");
    assert_eq!(render("{{ s | capitalize }}{{ s | upper }}{{ s | lower }}", &v), "HiHIhi");
    assert_eq!(render("{{ s | regex_replace('[', 'x') }}", &v), "hi");
    assert_eq!(render("{{ s | length }}", &vars(&[("s", "é")])), "2");
}

#[test]
fn template_edges() {
    let v = vars(&[("a", "")]);
    assert_eq!(render("{{ a", &v), "{{ a");
    assert_eq!(render("{% if a %}x", &v), "{% if a %}x");
    assert_eq!(render("{% if a %}{% if b %}1{% endif %}{% else %}2{% endif %}", &v), "2");
    assert_eq!(render("{{ v }}", &vars(&[("v", "{{ v }}")])), "{{ v }}");
    assert_eq!(render("{{ x | split(',') }}", &vars(&[("x", "a,b")])), "a, b");
}

#[test]
fn lineinfile_edits() {
    let mut args = ModuleArgs::new();
    args.insert("path", "/etc/x");
    args.insert("line", "port=22");
    args.insert("regexp", "port=");
    match lineinfile_edit(&args, Some("a\nport=21\nb")) {
        LineEdit::Write(t, m) => {
            assert_eq!(t, "a\nport=22\nb");
            assert_eq!(m, "line added");
        }
        _ => panic!("expected a write"),
    }
    let mut absent = ModuleArgs::new();
    absent.insert("path", "/etc/x");
    absent.insert("state", "absent");
    absent.insert("regexp", "port");
    match lineinfile_edit(&absent, Some("a\nport=21\nb")) {
        LineEdit::Write(t, _) => assert_eq!(t, "a\nb"),
        _ => panic!("expected a write"),
    }
    assert!(matches!(lineinfile_edit(&absent, None), LineEdit::Report(ref r) if r.msg == "file does not exist"));
    let mut bare = ModuleArgs::new();
    bare.insert("path", "/etc/x");
    bare.insert("line", "x");
    assert!(matches!(lineinfile_edit(&bare, Some("")), LineEdit::Report(ref r) if r.failed));
    bare.insert("create", "yes");
    assert!(matches!(lineinfile_edit(&bare, Some("")), LineEdit::Write(..)));
    bare.insert("state", "weird");
    assert!(matches!(lineinfile_edit(&bare, Some("")), LineEdit::Report(ref r) if r.msg == "unknown state: weird"));
}

#[test]
fn file_plans() {
    let mut args = ModuleArgs::new();
    args.insert("path", "/srv/app");
    args.insert("state", "directory");
    let plan = file_plan(&args).ok().unwrap();
    assert_eq!(plan.commands, vec!["mkdir -p /srv/app".to_string()]);
    let ok = CommandResult { stdout: String::new(), stderr: String::new(), exit_code: 0 };
    let bad = CommandResult { stdout: String::new(), stderr: String::new(), exit_code: 1 };
    let (cmd, rule) = plan.probe.as_ref().unwrap();
    assert_eq!(cmd, "test -d /srv/app");
    assert!(probe_settled(rule, Some(&ok)));
    assert!(!probe_settled(rule, Some(&bad)));
    assert_eq!(file_outcome(&plan, true, None).msg, "directory unchanged");
    assert!(file_outcome(&plan, false, Some(&ok)).changed);
    assert!(file_outcome(&plan, false, Some(&bad)).failed);

    args.insert("state", "link");
    assert!(file_plan(&args).is_err());
    args.insert("src", "/opt/app");
    let plan = file_plan(&args).ok().unwrap();
    assert_eq!(plan.commands, vec!["rm -f /srv/app".to_string(), "ln -s /opt/app /srv/app".to_string()]);
    let linked = CommandResult { stdout: "/opt/app\n".to_string(), stderr: String::new(), exit_code: 0 };
    assert!(probe_settled(&ProbeRule::Prints("/opt/app".to_string()), Some(&linked)));
    args.insert("state", "odd");
    assert!(file_plan(&args).is_err());
    let mut plain = ModuleArgs::new();
    plain.insert("path", "/etc/hosts");
    let plan = file_plan(&plain).ok().unwrap();
    assert!(file_outcome(&plan, false, None).failed);
}

#[test]
fn group_pattern_reaches_children() {
    let inv = Inventory::from_ini("[web]\nw1\n[db]\nd1\n[prod:children]\nweb\ndb\n[loop:children]\nloop");
    let exec = Executor::new(inv).limit(Some("prod:!d1".to_string()));
    assert_eq!(exec.resolve_hosts("prod"), vec!["w1"]);
    let exec = Executor::new(Inventory::from_ini("[loop:children]\nloop\n[loop]\nx"));
    assert_eq!(exec.resolve_hosts("loop"), vec!["x"]);
}

#[test]
fn child_group_vars_override_parent() {
    let inv = Inventory::from_ini(
        "[all:children]\nweb\n[all:vars]\nx=parent\ny=parent\n[web]\nw1\n[web:vars]\nx=child",
    );
    let vars = inv.get_host_vars("w1");
    assert_eq!(vars.get("x").unwrap(), "child");
    assert_eq!(vars.get("y").unwrap(), "parent");
}

fn local_exec(play: &Play, check: bool) -> (Executor, HostRun) {
    let exec = Executor::new(Inventory::from_ini("x")).check_mode(check);
    let run = HostRun::start(&exec, play, "x").unwrap();
    (exec, run)
}

#[test]
fn whole_run_fires_handler_once_after_tasks() {
    let mut t1 = task("t1", "command", "change");
    t1.notify = Some(vec!["restart".to_string()]);
    let t2 = task("t2", "command", "keep");
    let play = play_with(vec![t1, t2], vec![task("restart", "service", "x"), task("other", "command", "y")]);
    let (exec, mut run) = local_exec(&play, false);
    let call = |_m: &String, a: &ModuleArgs, _v: &StrMap| {
        if a.get("_raw").map(|s| s.as_str()) == Some("change") {
            ModuleResult::changed("did")
        } else {
            ModuleResult::ok("same")
        }
    };
    run.run_play(&exec, &play, "x", &call);
    let names: Vec<&str> = run.result.task_results.iter().map(|t| t.task_name.as_str()).collect();
    assert_eq!(names, vec!["t1", "t2", "restart"]);
    let r = &run.result;
    assert_eq!(r.ok + r.changed + r.failed + r.skipped, r.task_results.len());
}

#[test]
fn whole_run_without_change_fires_nothing() {
    let mut t1 = task("t1", "command", "a");
    t1.notify = Some(vec!["restart".to_string()]);
    let play = play_with(vec![t1, task("t2", "command", "b")], vec![task("restart", "service", "x")]);
    let (exec, mut run) = local_exec(&play, false);
    let call = |_m: &String, _a: &ModuleArgs, _v: &StrMap| ModuleResult::ok("same");
    run.run_play(&exec, &play, "x", &call);
    assert_eq!(run.result.task_results.len(), 2);
}

#[test]
fn whole_run_in_check_mode_calls_nothing() {
    let play = play_with(vec![task("a", "apt", "nginx"), task("b", "command", "ls")], vec![]);
    let (exec, mut run) = local_exec(&play, true);
    let call = |_m: &String, _a: &ModuleArgs, _v: &StrMap| -> ModuleResult { panic!("no module runs in check mode") };
    run.run_play(&exec, &play, "x", &call);
    assert_eq!(run.result.changed, 0);
    assert_eq!(run.result.ok, 2);
    assert!(run.result.task_results.iter().all(|t| t.result.msg == "check mode"));
}

#[test]
fn whole_run_register_feeds_when() {
    let mut t1 = task("t1", "command", "first");
    t1.register = Some("r".to_string());
    let mut t2 = task("t2", "command", "second");
    t2.when = Some("r.rc == \"0\"".to_string());
    let play = play_with(vec![t1, t2], vec![]);
    for (rc, expect) in [(0, "ran"), (3, "skipped")] {
        let (exec, mut run) = local_exec(&play, false);
        let call = move |_m: &String, _a: &ModuleArgs, _v: &StrMap| ModuleResult::changed("ran").with_output("", "", rc);
        run.run_play(&exec, &play, "x", &call);
        assert_eq!(run.result.task_results[1].result.msg, expect);
    }
}

#[test]
fn no_module_registers_its_failure() {
    let exec = Executor::new(Inventory::from_ini("x"));
    let play = play_with(vec![], vec![]);
    let mut run = HostRun::start(&exec, &play, "x").unwrap();
    let mut t = task("t", "nothing", "a");
    t.register = Some("r".to_string());
    run.no_module(&exec, &t, "x");
    assert_eq!(run.vars.get("r.failed").unwrap(), "true");
    assert_eq!(run.vars.get("r.rc").unwrap(), "1");
    assert_eq!(run.result.task_results[0].result.msg, "no module found in task");
}

#[test]
fn regexp_miss_honours_anchor() {
    let mut args = ModuleArgs::new();
    args.insert("path", "/etc/x");
    args.insert("line", "new");
    args.insert("regexp", "zzz");
    args.insert("insertbefore", "b");
    match lineinfile_edit(&args, Some("a\nb")) {
        LineEdit::Write(t, _) => assert_eq!(t, "a\nnew\nb"),
        _ => panic!("expected a write"),
    }
}

#[test]
fn apt_latest_and_service_enable() {
    let same = CommandResult { stdout: "0 upgraded, 0 newly installed".to_string(), stderr: String::new(), exit_code: 0 };
    assert!(!wand::actions::latest_done(true, &same).changed);
    assert!(wand::actions::latest_done(false, &same).changed);
    match apt_plan("latest", "nginx", true) {
        Action::Run(cmd, _) => assert!(cmd.ends_with("--only-upgrade nginx")),
        _ => panic!("expected a command"),
    }
    assert_eq!(
        wand::actions::enable_plan(Some("yes"), "ssh", false),
        Some(("systemctl enable ssh".to_string(), "enabled".to_string()))
    );
    assert_eq!(wand::actions::enable_plan(Some("yes"), "ssh", true), None);
    let ok = ModuleResult::ok("x");
    assert!(wand::actions::service_outcome(Some(ModuleResult::changed("enabled")), ok).changed);
}

#[test]
fn copy_writes_only_when_different() {
    let wanted = b"abc".to_vec();
    assert!(!wand::actions::must_write(Some(&wanted), &wanted));
    assert!(wand::actions::must_write(Some(&b"abd".to_vec()), &wanted));
    assert!(wand::actions::must_write(None, &wanted));
    assert_eq!(wand::actions::write_outcome(false, None, "content unchanged", "copied").msg, "content unchanged");
    assert_eq!(wand::actions::write_outcome(true, Some("denied"), "u", "d").msg, "failed to write: denied");
}

#[test]
fn to_json_escapes() {
    let v = vars(&[("v", "a\"b\n\u{1}")]);
    assert_eq!(render("{{ v | to_json }}", &v), "\"a\\\"b\\n\\u0001\"");
}
