use wand::modules::{insert_after, insert_before, ModuleArgs, ModuleResult};

#[test]
fn module_result_ok() {
    let result = ModuleResult::ok("all good");
    assert!(!result.changed);
    assert!(!result.failed);
    assert_eq!(result.msg, "all good");
}

#[test]
fn module_result_changed() {
    let result = ModuleResult::changed("file created");
    assert!(result.changed);
    assert!(!result.failed);
}

#[test]
fn module_result_failed() {
    let result = ModuleResult::failed("error occurred");
    assert!(!result.changed);
    assert!(result.failed);
}

#[test]
fn module_result_with_output() {
    let result = ModuleResult::changed("done").with_output("out", "err", 0);
    assert_eq!(result.stdout, "out");
    assert_eq!(result.stderr, "err");
    assert_eq!(result.rc, 0);
    assert!(!result.failed);
}

#[test]
fn module_result_with_nonzero_exit() {
    let result = ModuleResult::changed("done").with_output("", "error", 1);
    assert!(result.failed);
    assert_eq!(result.rc, 1);
}

#[test]
fn module_args_get() {
    let mut args = ModuleArgs::new();
    args.insert("name", "value");
    assert_eq!(args.get("name"), Some(&"value".to_string()));
    assert_eq!(args.get("missing"), None);
}

#[test]
fn module_args_get_or() {
    let args = ModuleArgs::new();
    assert_eq!(args.get_or("missing", "default"), "default");
}

#[test]
fn module_args_get_bool() {
    let mut args = ModuleArgs::new();
    args.insert("enabled", "true");
    args.insert("disabled", "false");
    assert!(args.get_bool("enabled"));
    assert!(!args.get_bool("disabled"));
    assert!(!args.get_bool("missing"));
}

#[test]
fn module_args_require() {
    let mut args = ModuleArgs::new();
    args.insert("name", "value");
    assert!(args.require("name").is_ok());
    assert!(args.require("missing").is_err());
}

#[test]
fn apt_requires_name() {
    let args = ModuleArgs::new();
    assert!(args.require("name").is_err());
}

#[test]
fn default_state_present() {
    let args = ModuleArgs::new();
    assert_eq!(args.get_or("state", "present"), "present");
}

#[test]
fn copy_requires_dest() {
    let args = ModuleArgs::new();
    assert!(args.require("dest").is_err());
}

#[test]
fn requires_src_or_content() {
    let mut args = ModuleArgs::new();
    args.insert("dest", "/tmp/test");
    assert!(args.require("src").is_err());
    assert!(args.require("content").is_err());
}

#[test]
fn mode_parsing() {
    let mode = "0755";
    let mode_int = i32::from_str_radix(mode, 8).unwrap();
    assert_eq!(mode_int, 0o755);
}

#[test]
fn file_requires_path() {
    let args = ModuleArgs::new();
    assert!(args.require("path").is_err());
}

#[test]
fn default_state_is_file() {
    let args = ModuleArgs::new();
    assert_eq!(args.get_or("state", "file"), "file");
}

#[test]
fn link_requires_src() {
    let mut args = ModuleArgs::new();
    args.insert("path", "/tmp/link");
    args.insert("state", "link");
    assert!(args.require("src").is_err());
}

#[test]
fn lineinfile_requires_path() {
    let args = ModuleArgs::new();
    assert!(args.require("path").is_err());
}

#[test]
fn insert_after_works() {
    let lines = vec!["first", "second", "third"];
    let result = insert_after(&lines, "second", "new");
    assert_eq!(result, "first\nsecond\nnew\nthird");
}

#[test]
fn insert_before_works() {
    let lines = vec!["first", "second", "third"];
    let result = insert_before(&lines, "second", "new");
    assert_eq!(result, "first\nnew\nsecond\nthird");
}

#[test]
fn raw_args_parsing() {
    let mut args = ModuleArgs::new();
    args.insert("_raw", "echo hello");
    assert_eq!(args.get("_raw"), Some(&"echo hello".to_string()));
}

#[test]
fn missing_command_fails() {
    let args = ModuleArgs::new();
    assert!(args.require("cmd").is_err());
}

#[test]
fn script_args_parsing() {
    let mut args = ModuleArgs::new();
    args.insert("_raw_params", "/tmp/script.sh");
    assert_eq!(args.get("_raw_params"), Some(&"/tmp/script.sh".to_string()));
}

#[test]
fn missing_script_fails() {
    let args = ModuleArgs::new();
    assert!(args.require("cmd").is_err());
}

#[test]
fn service_requires_name() {
    let args = ModuleArgs::new();
    assert!(args.require("name").is_err());
}

#[test]
fn default_executable() {
    let args = ModuleArgs::new();
    assert_eq!(args.get_or("executable", "/bin/sh"), "/bin/sh");
}

#[test]
fn requires_src() {
    let args = ModuleArgs::new();
    assert!(args.require("src").is_err());
}

#[test]
fn template_requires_dest() {
    let mut args = ModuleArgs::new();
    args.insert("src", "/tmp/template.j2");
    assert!(args.require("dest").is_err());
}

#[test]
fn require_error_names_the_argument() {
    let args = ModuleArgs::new();
    assert_eq!(args.require("dest"), Err("missing required argument: dest".to_string()));
}

#[test]
fn insert_after_eof_and_missing_anchor() {
    let lines = vec!["a", "b"];
    assert_eq!(insert_after(&lines, "EOF", "x"), "a\nb\nx");
    assert_eq!(insert_after(&lines, "zzz", "x"), "a\nb\nx");
}

#[test]
fn insert_before_bof_and_missing_anchor() {
    let lines = vec!["a", "b"];
    assert_eq!(insert_before(&lines, "BOF", "x"), "x\na\nb");
    assert_eq!(insert_before(&lines, "zzz", "x"), "x\na\nb");
}

#[test]
fn get_bool_accepts_yes_and_one() {
    let mut args = ModuleArgs::new();
    args.insert("a", "yes");
    args.insert("b", "1");
    args.insert("c", "True");
    assert!(args.get_bool("a"));
    assert!(args.get_bool("b"));
    assert!(!args.get_bool("c"));
}
