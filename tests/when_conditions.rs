use wand::template::eval_when;
use wand::vars::StrMap;

fn vars(pairs: &[(&str, &str)]) -> StrMap {
    let mut m = StrMap::new();
    for (k, v) in pairs {
        m.insert(k, v);
    }
    m
}

#[test]
fn eval_when_equals() {
    assert!(eval_when("os == \"linux\"", &vars(&[("os", "linux")])));
    assert!(!eval_when("os == \"linux\"", &vars(&[("os", "windows")])));
}

#[test]
fn eval_when_not_equals() {
    assert!(eval_when("os != \"windows\"", &vars(&[("os", "linux")])));
}

#[test]
fn eval_when_defined() {
    assert!(eval_when("myvar is defined", &vars(&[("myvar", "value")])));
    assert!(!eval_when("myvar is defined", &vars(&[])));
}

#[test]
fn eval_when_undefined() {
    assert!(eval_when("myvar is undefined", &vars(&[])));
    assert!(!eval_when("myvar is undefined", &vars(&[("myvar", "value")])));
}

#[test]
fn eval_when_truthy() {
    assert!(eval_when("enabled", &vars(&[("enabled", "true")])));
    assert!(!eval_when("enabled", &vars(&[("enabled", "false")])));
    assert!(!eval_when("enabled", &vars(&[])));
}

#[test]
fn eval_when_not() {
    assert!(eval_when("not disabled", &vars(&[("disabled", "false")])));
    assert!(!eval_when("not enabled", &vars(&[("enabled", "true")])));
}
