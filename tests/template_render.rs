use wand::template::render;
use wand::vars::StrMap;

fn vars(pairs: &[(&str, &str)]) -> StrMap {
    let mut m = StrMap::new();
    for (k, v) in pairs {
        m.insert(k, v);
    }
    m
}

#[test]
fn simple_substitution() {
    let result = render("Hello {{ name }}!", &vars(&[("name", "World")]));
    assert_eq!(result, "Hello World!");
}

#[test]
fn multiple_substitutions() {
    let result = render("{{ greeting }} {{ name }}!", &vars(&[("greeting", "Hello"), ("name", "World")]));
    assert_eq!(result, "Hello World!");
}

#[test]
fn missing_var_empty() {
    let result = render("Hello {{ name }}!", &vars(&[]));
    assert_eq!(result, "Hello !");
}

#[test]
fn filter_lower() {
    let result = render("{{ name | lower }}", &vars(&[("name", "HELLO")]));
    assert_eq!(result, "hello");
}

#[test]
fn filter_upper() {
    let result = render("{{ name | upper }}", &vars(&[("name", "hello")]));
    assert_eq!(result, "HELLO");
}

#[test]
fn filter_capitalize() {
    let result = render("{{ name | capitalize }}", &vars(&[("name", "hello")]));
    assert_eq!(result, "Hello");
}

#[test]
fn filter_default() {
    let result = render("{{ missing | default('fallback') }}", &vars(&[]));
    assert_eq!(result, "fallback");
}

#[test]
fn filter_default_not_used() {
    let result = render("{{ name | default('fallback') }}", &vars(&[("name", "value")]));
    assert_eq!(result, "value");
}

#[test]
fn filter_chain() {
    let result = render("{{ name | upper | default('NONE') }}", &vars(&[("name", "hello")]));
    assert_eq!(result, "HELLO");
}

#[test]
fn filter_trim() {
    let result = render("{{ name | trim }}", &vars(&[("name", "  hello  ")]));
    assert_eq!(result, "hello");
}

#[test]
fn filter_replace() {
    let result = render("{{ text | replace('old', 'new') }}", &vars(&[("text", "old value")]));
    assert_eq!(result, "new value");
}

#[test]
fn no_substitution() {
    let result = render("plain text", &vars(&[]));
    assert_eq!(result, "plain text");
}

#[test]
fn filter_length() {
    let result = render("{{ name | length }}", &vars(&[("name", "hello")]));
    assert_eq!(result, "5");
}

#[test]
fn if_true() {
    let result = render("{% if enabled %}yes{% endif %}", &vars(&[("enabled", "true")]));
    assert_eq!(result, "yes");
}

#[test]
fn if_false() {
    let result = render("{% if enabled %}yes{% endif %}", &vars(&[("enabled", "false")]));
    assert_eq!(result, "");
}

#[test]
fn if_else_true() {
    let result = render("{% if enabled %}yes{% else %}no{% endif %}", &vars(&[("enabled", "1")]));
    assert_eq!(result, "yes");
}

#[test]
fn if_else_false() {
    let result = render("{% if enabled %}yes{% else %}no{% endif %}", &vars(&[]));
    assert_eq!(result, "no");
}

#[test]
fn if_equals() {
    let result = render("{% if os == \"linux\" %}linux{% endif %}", &vars(&[("os", "linux")]));
    assert_eq!(result, "linux");
}

#[test]
fn if_not_equals() {
    let result = render("{% if os != \"windows\" %}ok{% endif %}", &vars(&[("os", "linux")]));
    assert_eq!(result, "ok");
}

#[test]
fn for_loop() {
    let result = render("{% for item in items %}{{ item }} {% endfor %}", &vars(&[("items", "a,b,c")]));
    assert_eq!(result, "a b c ");
}

#[test]
fn for_loop_empty() {
    let result = render("{% for item in items %}{{ item }}{% endfor %}", &vars(&[]));
    assert_eq!(result, "");
}

#[test]
fn nested_if() {
    let tpl = "{% if a %}{% if b %}both{% endif %}{% endif %}";
    let result = render(tpl, &vars(&[("a", "1"), ("b", "1")]));
    assert_eq!(result, "both");
}

#[test]
fn filter_join() {
    let result = render("{{ items | join(', ') }}", &vars(&[("items", "a,b,c")]));
    assert_eq!(result, "a, b, c");
}

#[test]
fn filter_split() {
    let result = render("{{ path | split('/') }}", &vars(&[("path", "/usr/local/bin")]));
    assert_eq!(result, ", usr, local, bin");
}

#[test]
fn filter_basename() {
    let result = render("{{ path | basename }}", &vars(&[("path", "/usr/local/bin/bash")]));
    assert_eq!(result, "bash");
}

#[test]
fn filter_dirname() {
    let result = render("{{ path | dirname }}", &vars(&[("path", "/usr/local/bin/bash")]));
    assert_eq!(result, "/usr/local/bin");
}

#[test]
fn filter_regex_replace() {
    let result = render("{{ text | regex_replace('\\d+', 'N') }}", &vars(&[("text", "test123abc456")]));
    assert_eq!(result, "testNabcN");
}

#[test]
fn filter_to_json() {
    let result = render("{{ value | to_json }}", &vars(&[("value", "hello")]));
    assert_eq!(result, "\"hello\"");
}

#[test]
fn comment_simple() {
    let result = render("Hello{# comment #} World!", &vars(&[]));
    assert_eq!(result, "Hello World!");
}

#[test]
fn comment_multiline() {
    let result = render("Hello{# this is a\nmulti-line comment #} World!", &vars(&[]));
    assert_eq!(result, "Hello World!");
}

#[test]
fn comment_with_vars() {
    let result = render("{{ name }}{# comment #} {{ value }}", &vars(&[("name", "foo"), ("value", "bar")]));
    assert_eq!(result, "foo bar");
}
