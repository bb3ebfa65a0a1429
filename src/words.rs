//! The fixed words of the template language and of plays, as character sequences.
use vstd::prelude::*;

verus! {

pub open spec fn open_expr() -> Seq<char> {
    seq!['{', '{']
}

pub fn open_expr_chars() -> (r: Vec<char>)
    ensures
        r@ == open_expr(),
{
    let r: Vec<char> = vec!['{', '{'];
    assert(r@ =~= open_expr());
    r
}

pub open spec fn close_expr() -> Seq<char> {
    seq!['}', '}']
}

pub fn close_expr_chars() -> (r: Vec<char>)
    ensures
        r@ == close_expr(),
{
    let r: Vec<char> = vec!['}', '}'];
    assert(r@ =~= close_expr());
    r
}

pub open spec fn open_stmt() -> Seq<char> {
    seq!['{', '%']
}

pub fn open_stmt_chars() -> (r: Vec<char>)
    ensures
        r@ == open_stmt(),
{
    let r: Vec<char> = vec!['{', '%'];
    assert(r@ =~= open_stmt());
    r
}

pub open spec fn close_stmt() -> Seq<char> {
    seq!['%', '}']
}

pub fn close_stmt_chars() -> (r: Vec<char>)
    ensures
        r@ == close_stmt(),
{
    let r: Vec<char> = vec!['%', '}'];
    assert(r@ =~= close_stmt());
    r
}

pub open spec fn open_comment() -> Seq<char> {
    seq!['{', '#']
}

pub fn open_comment_chars() -> (r: Vec<char>)
    ensures
        r@ == open_comment(),
{
    let r: Vec<char> = vec!['{', '#'];
    assert(r@ =~= open_comment());
    r
}

pub open spec fn close_comment() -> Seq<char> {
    seq!['#', '}']
}

pub fn close_comment_chars() -> (r: Vec<char>)
    ensures
        r@ == close_comment(),
{
    let r: Vec<char> = vec!['#', '}'];
    assert(r@ =~= close_comment());
    r
}

pub open spec fn open_for() -> Seq<char> {
    seq!['{', '%', ' ', 'f', 'o', 'r', ' ']
}

pub fn open_for_chars() -> (r: Vec<char>)
    ensures
        r@ == open_for(),
{
    let r: Vec<char> = vec!['{', '%', ' ', 'f', 'o', 'r', ' '];
    assert(r@ =~= open_for());
    r
}

pub open spec fn kw_if() -> Seq<char> {
    seq!['i', 'f', ' ']
}

pub fn kw_if_chars() -> (r: Vec<char>)
    ensures
        r@ == kw_if(),
{
    let r: Vec<char> = vec!['i', 'f', ' '];
    assert(r@ =~= kw_if());
    r
}

pub open spec fn kw_endif() -> Seq<char> {
    seq!['e', 'n', 'd', 'i', 'f']
}

pub fn kw_endif_chars() -> (r: Vec<char>)
    ensures
        r@ == kw_endif(),
{
    let r: Vec<char> = vec!['e', 'n', 'd', 'i', 'f'];
    assert(r@ =~= kw_endif());
    r
}

pub open spec fn kw_else() -> Seq<char> {
    seq!['e', 'l', 's', 'e']
}

pub fn kw_else_chars() -> (r: Vec<char>)
    ensures
        r@ == kw_else(),
{
    let r: Vec<char> = vec!['e', 'l', 's', 'e'];
    assert(r@ =~= kw_else());
    r
}

pub open spec fn kw_for() -> Seq<char> {
    seq!['f', 'o', 'r', ' ']
}

pub fn kw_for_chars() -> (r: Vec<char>)
    ensures
        r@ == kw_for(),
{
    let r: Vec<char> = vec!['f', 'o', 'r', ' '];
    assert(r@ =~= kw_for());
    r
}

pub open spec fn kw_endfor() -> Seq<char> {
    seq!['e', 'n', 'd', 'f', 'o', 'r']
}

pub fn kw_endfor_chars() -> (r: Vec<char>)
    ensures
        r@ == kw_endfor(),
{
    let r: Vec<char> = vec!['e', 'n', 'd', 'f', 'o', 'r'];
    assert(r@ =~= kw_endfor());
    r
}

pub open spec fn kw_in() -> Seq<char> {
    seq![' ', 'i', 'n', ' ']
}

pub fn kw_in_chars() -> (r: Vec<char>)
    ensures
        r@ == kw_in(),
{
    let r: Vec<char> = vec![' ', 'i', 'n', ' '];
    assert(r@ =~= kw_in());
    r
}

pub open spec fn op_eq() -> Seq<char> {
    seq!['=', '=']
}

pub fn op_eq_chars() -> (r: Vec<char>)
    ensures
        r@ == op_eq(),
{
    let r: Vec<char> = vec!['=', '='];
    assert(r@ =~= op_eq());
    r
}

pub open spec fn op_ne() -> Seq<char> {
    seq!['!', '=']
}

pub fn op_ne_chars() -> (r: Vec<char>)
    ensures
        r@ == op_ne(),
{
    let r: Vec<char> = vec!['!', '='];
    assert(r@ =~= op_ne());
    r
}

pub open spec fn kw_not() -> Seq<char> {
    seq!['n', 'o', 't', ' ']
}

pub fn kw_not_chars() -> (r: Vec<char>)
    ensures
        r@ == kw_not(),
{
    let r: Vec<char> = vec!['n', 'o', 't', ' '];
    assert(r@ =~= kw_not());
    r
}

pub open spec fn kw_defined() -> Seq<char> {
    seq![' ', 'i', 's', ' ', 'd', 'e', 'f', 'i', 'n', 'e', 'd']
}

pub fn kw_defined_chars() -> (r: Vec<char>)
    ensures
        r@ == kw_defined(),
{
    let r: Vec<char> = vec![' ', 'i', 's', ' ', 'd', 'e', 'f', 'i', 'n', 'e', 'd'];
    assert(r@ =~= kw_defined());
    r
}

pub open spec fn kw_undefined() -> Seq<char> {
    seq![' ', 'i', 's', ' ', 'u', 'n', 'd', 'e', 'f', 'i', 'n', 'e', 'd']
}

pub fn kw_undefined_chars() -> (r: Vec<char>)
    ensures
        r@ == kw_undefined(),
{
    let r: Vec<char> = vec![' ', 'i', 's', ' ', 'u', 'n', 'd', 'e', 'f', 'i', 'n', 'e', 'd'];
    assert(r@ =~= kw_undefined());
    r
}

pub open spec fn word_false() -> Seq<char> {
    seq!['f', 'a', 'l', 's', 'e']
}

pub fn word_false_chars() -> (r: Vec<char>)
    ensures
        r@ == word_false(),
{
    let r: Vec<char> = vec!['f', 'a', 'l', 's', 'e'];
    assert(r@ =~= word_false());
    r
}

pub open spec fn word_zero() -> Seq<char> {
    seq!['0']
}

pub fn word_zero_chars() -> (r: Vec<char>)
    ensures
        r@ == word_zero(),
{
    let r: Vec<char> = vec!['0'];
    assert(r@ =~= word_zero());
    r
}

pub open spec fn bar() -> Seq<char> {
    seq!['|']
}

pub fn bar_chars() -> (r: Vec<char>)
    ensures
        r@ == bar(),
{
    let r: Vec<char> = vec!['|'];
    assert(r@ =~= bar());
    r
}

pub open spec fn paren() -> Seq<char> {
    seq!['(']
}

pub fn paren_chars() -> (r: Vec<char>)
    ensures
        r@ == paren(),
{
    let r: Vec<char> = vec!['('];
    assert(r@ =~= paren());
    r
}

pub open spec fn comma() -> Seq<char> {
    seq![',']
}

pub fn comma_chars() -> (r: Vec<char>)
    ensures
        r@ == comma(),
{
    let r: Vec<char> = vec![','];
    assert(r@ =~= comma());
    r
}

pub open spec fn comma_space() -> Seq<char> {
    seq![',', ' ']
}

pub fn comma_space_chars() -> (r: Vec<char>)
    ensures
        r@ == comma_space(),
{
    let r: Vec<char> = vec![',', ' '];
    assert(r@ =~= comma_space());
    r
}

pub open spec fn f_lower() -> Seq<char> {
    seq!['l', 'o', 'w', 'e', 'r']
}

pub fn f_lower_chars() -> (r: Vec<char>)
    ensures
        r@ == f_lower(),
{
    let r: Vec<char> = vec!['l', 'o', 'w', 'e', 'r'];
    assert(r@ =~= f_lower());
    r
}

pub open spec fn f_upper() -> Seq<char> {
    seq!['u', 'p', 'p', 'e', 'r']
}

pub fn f_upper_chars() -> (r: Vec<char>)
    ensures
        r@ == f_upper(),
{
    let r: Vec<char> = vec!['u', 'p', 'p', 'e', 'r'];
    assert(r@ =~= f_upper());
    r
}

pub open spec fn f_capitalize() -> Seq<char> {
    seq!['c', 'a', 'p', 'i', 't', 'a', 'l', 'i', 'z', 'e']
}

pub fn f_capitalize_chars() -> (r: Vec<char>)
    ensures
        r@ == f_capitalize(),
{
    let r: Vec<char> = vec!['c', 'a', 'p', 'i', 't', 'a', 'l', 'i', 'z', 'e'];
    assert(r@ =~= f_capitalize());
    r
}

pub open spec fn f_trim() -> Seq<char> {
    seq!['t', 'r', 'i', 'm']
}

pub fn f_trim_chars() -> (r: Vec<char>)
    ensures
        r@ == f_trim(),
{
    let r: Vec<char> = vec!['t', 'r', 'i', 'm'];
    assert(r@ =~= f_trim());
    r
}

pub open spec fn f_length() -> Seq<char> {
    seq!['l', 'e', 'n', 'g', 't', 'h']
}

pub fn f_length_chars() -> (r: Vec<char>)
    ensures
        r@ == f_length(),
{
    let r: Vec<char> = vec!['l', 'e', 'n', 'g', 't', 'h'];
    assert(r@ =~= f_length());
    r
}

pub open spec fn f_default() -> Seq<char> {
    seq!['d', 'e', 'f', 'a', 'u', 'l', 't']
}

pub fn f_default_chars() -> (r: Vec<char>)
    ensures
        r@ == f_default(),
{
    let r: Vec<char> = vec!['d', 'e', 'f', 'a', 'u', 'l', 't'];
    assert(r@ =~= f_default());
    r
}

pub open spec fn f_replace() -> Seq<char> {
    seq!['r', 'e', 'p', 'l', 'a', 'c', 'e']
}

pub fn f_replace_chars() -> (r: Vec<char>)
    ensures
        r@ == f_replace(),
{
    let r: Vec<char> = vec!['r', 'e', 'p', 'l', 'a', 'c', 'e'];
    assert(r@ =~= f_replace());
    r
}

pub open spec fn f_regex_replace() -> Seq<char> {
    seq!['r', 'e', 'g', 'e', 'x', '_', 'r', 'e', 'p', 'l', 'a', 'c', 'e']
}

pub fn f_regex_replace_chars() -> (r: Vec<char>)
    ensures
        r@ == f_regex_replace(),
{
    let r: Vec<char> = vec!['r', 'e', 'g', 'e', 'x', '_', 'r', 'e', 'p', 'l', 'a', 'c', 'e'];
    assert(r@ =~= f_regex_replace());
    r
}

pub open spec fn f_join() -> Seq<char> {
    seq!['j', 'o', 'i', 'n']
}

pub fn f_join_chars() -> (r: Vec<char>)
    ensures
        r@ == f_join(),
{
    let r: Vec<char> = vec!['j', 'o', 'i', 'n'];
    assert(r@ =~= f_join());
    r
}

pub open spec fn f_split() -> Seq<char> {
    seq!['s', 'p', 'l', 'i', 't']
}

pub fn f_split_chars() -> (r: Vec<char>)
    ensures
        r@ == f_split(),
{
    let r: Vec<char> = vec!['s', 'p', 'l', 'i', 't'];
    assert(r@ =~= f_split());
    r
}

pub open spec fn f_basename() -> Seq<char> {
    seq!['b', 'a', 's', 'e', 'n', 'a', 'm', 'e']
}

pub fn f_basename_chars() -> (r: Vec<char>)
    ensures
        r@ == f_basename(),
{
    let r: Vec<char> = vec!['b', 'a', 's', 'e', 'n', 'a', 'm', 'e'];
    assert(r@ =~= f_basename());
    r
}

pub open spec fn f_dirname() -> Seq<char> {
    seq!['d', 'i', 'r', 'n', 'a', 'm', 'e']
}

pub fn f_dirname_chars() -> (r: Vec<char>)
    ensures
        r@ == f_dirname(),
{
    let r: Vec<char> = vec!['d', 'i', 'r', 'n', 'a', 'm', 'e'];
    assert(r@ =~= f_dirname());
    r
}

pub open spec fn f_to_json() -> Seq<char> {
    seq!['t', 'o', '_', 'j', 's', 'o', 'n']
}

pub fn f_to_json_chars() -> (r: Vec<char>)
    ensures
        r@ == f_to_json(),
{
    let r: Vec<char> = vec!['t', 'o', '_', 'j', 's', 'o', 'n'];
    assert(r@ =~= f_to_json());
    r
}

pub open spec fn f_to_yaml() -> Seq<char> {
    seq!['t', 'o', '_', 'y', 'a', 'm', 'l']
}

pub fn f_to_yaml_chars() -> (r: Vec<char>)
    ensures
        r@ == f_to_yaml(),
{
    let r: Vec<char> = vec!['t', 'o', '_', 'y', 'a', 'm', 'l'];
    assert(r@ =~= f_to_yaml());
    r
}

pub open spec fn m_command() -> Seq<char> {
    seq!['c', 'o', 'm', 'm', 'a', 'n', 'd']
}

pub fn m_command_chars() -> (r: Vec<char>)
    ensures
        r@ == m_command(),
{
    let r: Vec<char> = vec!['c', 'o', 'm', 'm', 'a', 'n', 'd'];
    assert(r@ =~= m_command());
    r
}

pub open spec fn m_shell() -> Seq<char> {
    seq!['s', 'h', 'e', 'l', 'l']
}

pub fn m_shell_chars() -> (r: Vec<char>)
    ensures
        r@ == m_shell(),
{
    let r: Vec<char> = vec!['s', 'h', 'e', 'l', 'l'];
    assert(r@ =~= m_shell());
    r
}

pub open spec fn m_copy() -> Seq<char> {
    seq!['c', 'o', 'p', 'y']
}

pub fn m_copy_chars() -> (r: Vec<char>)
    ensures
        r@ == m_copy(),
{
    let r: Vec<char> = vec!['c', 'o', 'p', 'y'];
    assert(r@ =~= m_copy());
    r
}

pub open spec fn m_file() -> Seq<char> {
    seq!['f', 'i', 'l', 'e']
}

pub fn m_file_chars() -> (r: Vec<char>)
    ensures
        r@ == m_file(),
{
    let r: Vec<char> = vec!['f', 'i', 'l', 'e'];
    assert(r@ =~= m_file());
    r
}

pub open spec fn m_template() -> Seq<char> {
    seq!['t', 'e', 'm', 'p', 'l', 'a', 't', 'e']
}

pub fn m_template_chars() -> (r: Vec<char>)
    ensures
        r@ == m_template(),
{
    let r: Vec<char> = vec!['t', 'e', 'm', 'p', 'l', 'a', 't', 'e'];
    assert(r@ =~= m_template());
    r
}

pub open spec fn m_apt() -> Seq<char> {
    seq!['a', 'p', 't']
}

pub fn m_apt_chars() -> (r: Vec<char>)
    ensures
        r@ == m_apt(),
{
    let r: Vec<char> = vec!['a', 'p', 't'];
    assert(r@ =~= m_apt());
    r
}

pub open spec fn m_service() -> Seq<char> {
    seq!['s', 'e', 'r', 'v', 'i', 'c', 'e']
}

pub fn m_service_chars() -> (r: Vec<char>)
    ensures
        r@ == m_service(),
{
    let r: Vec<char> = vec!['s', 'e', 'r', 'v', 'i', 'c', 'e'];
    assert(r@ =~= m_service());
    r
}

pub open spec fn m_lineinfile() -> Seq<char> {
    seq!['l', 'i', 'n', 'e', 'i', 'n', 'f', 'i', 'l', 'e']
}

pub fn m_lineinfile_chars() -> (r: Vec<char>)
    ensures
        r@ == m_lineinfile(),
{
    let r: Vec<char> = vec!['l', 'i', 'n', 'e', 'i', 'n', 'f', 'i', 'l', 'e'];
    assert(r@ =~= m_lineinfile());
    r
}

pub open spec fn m_raw() -> Seq<char> {
    seq!['r', 'a', 'w']
}

pub fn m_raw_chars() -> (r: Vec<char>)
    ensures
        r@ == m_raw(),
{
    let r: Vec<char> = vec!['r', 'a', 'w'];
    assert(r@ =~= m_raw());
    r
}

pub open spec fn m_script() -> Seq<char> {
    seq!['s', 'c', 'r', 'i', 'p', 't']
}

pub fn m_script_chars() -> (r: Vec<char>)
    ensures
        r@ == m_script(),
{
    let r: Vec<char> = vec!['s', 'c', 'r', 'i', 'p', 't'];
    assert(r@ =~= m_script());
    r
}

pub open spec fn m_yum() -> Seq<char> {
    seq!['y', 'u', 'm']
}

pub fn m_yum_chars() -> (r: Vec<char>)
    ensures
        r@ == m_yum(),
{
    let r: Vec<char> = vec!['y', 'u', 'm'];
    assert(r@ =~= m_yum());
    r
}

pub open spec fn m_dnf() -> Seq<char> {
    seq!['d', 'n', 'f']
}

pub fn m_dnf_chars() -> (r: Vec<char>)
    ensures
        r@ == m_dnf(),
{
    let r: Vec<char> = vec!['d', 'n', 'f'];
    assert(r@ =~= m_dnf());
    r
}

pub open spec fn m_pip() -> Seq<char> {
    seq!['p', 'i', 'p']
}

pub fn m_pip_chars() -> (r: Vec<char>)
    ensures
        r@ == m_pip(),
{
    let r: Vec<char> = vec!['p', 'i', 'p'];
    assert(r@ =~= m_pip());
    r
}

pub open spec fn m_user() -> Seq<char> {
    seq!['u', 's', 'e', 'r']
}

pub fn m_user_chars() -> (r: Vec<char>)
    ensures
        r@ == m_user(),
{
    let r: Vec<char> = vec!['u', 's', 'e', 'r'];
    assert(r@ =~= m_user());
    r
}

pub open spec fn m_group() -> Seq<char> {
    seq!['g', 'r', 'o', 'u', 'p']
}

pub fn m_group_chars() -> (r: Vec<char>)
    ensures
        r@ == m_group(),
{
    let r: Vec<char> = vec!['g', 'r', 'o', 'u', 'p'];
    assert(r@ =~= m_group());
    r
}

pub open spec fn w_all() -> Seq<char> {
    seq!['a', 'l', 'l']
}

pub fn w_all_chars() -> (r: Vec<char>)
    ensures
        r@ == w_all(),
{
    let r: Vec<char> = vec!['a', 'l', 'l'];
    assert(r@ =~= w_all());
    r
}

pub open spec fn w_localhost() -> Seq<char> {
    seq!['l', 'o', 'c', 'a', 'l', 'h', 'o', 's', 't']
}

pub fn w_localhost_chars() -> (r: Vec<char>)
    ensures
        r@ == w_localhost(),
{
    let r: Vec<char> = vec!['l', 'o', 'c', 'a', 'l', 'h', 'o', 's', 't'];
    assert(r@ =~= w_localhost());
    r
}

pub open spec fn w_always() -> Seq<char> {
    seq!['a', 'l', 'w', 'a', 'y', 's']
}

pub fn w_always_chars() -> (r: Vec<char>)
    ensures
        r@ == w_always(),
{
    let r: Vec<char> = vec!['a', 'l', 'w', 'a', 'y', 's'];
    assert(r@ =~= w_always());
    r
}

pub open spec fn w_raw_arg() -> Seq<char> {
    seq!['_', 'r', 'a', 'w']
}

pub fn w_raw_arg_chars() -> (r: Vec<char>)
    ensures
        r@ == w_raw_arg(),
{
    let r: Vec<char> = vec!['_', 'r', 'a', 'w'];
    assert(r@ =~= w_raw_arg());
    r
}

pub open spec fn w_true() -> Seq<char> {
    seq!['t', 'r', 'u', 'e']
}

pub fn w_true_chars() -> (r: Vec<char>)
    ensures
        r@ == w_true(),
{
    let r: Vec<char> = vec!['t', 'r', 'u', 'e'];
    assert(r@ =~= w_true());
    r
}

pub open spec fn w_inventory_hostname() -> Seq<char> {
    seq!['i', 'n', 'v', 'e', 'n', 't', 'o', 'r', 'y', '_', 'h', 'o', 's', 't', 'n', 'a', 'm', 'e']
}

pub fn w_inventory_hostname_chars() -> (r: Vec<char>)
    ensures
        r@ == w_inventory_hostname(),
{
    let r: Vec<char> = vec!['i', 'n', 'v', 'e', 'n', 't', 'o', 'r', 'y', '_', 'h', 'o', 's', 't', 'n', 'a', 'm', 'e'];
    assert(r@ =~= w_inventory_hostname());
    r
}

pub open spec fn w_ansible_host() -> Seq<char> {
    seq!['a', 'n', 's', 'i', 'b', 'l', 'e', '_', 'h', 'o', 's', 't']
}

pub fn w_ansible_host_chars() -> (r: Vec<char>)
    ensures
        r@ == w_ansible_host(),
{
    let r: Vec<char> = vec!['a', 'n', 's', 'i', 'b', 'l', 'e', '_', 'h', 'o', 's', 't'];
    assert(r@ =~= w_ansible_host());
    r
}

pub open spec fn w_dot_stdout() -> Seq<char> {
    seq!['.', 's', 't', 'd', 'o', 'u', 't']
}

pub fn w_dot_stdout_chars() -> (r: Vec<char>)
    ensures
        r@ == w_dot_stdout(),
{
    let r: Vec<char> = vec!['.', 's', 't', 'd', 'o', 'u', 't'];
    assert(r@ =~= w_dot_stdout());
    r
}

pub open spec fn w_dot_stderr() -> Seq<char> {
    seq!['.', 's', 't', 'd', 'e', 'r', 'r']
}

pub fn w_dot_stderr_chars() -> (r: Vec<char>)
    ensures
        r@ == w_dot_stderr(),
{
    let r: Vec<char> = vec!['.', 's', 't', 'd', 'e', 'r', 'r'];
    assert(r@ =~= w_dot_stderr());
    r
}

pub open spec fn w_dot_rc() -> Seq<char> {
    seq!['.', 'r', 'c']
}

pub fn w_dot_rc_chars() -> (r: Vec<char>)
    ensures
        r@ == w_dot_rc(),
{
    let r: Vec<char> = vec!['.', 'r', 'c'];
    assert(r@ =~= w_dot_rc());
    r
}

pub open spec fn w_dot_changed() -> Seq<char> {
    seq!['.', 'c', 'h', 'a', 'n', 'g', 'e', 'd']
}

pub fn w_dot_changed_chars() -> (r: Vec<char>)
    ensures
        r@ == w_dot_changed(),
{
    let r: Vec<char> = vec!['.', 'c', 'h', 'a', 'n', 'g', 'e', 'd'];
    assert(r@ =~= w_dot_changed());
    r
}

pub open spec fn w_dot_failed() -> Seq<char> {
    seq!['.', 'f', 'a', 'i', 'l', 'e', 'd']
}

pub fn w_dot_failed_chars() -> (r: Vec<char>)
    ensures
        r@ == w_dot_failed(),
{
    let r: Vec<char> = vec!['.', 'f', 'a', 'i', 'l', 'e', 'd'];
    assert(r@ =~= w_dot_failed());
    r
}

pub open spec fn w_regex_start() -> Seq<char> {
    seq!['^']
}

pub fn w_regex_start_chars() -> (r: Vec<char>)
    ensures
        r@ == w_regex_start(),
{
    let r: Vec<char> = vec!['^'];
    assert(r@ =~= w_regex_start());
    r
}

pub open spec fn w_regex_end() -> Seq<char> {
    seq!['$']
}

pub fn w_regex_end_chars() -> (r: Vec<char>)
    ensures
        r@ == w_regex_end(),
{
    let r: Vec<char> = vec!['$'];
    assert(r@ =~= w_regex_end());
    r
}

pub open spec fn w_star() -> Seq<char> {
    seq!['*']
}

pub fn w_star_chars() -> (r: Vec<char>)
    ensures
        r@ == w_star(),
{
    let r: Vec<char> = vec!['*'];
    assert(r@ =~= w_star());
    r
}

pub open spec fn w_dot_star() -> Seq<char> {
    seq!['.', '*']
}

pub fn w_dot_star_chars() -> (r: Vec<char>)
    ensures
        r@ == w_dot_star(),
{
    let r: Vec<char> = vec!['.', '*'];
    assert(r@ =~= w_dot_star());
    r
}

} // verus!
