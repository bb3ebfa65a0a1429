//! The template engine: comments, `if` and `for` statements, `{{ ... }}`
//! expressions with filters, and the small condition grammar of `when`.
use vstd::prelude::*;
use crate::bridge::{
    file_name_of, json_literal, json_string, lower_of, lowercase, parent_of, path_file_name,
    path_parent, regex_replace_all, regex_replaced, upper_char_of, upper_of, uppercase,
    uppercase_char, yaml_of, yaml_string,
};
use crate::text::{
    append, chars_eq, chars_of, contains, decimal, ends_with, find, find_at, find_from, has_prefix,
    has_suffix, join, join_with, lemma_find_from_bounds, lemma_split_char_nonempty,
    lemma_trim_len, occurs_at, replace_all, replaced, slice, split_char, split_first, split_on,
    split_once, split_str, starts_with, strip, strip_end, string_of, stripped, stripped_end,
    to_decimal, trim, trimmed,
};
use crate::vars::{lookup, StrMap};
use crate::words::{open_expr, open_expr_chars, close_expr, close_expr_chars, open_stmt, open_stmt_chars, close_stmt, close_stmt_chars, open_comment, open_comment_chars, close_comment, close_comment_chars, open_for, open_for_chars, kw_if, kw_if_chars, kw_endif, kw_endif_chars, kw_else, kw_else_chars, kw_for, kw_for_chars, kw_endfor, kw_endfor_chars, kw_in, kw_in_chars, op_eq, op_eq_chars, op_ne, op_ne_chars, kw_not, kw_not_chars, kw_defined, kw_defined_chars, kw_undefined, kw_undefined_chars, word_false, word_false_chars, word_zero, word_zero_chars, bar, bar_chars, paren, paren_chars, comma, comma_chars, comma_space, comma_space_chars, f_lower, f_lower_chars, f_upper, f_upper_chars, f_capitalize, f_capitalize_chars, f_trim, f_trim_chars, f_length, f_length_chars, f_default, f_default_chars, f_replace, f_replace_chars, f_regex_replace, f_regex_replace_chars, f_join, f_join_chars, f_split, f_split_chars, f_basename, f_basename_chars, f_dirname, f_dirname_chars, f_to_json, f_to_json_chars, f_to_yaml, f_to_yaml_chars};

verus! {

pub open spec fn is_quote(c: char) -> bool {
    c == '"' || c == '\''
}

/// `s` without quote characters at either end.
pub open spec fn unquote(s: Seq<char>) -> Seq<char> {
    strip(s, '"', '\'')
}

/// A value counts as true when it is non-empty and neither `false` nor `0`.
pub open spec fn truthy(v: Seq<char>) -> bool {
    v.len() > 0 && v != word_false() && v != word_zero()
}

/// One side of a comparison: a quoted literal without its quotes, else the
/// value of the variable it names (empty where unbound).
pub open spec fn operand(e: Seq<char>, vars: Map<Seq<char>, Seq<char>>) -> Seq<char> {
    let t = trim(e);
    if t.len() > 0 && is_quote(t[0]) {
        unquote(t)
    } else {
        lookup(vars, t)
    }
}

/// The condition of an `{% if %}` statement.
pub open spec fn condition_holds(c: Seq<char>, vars: Map<Seq<char>, Seq<char>>) -> bool
    decreases c.len(),
{
    let t = trim(c);
    match split_once(t, op_eq()) {
        Some((l, r)) => operand(l, vars) == operand(r, vars),
        None => match split_once(t, op_ne()) {
            Some((l, r)) => operand(l, vars) != operand(r, vars),
            None => if starts_with(t, kw_not()) && t.len() <= c.len() {
                !condition_holds(t.subrange(4, t.len() as int), vars)
            } else {
                truthy(lookup(vars, t))
            },
        },
    }
}

/// The condition of a task's `when`: `not X` first, then `A == B`, `A != B`,
/// `NAME is defined`, `NAME is undefined`, else whether `NAME` is truthy.
pub open spec fn when_holds(c: Seq<char>, vars: Map<Seq<char>, Seq<char>>) -> bool
    decreases c.len(),
{
    let t = trim(c);
    if starts_with(t, kw_not()) && t.len() <= c.len() {
        !when_holds(t.subrange(4, t.len() as int), vars)
    } else {
        match split_once(t, op_eq()) {
            Some((l, r)) => operand(l, vars) == operand(r, vars),
            None => match split_once(t, op_ne()) {
                Some((l, r)) => operand(l, vars) != operand(r, vars),
                None => if ends_with(t, kw_defined()) {
                    vars.contains_key(trim(t.subrange(0, t.len() - 11)))
                } else if ends_with(t, kw_undefined()) {
                    !vars.contains_key(trim(t.subrange(0, t.len() - 13)))
                } else {
                    truthy(lookup(vars, t))
                },
            },
        }
    }
}

fn is_quote_char(c: char) -> (r: bool)
    ensures
        r == is_quote(c),
{
    c == '"' || c == '\''
}

fn eval_operand(e: &Vec<char>, vars: &StrMap) -> (r: Vec<char>)
    ensures
        r@ == operand(e@, vars@),
{
    let t = trimmed(e);
    if t.len() > 0 && is_quote_char(t[0]) {
        stripped(&t, '"', '\'')
    } else {
        vars.lookup_chars(&t)
    }
}

fn compare(l: &Vec<char>, r: &Vec<char>, vars: &StrMap) -> (b: bool)
    ensures
        b == (operand(l@, vars@) == operand(r@, vars@)),
{
    let a = eval_operand(l, vars);
    let b = eval_operand(r, vars);
    chars_eq(&a, &b)
}

fn is_truthy(v: &Vec<char>) -> (r: bool)
    ensures
        r == truthy(v@),
{
    v.len() > 0 && !chars_eq(v, &word_false_chars()) && !chars_eq(v, &word_zero_chars())
}

proof fn lemma_not_tail(t: Seq<char>, c: Seq<char>)
    requires
        t == trim(c),
    ensures
        t.len() <= c.len(),
{
    lemma_trim_len(c);
}

/// Evaluates the condition of an `{% if %}` statement.
pub fn eval_condition(c: &Vec<char>, vars: &StrMap) -> (r: bool)
    ensures
        r == condition_holds(c@, vars@),
    decreases c.len(),
{
    let t = trimmed(c);
    proof {
        lemma_not_tail(t@, c@);
    }
    match split_first(&t, &op_eq_chars()) {
        Some((l, r)) => compare(&l, &r, vars),
        None => match split_first(&t, &op_ne_chars()) {
            Some((l, r)) => !compare(&l, &r, vars),
            None => {
                if has_prefix(&t, &kw_not_chars()) {
                    let inner = slice(&t, 4, t.len());
                    !eval_condition(&inner, vars)
                } else {
                    let v = vars.lookup_chars(&t);
                    is_truthy(&v)
                }
            },
        },
    }
}

fn eval_when_chars(c: &Vec<char>, vars: &StrMap) -> (r: bool)
    ensures
        r == when_holds(c@, vars@),
    decreases c.len(),
{
    let t = trimmed(c);
    proof {
        lemma_not_tail(t@, c@);
    }
    if has_prefix(&t, &kw_not_chars()) {
        let inner = slice(&t, 4, t.len());
        return !eval_when_chars(&inner, vars);
    }
    match split_first(&t, &op_eq_chars()) {
        Some((l, r)) => compare(&l, &r, vars),
        None => match split_first(&t, &op_ne_chars()) {
            Some((l, r)) => !compare(&l, &r, vars),
            None => {
                if has_suffix(&t, &kw_defined_chars()) {
                    let name = trimmed(&slice(&t, 0, t.len() - 11));
                    vars.contains_chars(&name)
                } else if has_suffix(&t, &kw_undefined_chars()) {
                    let name = trimmed(&slice(&t, 0, t.len() - 13));
                    !vars.contains_chars(&name)
                } else {
                    let v = vars.lookup_chars(&t);
                    is_truthy(&v)
                }
            },
        },
    }
}

/// Evaluates a `when` condition against a scope.
pub fn eval_when(condition: &str, vars: &StrMap) -> (r: bool)
    ensures
        r == when_holds(condition@, vars@),
{
    let c = chars_of(condition);
    eval_when_chars(&c, vars)
}

// ---------------------------------------------------------------- filters

/// A filter without arguments other than the path and serialisation ones.
pub open spec fn plain_filter(v: Seq<char>, f: Seq<char>) -> Seq<char> {
    if f == f_lower() {
        lower_of(v)
    } else if f == f_upper() {
        upper_of(v)
    } else if f == f_capitalize() {
        if v.len() == 0 {
            v
        } else {
            upper_char_of(v[0]) + v.drop_first()
        }
    } else if f == f_trim() {
        trim(v)
    } else if f == f_length() {
        decimal(vstd::utf8::encode_utf8(v).len() as usize as nat)
    } else {
        v
    }
}

pub open spec fn is_path_or_format_filter(f: Seq<char>) -> bool {
    f == f_basename() || f == f_dirname() || f == f_to_json() || f == f_to_yaml()
}

/// The path and serialisation filters; each leaves the value as it is where
/// the underlying operation gives nothing.
pub open spec fn path_or_format_filter(v: Seq<char>, f: Seq<char>) -> Seq<char> {
    let r = if f == f_basename() {
        file_name_of(v)
    } else if f == f_dirname() {
        parent_of(v)
    } else if f == f_to_json() {
        Some(json_literal(v))
    } else if f == f_to_yaml() {
        yaml_of(v)
    } else {
        None
    };
    match r {
        Some(x) => x,
        None => v,
    }
}

/// A filter argument: a quoted literal without its quotes, else the value of
/// the variable it names, else the text itself.
pub open spec fn filter_arg(args: Seq<char>, vars: Map<Seq<char>, Seq<char>>) -> Seq<char> {
    let a = trim(args);
    if a.len() > 0 && is_quote(a[0]) {
        unquote(a)
    } else if vars.contains_key(a) {
        vars[a]
    } else {
        a
    }
}

/// A filter that takes an argument, written `name(args)`.
pub open spec fn arg_filter(
    v: Seq<char>,
    name: Seq<char>,
    args: Seq<char>,
    vars: Map<Seq<char>, Seq<char>>,
) -> Seq<char> {
    let arg = filter_arg(args, vars);
    if name == f_default() {
        if v.len() == 0 {
            arg
        } else {
            v
        }
    } else if name == f_replace() {
        match split_once(arg, comma()) {
            Some((a, b)) => replace_all(v, unquote(trim(a)), unquote(trim(b))),
            None => v,
        }
    } else if name == f_regex_replace() {
        match split_once(arg, comma()) {
            Some((p, r)) => match regex_replaced(unquote(trim(p)), v, unquote(trim(r))) {
                Some(x) => x,
                None => v,
            },
            None => v,
        }
    } else if name == f_join() {
        join(split_char(v, ',').map_values(|p: Seq<char>| trim(p)), arg)
    } else if name == f_split() {
        join(split_str(v, arg), comma_space())
    } else {
        v
    }
}

/// One filter of a chain, as written between two `|`.
pub open spec fn one_filter(v: Seq<char>, raw: Seq<char>, vars: Map<Seq<char>, Seq<char>>) -> Seq<
    char,
> {
    let f = trim(raw);
    match split_once(f, paren()) {
        Some((name, rest)) => arg_filter(v, trim(name), strip_end(rest, ')', ')'), vars),
        None => if is_path_or_format_filter(f) {
            path_or_format_filter(v, f)
        } else {
            plain_filter(v, f)
        },
    }
}

/// The filters applied from left to right.
pub open spec fn filter_chain(
    v: Seq<char>,
    fs: Seq<Seq<char>>,
    vars: Map<Seq<char>, Seq<char>>,
) -> Seq<char>
    decreases fs.len(),
{
    if fs.len() == 0 {
        v
    } else {
        filter_chain(one_filter(v, fs[0], vars), fs.drop_first(), vars)
    }
}

/// The value of the text between `{{` and `}}`: a variable, then filters.
pub open spec fn expression_value(e: Seq<char>, vars: Map<Seq<char>, Seq<char>>) -> Seq<char> {
    let t = trim(e);
    match split_once(t, bar()) {
        Some((name, chain)) => filter_chain(lookup(vars, trim(name)), split_char(chain, '|'), vars),
        None => lookup(vars, t),
    }
}

fn apply_plain_filter(v: &Vec<char>, f: &Vec<char>) -> (r: Vec<char>)
    ensures
        r@ == plain_filter(v@, f@),
{
    if chars_eq(f, &f_lower_chars()) {
        lowercase(v)
    } else if chars_eq(f, &f_upper_chars()) {
        uppercase(v)
    } else if chars_eq(f, &f_capitalize_chars()) {
        if v.len() == 0 {
            v.clone()
        } else {
            let mut r = uppercase_char(v[0]);
            let rest = slice(v, 1, v.len());
            append(&mut r, &rest);
            assert(rest@ =~= v@.drop_first());
            r
        }
    } else if chars_eq(f, &f_trim_chars()) {
        trimmed(v)
    } else if chars_eq(f, &f_length_chars()) {
        let s = string_of(v);
        let n = s.as_str().len();
        to_decimal(n as u64)
    } else {
        v.clone()
    }
}

fn apply_path_or_format_filter(v: &Vec<char>, f: &Vec<char>) -> (r: Vec<char>)
    ensures
        r@ == path_or_format_filter(v@, f@),
{
    let r: Option<Vec<char>> = if chars_eq(f, &f_basename_chars()) {
        path_file_name(v)
    } else if chars_eq(f, &f_dirname_chars()) {
        path_parent(v)
    } else if chars_eq(f, &f_to_json_chars()) {
        match json_string(v) {
            Ok(j) => Some(j),
            Err(_) => None,
        }
    } else if chars_eq(f, &f_to_yaml_chars()) {
        match yaml_string(v) {
            Ok(y) => Some(y),
            Err(_) => None,
        }
    } else {
        None
    };
    match r {
        Some(x) => x,
        None => v.clone(),
    }
}

fn resolve_filter_arg(args: &Vec<char>, vars: &StrMap) -> (r: Vec<char>)
    ensures
        r@ == filter_arg(args@, vars@),
{
    let a = trimmed(args);
    if a.len() > 0 && is_quote_char(a[0]) {
        stripped(&a, '"', '\'')
    } else {
        match vars.get_chars(&a) {
            Some(v) => v,
            None => a,
        }
    }
}

/// The pieces of `s` cut at each occurrence of `sep`.
fn split_pieces(s: &Vec<char>, sep: &Vec<char>) -> (r: Vec<Vec<char>>)
    ensures
        r@.map_values(|p: Vec<char>| p@) == split_str(s@, sep@),
{
    let mut r: Vec<Vec<char>> = Vec::new();
    if sep.len() == 0 {
        r.push(Vec::new());
        let mut i: usize = 0;
        while i < s.len()
            invariant
                i <= s.len(),
                sep@.len() == 0,
                r@.len() == i + 1,
                r@[0]@ == Seq::<char>::empty(),
                forall|k: int| 1 <= k <= i ==> (#[trigger] r@[k])@ == seq![s@[k - 1]],
            decreases s.len() - i,
        {
            let piece: Vec<char> = vec![s[i]];
            r.push(piece);
            i = i + 1;
        }
        r.push(Vec::new());
        let ghost want = split_str(s@, sep@);
        assert(r@.map_values(|p: Vec<char>| p@) =~= want);
        return r;
    }
    let mut pos: usize = 0;
    assert(s@.subrange(0, s.len() as int) =~= s@);
    loop
        invariant
            pos <= s.len(),
            sep@.len() > 0,
            r@.map_values(|p: Vec<char>| p@) + split_str(s@.subrange(pos as int, s.len() as int), sep@)
                == split_str(s@, sep@),
        decreases s.len() - pos,
    {
        let ghost rest = s@.subrange(pos as int, s.len() as int);
        match find_at(s, sep, pos) {
            Some(i) => {
                proof {
                    lemma_find_from_bounds(s@, sep@, pos as int);
                    lemma_find_in_suffix(s@, sep@, pos as int, 0);
                    assert(rest.subrange(0, i - pos) =~= s@.subrange(pos as int, i as int));
                    assert(rest.subrange(i - pos + sep.len(), rest.len() as int) =~= s@.subrange(
                        i + sep.len(),
                        s.len() as int,
                    ));
                }
                let piece = slice(s, pos, i);
                let ghost before = r@;
                r.push(piece);
                proof {
                    assert(r@.map_values(|p: Vec<char>| p@) =~= before.map_values(
                        |p: Vec<char>| p@,
                    ).push(piece@));
                    assert(r@.map_values(|p: Vec<char>| p@) + split_str(
                        s@.subrange(i + sep.len(), s.len() as int),
                        sep@,
                    ) =~= before.map_values(|p: Vec<char>| p@) + split_str(rest, sep@));
                }
                pos = i + sep.len();
            },
            None => {
                proof {
                    lemma_find_in_suffix(s@, sep@, pos as int, 0);
                }
                let piece = slice(s, pos, s.len());
                let ghost before = r@;
                r.push(piece);
                proof {
                    assert(r@.map_values(|p: Vec<char>| p@) =~= before.map_values(
                        |p: Vec<char>| p@,
                    ).push(piece@));
                    assert(r@.map_values(|p: Vec<char>| p@) =~= before.map_values(
                        |p: Vec<char>| p@,
                    ) + split_str(rest, sep@));
                }
                return r;
            },
        }
    }
}

/// Searching the suffix of `s` from `pos` finds what searching `s` from `pos` finds, shifted.
pub proof fn lemma_find_in_suffix(s: Seq<char>, pat: Seq<char>, pos: int, k: int)
    requires
        0 <= pos <= s.len(),
        0 <= k,
    ensures
        find_from(s.subrange(pos, s.len() as int), pat, k) == match find_from(s, pat, pos + k) {
            Some(i) => Some(i - pos),
            None => None::<int>,
        },
    decreases s.len() - pos + 1 - k,
{
    let t = s.subrange(pos, s.len() as int);
    if k + pat.len() > t.len() {
    } else {
        assert(t.subrange(k, k + pat.len()) =~= s.subrange(pos + k, pos + k + pat.len()));
        if occurs_at(t, pat, k) {
        } else {
            lemma_find_in_suffix(s, pat, pos, k + 1);
        }
    }
}

fn apply_arg_filter(v: &Vec<char>, name: &Vec<char>, args: &Vec<char>, vars: &StrMap) -> (r: Vec<
    char,
>)
    ensures
        r@ == arg_filter(v@, name@, args@, vars@),
{
    let arg = resolve_filter_arg(args, vars);
    if chars_eq(name, &f_default_chars()) {
        if v.len() == 0 {
            arg
        } else {
            v.clone()
        }
    } else if chars_eq(name, &f_replace_chars()) {
        match split_first(&arg, &comma_chars()) {
            Some((a, b)) => {
                let a2 = stripped(&trimmed(&a), '"', '\'');
                let b2 = stripped(&trimmed(&b), '"', '\'');
                replaced(v, &a2, &b2)
            },
            None => v.clone(),
        }
    } else if chars_eq(name, &f_regex_replace_chars()) {
        match split_first(&arg, &comma_chars()) {
            Some((p, rp)) => {
                let p2 = stripped(&trimmed(&p), '"', '\'');
                let r2 = stripped(&trimmed(&rp), '"', '\'');
                match regex_replace_all(&p2, v, &r2) {
                    Some(x) => x,
                    None => v.clone(),
                }
            },
            None => v.clone(),
        }
    } else if chars_eq(name, &f_join_chars()) {
        let parts = split_on(v, ',');
        let mut items: Vec<Vec<char>> = Vec::new();
        let mut i: usize = 0;
        while i < parts.len()
            invariant
                i <= parts@.len(),
                parts@.len() == split_char(v@, ',').len(),
                forall|k: int| 0 <= k < parts@.len() ==> #[trigger] parts@[k]@ == split_char(v@, ',')[k],
                items@.len() == i,
                forall|k: int| 0 <= k < i ==> #[trigger] items@[k]@ == trim(split_char(v@, ',')[k]),
            decreases parts.len() - i,
        {
            items.push(trimmed(&parts[i]));
            i = i + 1;
        }
        assert(items@.map_values(|p: Vec<char>| p@) =~= split_char(v@, ',').map_values(
            |p: Seq<char>| trim(p),
        ));
        join_with(&items, &arg)
    } else if chars_eq(name, &f_split_chars()) {
        let pieces = split_pieces(v, &arg);
        join_with(&pieces, &comma_space_chars())
    } else {
        v.clone()
    }
}

fn apply_one_filter(v: &Vec<char>, raw: &Vec<char>, vars: &StrMap) -> (r: Vec<char>)
    ensures
        r@ == one_filter(v@, raw@, vars@),
{
    let f = trimmed(raw);
    match split_first(&f, &paren_chars()) {
        Some((name, rest)) => {
            let args = stripped_end(&rest, ')', ')');
            apply_arg_filter(v, &trimmed(&name), &args, vars)
        },
        None => {
            if chars_eq(&f, &f_basename_chars()) || chars_eq(&f, &f_dirname_chars()) || chars_eq(
                &f,
                &f_to_json_chars(),
            ) || chars_eq(&f, &f_to_yaml_chars()) {
                apply_path_or_format_filter(v, &f)
            } else {
                apply_plain_filter(v, &f)
            }
        },
    }
}

/// The value of the text between `{{` and `}}`.
pub fn eval_expression(e: &Vec<char>, vars: &StrMap) -> (r: Vec<char>)
    ensures
        r@ == expression_value(e@, vars@),
{
    let t = trimmed(e);
    match split_first(&t, &bar_chars()) {
        Some((name, chain)) => {
            let mut value = vars.lookup_chars(&trimmed(&name));
            let fs = split_on(&chain, '|');
            let ghost all = split_char(chain@, '|');
            let mut i: usize = 0;
            assert(all.subrange(0, all.len() as int) =~= all);
            while i < fs.len()
                invariant
                    i <= fs@.len(),
                    fs@.len() == all.len(),
                    forall|k: int| 0 <= k < fs@.len() ==> #[trigger] fs@[k]@ == all[k],
                    filter_chain(value@, all.subrange(i as int, all.len() as int), vars@)
                        == filter_chain(lookup(vars@, trim(name@)), all, vars@),
                decreases fs.len() - i,
            {
                let next = apply_one_filter(&value, &fs[i], vars);
                proof {
                    let rest = all.subrange(i as int, all.len() as int);
                    assert(rest.drop_first() =~= all.subrange(i + 1, all.len() as int));
                }
                value = next;
                i = i + 1;
            }
            proof {
                assert(all.subrange(all.len() as int, all.len() as int).len() == 0);
            }
            value
        },
        None => vars.lookup_chars(&t),
    }
}

// ----------------------------------------------------------- substitution

/// Every `{{ ... }}` from `pos` on replaced by its value, left to right;
/// the values are not scanned again.
pub open spec fn substitute_from(s: Seq<char>, pos: int, vars: Map<Seq<char>, Seq<char>>) -> Seq<
    char,
>
    decreases s.len() - pos,
{
    if pos < 0 || pos > s.len() {
        Seq::empty()
    } else {
        match find_from(s, open_expr(), pos) {
            None => s.subrange(pos, s.len() as int),
            Some(a) => match find_from(s, close_expr(), a + 2) {
                None => s.subrange(pos, s.len() as int),
                Some(b) => if pos <= a && a + 2 <= b && b + 2 <= s.len() {
                    s.subrange(pos, a) + expression_value(s.subrange(a + 2, b), vars)
                        + substitute_from(s, b + 2, vars)
                } else {
                    s.subrange(pos, s.len() as int)
                },
            },
        }
    }
}

pub open spec fn substitute(s: Seq<char>, vars: Map<Seq<char>, Seq<char>>) -> Seq<char> {
    substitute_from(s, 0, vars)
}

/// Replaces every `{{ ... }}` by its value.
pub fn process_variables(s: &Vec<char>, vars: &StrMap) -> (r: Vec<char>)
    ensures
        r@ == substitute(s@, vars@),
{
    let open = open_expr_chars();
    let close = close_expr_chars();
    let mut out: Vec<char> = Vec::new();
    let mut pos: usize = 0;
    loop
        invariant
            pos <= s.len(),
            open@ == open_expr(),
            close@ == close_expr(),
            out@ + substitute_from(s@, pos as int, vars@) == substitute(s@, vars@),
        decreases s.len() - pos,
    {
        match find_at(s, &open, pos) {
            None => {
                let rest = slice(s, pos, s.len());
                append(&mut out, &rest);
                return out;
            },
            Some(a) => {
                proof {
                    lemma_find_from_bounds(s@, open@, pos as int);
                }
                match find_at(s, &close, a + 2) {
                    None => {
                        let rest = slice(s, pos, s.len());
                        append(&mut out, &rest);
                        return out;
                    },
                    Some(b) => {
                        proof {
                            lemma_find_from_bounds(s@, close@, a + 2);
                        }
                        let before = slice(s, pos, a);
                        let e = slice(s, a + 2, b);
                        let value = eval_expression(&e, vars);
                        append(&mut out, &before);
                        append(&mut out, &value);
                        proof {
                            assert(out@ + substitute_from(s@, b + 2, vars@) =~= substitute(
                                s@,
                                vars@,
                            ));
                        }
                        pos = b + 2;
                    },
                }
            },
        }
    }
}


// --------------------------------------------------------------- comments

/// Every `{# ... #}` from `pos` on removed, left to right.
pub open spec fn uncomment_from(s: Seq<char>, pos: int) -> Seq<char>
    decreases s.len() - pos,
{
    if pos < 0 || pos > s.len() {
        Seq::empty()
    } else {
        match find_from(s, open_comment(), pos) {
            None => s.subrange(pos, s.len() as int),
            Some(a) => match find_from(s, close_comment(), a) {
                None => s.subrange(pos, s.len() as int),
                Some(b) => if pos <= a && a <= b && b + 2 <= s.len() {
                    s.subrange(pos, a) + uncomment_from(s, b + 2)
                } else {
                    s.subrange(pos, s.len() as int)
                },
            },
        }
    }
}

/// Removes every `{# ... #}`.
pub fn process_comments(s: &Vec<char>) -> (r: Vec<char>)
    ensures
        r@ == uncomment_from(s@, 0),
{
    let open = open_comment_chars();
    let close = close_comment_chars();
    let mut out: Vec<char> = Vec::new();
    let mut pos: usize = 0;
    loop
        invariant
            pos <= s.len(),
            open@ == open_comment(),
            close@ == close_comment(),
            out@ + uncomment_from(s@, pos as int) == uncomment_from(s@, 0),
        decreases s.len() - pos,
    {
        match find_at(s, &open, pos) {
            None => {
                let rest = slice(s, pos, s.len());
                append(&mut out, &rest);
                return out;
            },
            Some(a) => {
                proof {
                    lemma_find_from_bounds(s@, open@, pos as int);
                }
                match find_at(s, &close, a) {
                    None => {
                        let rest = slice(s, pos, s.len());
                        append(&mut out, &rest);
                        return out;
                    },
                    Some(b) => {
                        proof {
                            lemma_find_from_bounds(s@, close@, a as int);
                        }
                        let before = slice(s, pos, a);
                        append(&mut out, &before);
                        proof {
                            assert(out@ + uncomment_from(s@, b + 2) =~= uncomment_from(s@, 0));
                        }
                        pos = b + 2;
                    },
                }
            },
        }
    }
}

// ------------------------------------------------------------- statements

/// The first statement tag `{% ... %}` at or after `pos`: where its `{%` and its `%}` start.
pub open spec fn next_tag(s: Seq<char>, pos: int) -> Option<(int, int)> {
    match find_from(s, open_stmt(), pos) {
        Some(ts) => match find_from(s, close_stmt(), ts + 2) {
            Some(te) => if pos <= ts && ts + 2 <= te && te + 2 <= s.len() {
                Some((ts, te))
            } else {
                None
            },
            None => None,
        },
        None => None,
    }
}

/// The words inside a tag.
pub open spec fn tag_text(s: Seq<char>, ts: int, te: int) -> Seq<char> {
    trim(s.subrange(ts + 2, te))
}

/// The tag that closes a block opened before `pos`, with `depth` blocks open:
/// where it starts and where it ends. Tags whose words start with `open` open
/// a nested block; a tag whose words are `close` closes one.
pub open spec fn closing_tag(
    s: Seq<char>,
    pos: int,
    depth: int,
    open: Seq<char>,
    close: Seq<char>,
) -> Option<(int, int)>
    decreases s.len() - pos,
{
    if pos < 0 || pos >= s.len() {
        None
    } else {
        match next_tag(s, pos) {
            None => None,
            Some((ts, te)) => {
                let c = tag_text(s, ts, te);
                if starts_with(c, open) {
                    closing_tag(s, te + 2, depth + 1, open, close)
                } else if c == close {
                    if depth == 1 {
                        Some((ts, te + 2))
                    } else {
                        closing_tag(s, te + 2, depth - 1, open, close)
                    }
                } else {
                    closing_tag(s, te + 2, depth, open, close)
                }
            },
        }
    }
}

/// The `{% else %}` tag of an `if` block's body, outside nested `if` blocks.
pub open spec fn else_tag(s: Seq<char>, pos: int, depth: int) -> Option<(int, int)>
    decreases s.len() - pos,
{
    if pos < 0 || pos >= s.len() {
        None
    } else {
        match next_tag(s, pos) {
            None => None,
            Some((ts, te)) => {
                let c = tag_text(s, ts, te);
                if starts_with(c, kw_if()) {
                    else_tag(s, te + 2, depth + 1)
                } else if c == kw_endif() {
                    else_tag(s, te + 2, depth - 1)
                } else if c == kw_else() && depth == 0 {
                    Some((ts, te + 2))
                } else {
                    else_tag(s, te + 2, depth)
                }
            },
        }
    }
}

/// The two branches of an `if` block's body; the second is empty without `else`.
pub open spec fn branches(block: Seq<char>) -> (Seq<char>, Seq<char>) {
    match else_tag(block, 0, 0) {
        Some((a, b)) => (block.subrange(0, a), block.subrange(b, block.len() as int)),
        None => (block, Seq::empty()),
    }
}

/// Every `{% if %}` block from `pos` on replaced by its chosen branch, itself
/// processed; other statement tags are kept as they are. An `if` without its
/// `endif` leaves the rest of the text as it is.
pub open spec fn cond_from(s: Seq<char>, pos: int, vars: Map<Seq<char>, Seq<char>>) -> Seq<char>
    decreases s.len(), s.len() - pos,
{
    if pos < 0 || pos > s.len() {
        Seq::empty()
    } else {
        match next_tag(s, pos) {
            None => s.subrange(pos, s.len() as int),
            Some((ts, te)) => {
                let c = tag_text(s, ts, te);
                if starts_with(c, kw_if()) {
                    match closing_tag(s, te + 2, 1, kw_if(), kw_endif()) {
                        None => s.subrange(pos, s.len() as int),
                        Some((es, ee)) => if te + 2 <= es && es < ee && ee <= s.len() {
                            let (yes, no) = branches(s.subrange(te + 2, es));
                            let chosen = if condition_holds(c.subrange(3, c.len() as int), vars) {
                                yes
                            } else {
                                no
                            };
                            let out = if chosen.len() < s.len() {
                                cond_from(chosen, 0, vars)
                            } else {
                                chosen
                            };
                            s.subrange(pos, ts) + out + cond_from(s, ee, vars)
                        } else {
                            s.subrange(pos, s.len() as int)
                        },
                    }
                } else {
                    s.subrange(pos, te + 2) + cond_from(s, te + 2, vars)
                }
            },
        }
    }
}

/// The first statement tag at or after `pos`.
fn find_tag(s: &Vec<char>, pos: usize) -> (r: Option<(usize, usize)>)
    ensures
        match r {
            Some((ts, te)) => next_tag(s@, pos as int) == Some((ts as int, te as int)),
            None => next_tag(s@, pos as int) is None,
        },
{
    let open = open_stmt_chars();
    let close = close_stmt_chars();
    match find_at(s, &open, pos) {
        None => None,
        Some(ts) => {
            proof {
                lemma_find_from_bounds(s@, open@, pos as int);
                assert(open@.len() == 2);
                assert(find_from(s@, open@, pos as int) == Some(ts as int));
                assert(ts + 2 <= s.len());
            }
            match find_at(s, &close, ts + 2) {
                None => None,
                Some(te) => {
                    proof {
                        lemma_find_from_bounds(s@, close@, ts + 2);
                    }
                    Some((ts, te))
                },
            }
        },
    }
}

/// The tag that closes the block opened just before `pos`.
fn find_closing(s: &Vec<char>, pos: usize, open: &Vec<char>, close: &Vec<char>) -> (r: Option<
    (usize, usize),
>)
    requires
        4 <= pos,
    ensures
        match r {
            Some((a, b)) => closing_tag(s@, pos as int, 1, open@, close@) == Some((a as int, b as int))
                && pos <= a && a + 4 <= b && b <= s.len(),
            None => closing_tag(s@, pos as int, 1, open@, close@) is None,
        },
{
    let mut p: usize = pos;
    let mut depth: u64 = 1;
    while p < s.len()
        invariant
            pos <= p,
            1 <= depth,
            depth * 4 <= p,
            closing_tag(s@, p as int, depth as int, open@, close@) == closing_tag(
                s@,
                pos as int,
                1,
                open@,
                close@,
            ),
        decreases s.len() - p,
    {
        match find_tag(s, p) {
            None => return None,
            Some((ts, te)) => {
                let c = trimmed(&slice(s, ts + 2, te));
                if has_prefix(&c, open) {
                    depth = depth + 1;
                } else if chars_eq(&c, close) {
                    if depth == 1 {
                        return Some((ts, te + 2));
                    }
                    depth = depth - 1;
                }
                p = te + 2;
            },
        }
    }
    None
}

/// The `{% else %}` tag of an `if` block's body.
fn find_else(s: &Vec<char>) -> (r: Option<(usize, usize)>)
    ensures
        match r {
            Some((a, b)) => else_tag(s@, 0, 0) == Some((a as int, b as int)) && a + 4 <= b
                && b <= s.len(),
            None => else_tag(s@, 0, 0) is None,
        },
{
    let mut p: usize = 0;
    let mut depth: i64 = 0;
    let kif = kw_if_chars();
    let kendif = kw_endif_chars();
    let kelse = kw_else_chars();
    while p < s.len()
        invariant
            depth * 4 <= p,
            -depth * 4 <= p,
            kif@ == kw_if(),
            kendif@ == kw_endif(),
            kelse@ == kw_else(),
            else_tag(s@, p as int, depth as int) == else_tag(s@, 0, 0),
        decreases s.len() - p,
    {
        match find_tag(s, p) {
            None => return None,
            Some((ts, te)) => {
                let c = trimmed(&slice(s, ts + 2, te));
                if has_prefix(&c, &kif) {
                    depth = depth + 1;
                } else if chars_eq(&c, &kendif) {
                    depth = depth - 1;
                } else if chars_eq(&c, &kelse) && depth == 0 {
                    return Some((ts, te + 2));
                }
                p = te + 2;
            },
        }
    }
    None
}

/// One step of `if` processing at `pos`: the text it emits, and where the
/// scan goes on (`None` where it ends).
fn cond_step(s: &Vec<char>, pos: usize, vars: &StrMap) -> (r: (Vec<char>, Option<usize>))
    requires
        pos <= s.len(),
    ensures
        match r.1 {
            Some(p) => pos < p <= s.len() && r.0@ + cond_from(s@, p as int, vars@) == cond_from(
                s@,
                pos as int,
                vars@,
            ),
            None => r.0@ == cond_from(s@, pos as int, vars@),
        },
    decreases s.len(), 0int,
{
    let kif = kw_if_chars();
    let kendif = kw_endif_chars();
    let rest = slice(s, pos, s.len());
    let (ts, te) = match find_tag(s, pos) {
        None => return (rest, None),
        Some(t) => t,
    };
    let c = trimmed(&slice(s, ts + 2, te));
    if !has_prefix(&c, &kif) {
        return (slice(s, pos, te + 2), Some(te + 2));
    }
    let (es, ee) = match find_closing(s, te + 2, &kif, &kendif) {
        None => return (rest, None),
        Some(p) => p,
    };
    let block = slice(s, te + 2, es);
    let (yes, no) = match find_else(&block) {
        Some((a, b)) => (slice(&block, 0, a), slice(&block, b, block.len())),
        None => (block.clone(), Vec::new()),
    };
    let cond = slice(&c, 3, c.len());
    let chosen = if eval_condition(&cond, vars) {
        yes
    } else {
        no
    };
    let inner = process_conditionals(&chosen, vars);
    let mut out = slice(s, pos, ts);
    append(&mut out, &inner);
    (out, Some(ee))
}

/// Evaluates every `{% if %}` block.
pub fn process_conditionals(s: &Vec<char>, vars: &StrMap) -> (r: Vec<char>)
    ensures
        r@ == cond_from(s@, 0, vars@),
    decreases s.len(), 1int,
{
    let mut out: Vec<char> = Vec::new();
    let mut pos: usize = 0;
    loop
        invariant
            pos <= s.len(),
            out@ + cond_from(s@, pos as int, vars@) == cond_from(s@, 0, vars@),
        decreases s.len() - pos,
    {
        let (piece, next) = cond_step(s, pos, vars);
        append(&mut out, &piece);
        match next {
            None => return out,
            Some(p) => {
                proof {
                    assert(out@ + cond_from(s@, p as int, vars@) =~= cond_from(s@, 0, vars@));
                }
                pos = p;
            },
        }
    }
}

// ------------------------------------------------------------------ loops

/// The items a loop walks: the named variable's value cut at `,`, each item
/// trimmed; none where the variable is unbound.
pub open spec fn list_items(name: Seq<char>, vars: Map<Seq<char>, Seq<char>>) -> Seq<Seq<char>> {
    if vars.contains_key(name) {
        split_char(vars[name], ',').map_values(|p: Seq<char>| trim(p))
    } else {
        Seq::empty()
    }
}

/// Every `{% for X in LIST %} ... {% endfor %}` from `pos` on replaced by its
/// body rendered once per item. A malformed loop tag, or one without its
/// `endfor`, leaves the rest of the text as it is.
pub open spec fn loops_from(s: Seq<char>, pos: int, vars: Map<Seq<char>, Seq<char>>) -> Seq<char>
    decreases s.len(), 0int, s.len() - pos,
{
    if pos < 0 || pos > s.len() {
        Seq::empty()
    } else {
        match find_from(s, open_for(), pos) {
            None => s.subrange(pos, s.len() as int),
            Some(fs) => match find_from(s, close_stmt(), fs + 7) {
                None => s.subrange(pos, s.len() as int),
                Some(te) => if pos <= fs && fs + 7 <= te && te + 2 <= s.len() {
                    match split_once(trim(s.subrange(fs + 7, te)), kw_in()) {
                        None => s.subrange(pos, s.len() as int),
                        Some((v, e)) => match closing_tag(s, te + 2, 1, kw_for(), kw_endfor()) {
                            None => s.subrange(pos, s.len() as int),
                            Some((es, ee)) => if te + 2 <= es && es < ee && ee <= s.len() {
                                s.subrange(pos, fs) + expand(
                                    s.subrange(te + 2, es),
                                    trim(v),
                                    list_items(trim(e), vars),
                                    vars,
                                ) + loops_from(s, ee, vars)
                            } else {
                                s.subrange(pos, s.len() as int)
                            },
                        },
                    }
                } else {
                    s.subrange(pos, s.len() as int)
                },
            },
        }
    }
}

/// A loop body rendered once per item, with `var` bound to the item: nested
/// loops first, then expressions.
pub open spec fn expand(
    body: Seq<char>,
    var: Seq<char>,
    items: Seq<Seq<char>>,
    vars: Map<Seq<char>, Seq<char>>,
) -> Seq<char>
    decreases body.len(), 1int, items.len(),
{
    if items.len() == 0 {
        Seq::empty()
    } else {
        let scope = vars.insert(var, items.last());
        expand(body, var, items.drop_last(), vars) + substitute(loops_from(body, 0, scope), scope)
    }
}

fn loop_items(name: &Vec<char>, vars: &StrMap) -> (r: Vec<Vec<char>>)
    ensures
        r@.map_values(|p: Vec<char>| p@) == list_items(name@, vars@),
{
    match vars.get_chars(name) {
        None => {
            let r: Vec<Vec<char>> = Vec::new();
            assert(r@.map_values(|p: Vec<char>| p@) =~= list_items(name@, vars@));
            r
        },
        Some(v) => {
            let parts = split_on(&v, ',');
            let mut items: Vec<Vec<char>> = Vec::new();
            let mut i: usize = 0;
            while i < parts.len()
                invariant
                    i <= parts@.len(),
                    parts@.len() == split_char(v@, ',').len(),
                    forall|k: int|
                        0 <= k < parts@.len() ==> #[trigger] parts@[k]@ == split_char(v@, ',')[k],
                    items@.len() == i,
                    forall|k: int|
                        0 <= k < i ==> #[trigger] items@[k]@ == trim(split_char(v@, ',')[k]),
                decreases parts.len() - i,
            {
                items.push(trimmed(&parts[i]));
                i = i + 1;
            }
            assert(items@.map_values(|p: Vec<char>| p@) =~= list_items(name@, vars@));
            items
        },
    }
}

/// Renders a loop body once per item.
fn expand_body(body: &Vec<char>, var: &Vec<char>, items: &Vec<Vec<char>>, vars: &StrMap) -> (r: Vec<
    char,
>)
    ensures
        r@ == expand(body@, var@, items@.map_values(|p: Vec<char>| p@), vars@),
    decreases body.len(), 1int, 0int,
{
    let ghost all = items@.map_values(|p: Vec<char>| p@);
    let mut out: Vec<char> = Vec::new();
    let mut i: usize = 0;
    assert(all.take(0) =~= Seq::<Seq<char>>::empty());
    while i < items.len()
        invariant
            i <= items@.len(),
            all == items@.map_values(|p: Vec<char>| p@),
            out@ == expand(body@, var@, all.take(i as int), vars@),
        decreases items.len() - i,
    {
        let mut scope = vars.duplicate();
        scope.put_chars(var, &items[i]);
        let looped = process_loops(body, &scope);
        let piece = process_variables(&looped, &scope);
        append(&mut out, &piece);
        proof {
            let t = all.take(i + 1);
            assert(t.drop_last() =~= all.take(i as int));
            assert(t.last() == items@[i as int]@);
        }
        i = i + 1;
    }
    assert(all.take(items@.len() as int) =~= all);
    out
}

/// One step of loop expansion at `pos`: the text it emits, and where the
/// scan goes on (`None` where it ends).
fn loop_step(s: &Vec<char>, pos: usize, vars: &StrMap) -> (r: (Vec<char>, Option<usize>))
    requires
        pos <= s.len(),
    ensures
        match r.1 {
            Some(p) => pos < p <= s.len() && r.0@ + loops_from(s@, p as int, vars@) == loops_from(
                s@,
                pos as int,
                vars@,
            ),
            None => r.0@ == loops_from(s@, pos as int, vars@),
        },
    decreases s.len(), 0int, 0int,
{
    let open = open_for_chars();
    let close = close_stmt_chars();
    let kfor = kw_for_chars();
    let kendfor = kw_endfor_chars();
    let kin = kw_in_chars();
    let rest = slice(s, pos, s.len());
    let fs = match find_at(s, &open, pos) {
        None => return (rest, None),
        Some(fs) => fs,
    };
    proof {
        lemma_find_from_bounds(s@, open@, pos as int);
        assert(open@.len() == 7);
    }
    let te = match find_at(s, &close, fs + 7) {
        None => return (rest, None),
        Some(te) => te,
    };
    proof {
        lemma_find_from_bounds(s@, close@, fs + 7);
        assert(close@.len() == 2);
    }
    let content = trimmed(&slice(s, fs + 7, te));
    let (v, e) = match split_first(&content, &kin) {
        None => return (rest, None),
        Some(p) => p,
    };
    let (es, ee) = match find_closing(s, te + 2, &kfor, &kendfor) {
        None => return (rest, None),
        Some(p) => p,
    };
    let body = slice(s, te + 2, es);
    let var = trimmed(&v);
    let items = loop_items(&trimmed(&e), vars);
    let expanded = expand_body(&body, &var, &items, vars);
    let mut out = slice(s, pos, fs);
    append(&mut out, &expanded);
    (out, Some(ee))
}

/// Expands every `{% for %}` loop.
pub fn process_loops(s: &Vec<char>, vars: &StrMap) -> (r: Vec<char>)
    ensures
        r@ == loops_from(s@, 0, vars@),
    decreases s.len(), 0int, 1int,
{
    let mut out: Vec<char> = Vec::new();
    let mut pos: usize = 0;
    loop
        invariant
            pos <= s.len(),
            out@ + loops_from(s@, pos as int, vars@) == loops_from(s@, 0, vars@),
        decreases s.len() - pos,
    {
        let (piece, next) = loop_step(s, pos, vars);
        append(&mut out, &piece);
        match next {
            None => return out,
            Some(p) => {
                proof {
                    assert(out@ + loops_from(s@, p as int, vars@) =~= loops_from(s@, 0, vars@));
                }
                pos = p;
            },
        }
    }
}

// ----------------------------------------------------------------- render

/// The rendered text: comments removed, then `if` blocks, then `for` loops,
/// then expressions.
pub open spec fn rendered(t: Seq<char>, vars: Map<Seq<char>, Seq<char>>) -> Seq<char> {
    substitute(loops_from(cond_from(uncomment_from(t, 0), 0, vars), 0, vars), vars)
}

/// Renders a template against a scope.
pub fn render(template: &str, vars: &StrMap) -> (r: String)
    ensures
        r@ == rendered(template@, vars@),
{
    let t = chars_of(template);
    let a = process_comments(&t);
    let b = process_conditionals(&a, vars);
    let c = process_loops(&b, vars);
    let d = process_variables(&c, vars);
    string_of(&d)
}


// ------------------------------------------------------------------- laws

/// Where `pat` does not occur from `i` on, no position from `i` on holds it.
pub proof fn lemma_find_none(s: Seq<char>, pat: Seq<char>, i: int, k: int)
    requires
        0 <= i <= k,
        find_from(s, pat, i) is None,
    ensures
        !occurs_at(s, pat, k),
    decreases k - i,
{
    if i + pat.len() > s.len() {
    } else if k > i {
        lemma_find_none(s, pat, i + 1, k);
    }
}

/// A text with none of `{#`, `{%`, `{{` renders as itself.
pub proof fn lemma_plain_text_renders_as_itself(t: Seq<char>, vars: Map<Seq<char>, Seq<char>>)
    requires
        !contains(t, open_comment()),
        !contains(t, open_stmt()),
        !contains(t, open_expr()),
    ensures
        rendered(t, vars) == t,
{
    assert(t.subrange(0, t.len() as int) =~= t);
    assert(uncomment_from(t, 0) == t);
    assert(cond_from(t, 0, vars) == t);
    assert(find_from(t, open_for(), 0) is None) by {
        lemma_find_from_bounds(t, open_for(), 0);
        if let Some(k) = find_from(t, open_for(), 0) {
            lemma_find_none(t, open_stmt(), 0, k);
            assert(t.subrange(k, k + 2) =~= t.subrange(k, k + 7).subrange(0, 2));
            assert(open_for().subrange(0, 2) =~= open_stmt());
        }
    }
    assert(loops_from(t, 0, vars) == t);
    assert(substitute(t, vars) == t);
}

/// Rendering is idempotent wherever the first rendering leaves no template
/// delimiter (`{#`, `{%`, `{{`) in its output: rendering that output again
/// changes nothing.
pub proof fn law_render_idempotent(t: Seq<char>, vars: Map<Seq<char>, Seq<char>>)
    requires
        !contains(rendered(t, vars), open_comment()),
        !contains(rendered(t, vars), open_stmt()),
        !contains(rendered(t, vars), open_expr()),
    ensures
        rendered(rendered(t, vars), vars) == rendered(t, vars),
{
    lemma_plain_text_renders_as_itself(rendered(t, vars), vars);
}

} // verus!
