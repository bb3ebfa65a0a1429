//! Calls into std and into outside crates whose results the library names but
//! does not restate. Each function here is trusted: Verus believes its contract.
use vstd::prelude::*;

verus! {

#[verifier::external_type_specification]
#[verifier::external_body]
pub struct ExJsonError(serde_json::Error);

#[verifier::external_type_specification]
#[verifier::external_body]
pub struct ExYamlError(serde_yaml::Error);

/// What `str::to_lowercase` returns for a string.
pub uninterp spec fn lower_of(s: Seq<char>) -> Seq<char>;

/// What `str::to_uppercase` returns for a string.
pub uninterp spec fn upper_of(s: Seq<char>) -> Seq<char>;

/// What `char::to_uppercase` yields for a character.
pub uninterp spec fn upper_char_of(c: char) -> Seq<char>;

/// What `Path::file_name` gives for a path, where it is valid text.
pub uninterp spec fn file_name_of(s: Seq<char>) -> Option<Seq<char>>;

/// What `Path::parent` gives for a path, where it is valid text.
pub uninterp spec fn parent_of(s: Seq<char>) -> Option<Seq<char>>;

/// A lower-case hexadecimal digit.
pub open spec fn hex_digit(n: nat) -> char {
    if n < 10 {
        crate::text::digit_char(n)
    } else if n == 10 { 'a' } else if n == 11 { 'b' } else if n == 12 { 'c' }
    else if n == 13 { 'd' } else if n == 14 { 'e' } else { 'f' }
}

/// One character inside a JSON string literal: `"` and `\` and the control
/// characters escaped (`\b \t \n \f \r`, else `\u00XX`), others as they are.
pub open spec fn json_char(c: char) -> Seq<char> {
    if c == '"' {
        seq!['\\', '"']
    } else if c == '\\' {
        seq!['\\', '\\']
    } else if c == '\u{8}' {
        seq!['\\', 'b']
    } else if c == '\t' {
        seq!['\\', 't']
    } else if c == '\n' {
        seq!['\\', 'n']
    } else if c == '\u{c}' {
        seq!['\\', 'f']
    } else if c == '\r' {
        seq!['\\', 'r']
    } else if (c as u32) < 0x20 {
        seq!['\\', 'u', '0', '0', hex_digit((c as u32 / 16) as nat), hex_digit((c as u32 % 16) as nat)]
    } else {
        seq![c]
    }
}

pub open spec fn json_chars(s: Seq<char>) -> Seq<char>
    decreases s.len(),
{
    if s.len() == 0 {
        Seq::empty()
    } else {
        json_chars(s.drop_last()) + json_char(s.last())
    }
}

/// The JSON string literal of a text.
pub open spec fn json_literal(s: Seq<char>) -> Seq<char> {
    seq!['"'] + json_chars(s) + seq!['"']
}

/// What `serde_yaml::to_string` gives for a string, where it succeeds.
pub uninterp spec fn yaml_of(s: Seq<char>) -> Option<Seq<char>>;

/// What `regex::Regex::new(p)` followed by `replace_all(text, rep)` gives;
/// `None` where the pattern does not compile.
pub uninterp spec fn regex_replaced(p: Seq<char>, text: Seq<char>, rep: Seq<char>) -> Option<
    Seq<char>,
>;

/// Whether `regex::Regex::new(p)` accepts the pattern.
pub uninterp spec fn regex_valid(p: Seq<char>) -> bool;

/// What `regex::Regex::new(p)` followed by `is_match(text)` gives;
/// `None` where the pattern does not compile.
pub uninterp spec fn regex_matched(p: Seq<char>, text: Seq<char>) -> Option<bool>;

/// Relies on `str::to_lowercase`: the result depends on the characters alone.
#[verifier::external_body]
pub fn lowercase(s: &Vec<char>) -> (r: Vec<char>)
    ensures
        r@ == lower_of(s@),
{
    let t: String = s.iter().collect();
    t.to_lowercase().chars().collect()
}

/// Relies on `str::to_uppercase`: the result depends on the characters alone.
#[verifier::external_body]
pub fn uppercase(s: &Vec<char>) -> (r: Vec<char>)
    ensures
        r@ == upper_of(s@),
{
    let t: String = s.iter().collect();
    t.to_uppercase().chars().collect()
}

/// Relies on `char::to_uppercase`: the result depends on the character alone.
#[verifier::external_body]
pub fn uppercase_char(c: char) -> (r: Vec<char>)
    ensures
        r@ == upper_char_of(c),
{
    c.to_uppercase().collect()
}

/// Relies on `std::path::Path::file_name`, read back as text.
#[verifier::external_body]
pub fn path_file_name(s: &Vec<char>) -> (r: Option<Vec<char>>)
    ensures
        r matches Some(v) ==> file_name_of(s@) == Some(v@),
        r is None ==> file_name_of(s@) is None,
{
    let t: String = s.iter().collect();
    match std::path::Path::new(&t).file_name() {
        Some(n) => match n.to_str() {
            Some(x) => Some(x.chars().collect()),
            None => None,
        },
        None => None,
    }
}

/// Relies on `std::path::Path::parent`, read back as text.
#[verifier::external_body]
pub fn path_parent(s: &Vec<char>) -> (r: Option<Vec<char>>)
    ensures
        r matches Some(v) ==> parent_of(s@) == Some(v@),
        r is None ==> parent_of(s@) is None,
{
    let t: String = s.iter().collect();
    match std::path::Path::new(&t).parent() {
        Some(n) => match n.to_str() {
            Some(x) => Some(x.chars().collect()),
            None => None,
        },
        None => None,
    }
}

/// Relies on `serde_json::to_string` on a string: it never fails and gives
/// the string quoted, with `"`, `\\` and control characters escaped
/// (`format_escaped_str_contents` and its `ESCAPE` table).
#[verifier::external_body]
pub fn json_string(s: &Vec<char>) -> (r: Result<Vec<char>, serde_json::Error>)
    ensures
        r is Ok,
        r matches Ok(v) ==> v@ == json_literal(s@),
{
    let t: String = s.iter().collect();
    match serde_json::to_string(&t) {
        Ok(j) => Ok(j.chars().collect()),
        Err(e) => Err(e),
    }
}

/// Relies on `serde_yaml::to_string` on a string: a YAML scalar document.
#[verifier::external_body]
pub fn yaml_string(s: &Vec<char>) -> (r: Result<Vec<char>, serde_yaml::Error>)
    ensures
        r matches Ok(v) ==> yaml_of(s@) == Some(v@),
        r is Err ==> yaml_of(s@) is None,
{
    let t: String = s.iter().collect();
    match serde_yaml::to_string(&t) {
        Ok(y) => Ok(y.chars().collect()),
        Err(e) => Err(e),
    }
}

/// Relies on `regex::Regex::new` and `Regex::replace_all`: every match of the
/// pattern in `text` is replaced by `rep`; `None` where the pattern is invalid.
#[verifier::external_body]
pub fn regex_replace_all(p: &Vec<char>, text: &Vec<char>, rep: &Vec<char>) -> (r: Option<
    Vec<char>,
>)
    ensures
        r matches Some(v) ==> regex_replaced(p@, text@, rep@) == Some(v@),
        r is None ==> regex_replaced(p@, text@, rep@) is None,
{
    let (p, t, rp): (String, String, String) = (
        p.iter().collect(),
        text.iter().collect(),
        rep.iter().collect(),
    );
    match regex::Regex::new(&p) {
        Ok(re) => Some(re.replace_all(&t, rp.as_str()).chars().collect()),
        Err(_) => None,
    }
}

/// Relies on `regex::Regex::new` and `Regex::is_match`: whether the pattern
/// matches somewhere in `text`; `None` where the pattern is invalid.
#[verifier::external_body]
pub fn regex_is_match(p: &Vec<char>, text: &Vec<char>) -> (r: Option<bool>)
    ensures
        r == regex_matched(p@, text@),
{
    let (p, t): (String, String) = (p.iter().collect(), text.iter().collect());
    match regex::Regex::new(&p) {
        Ok(re) => Some(re.is_match(&t)),
        Err(_) => None,
    }
}

/// Relies on `regex::Regex::new`: whether the pattern compiles.
#[verifier::external_body]
pub fn regex_compiles(p: &Vec<char>) -> (r: bool)
    ensures
        r == regex_valid(p@),
{
    let p: String = p.iter().collect();
    regex::Regex::new(&p).is_ok()
}

/// Whether `n` is the value of a Unicode scalar, that is of some `char`.
pub open spec fn is_scalar_value(n: u32) -> bool {
    n < 0xD800 || (0xDFFF < n && n <= 0x10FFFF)
}

/// Relies on `char::from_u32`: the character whose value is `n`, where there is one.
#[verifier::external_body]
pub fn char_from_u32(n: u32) -> (r: Option<char>)
    ensures
        r == (if is_scalar_value(n) {
            Some(n as char)
        } else {
            None
        }),
{
    char::from_u32(n)
}

} // verus!
