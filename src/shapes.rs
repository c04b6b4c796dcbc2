//! The line shapes that the classifier recognises, and the compiled patterns
//! that test them.
use vstd::prelude::*;

verus! {

#[verifier::external_type_specification]
#[verifier::external_body]
pub struct ExRegex(regex::Regex);

pub open spec fn is_ascii_alnum(c: char) -> bool {
    ('a' <= c && c <= 'z') || ('A' <= c && c <= 'Z') || ('0' <= c && c <= '9')
}

/// A character of `[a-zA-Z?_\-0-9]`.
pub open spec fn is_name_char(c: char) -> bool {
    is_ascii_alnum(c) || c == '?' || c == '_' || c == '-'
}

/// A character of `[a-zA-Z?_\-0-9\{\}\s;:]`.
pub open spec fn is_class_tail_char(c: char) -> bool {
    is_name_char(c) || c == '{' || c == '}' || crate::text::is_white_space(c) || c == ';' || c
        == ':'
}

pub open spec fn all_white(t: Seq<char>, lo: int, hi: int) -> bool {
    forall|i: int| lo <= i < hi ==> crate::text::is_white_space(#[trigger] t[i])
}

pub open spec fn all_alnum(t: Seq<char>, lo: int, hi: int) -> bool {
    forall|i: int| lo <= i < hi ==> is_ascii_alnum(#[trigger] t[i])
}

pub open spec fn all_name(t: Seq<char>, lo: int, hi: int) -> bool {
    forall|i: int| lo <= i < hi ==> is_name_char(#[trigger] t[i])
}

pub open spec fn all_class_tail(t: Seq<char>, lo: int, hi: int) -> bool {
    forall|i: int| lo <= i < hi ==> is_class_tail_char(#[trigger] t[i])
}

pub open spec fn no_char(t: Seq<char>, lo: int, hi: int, c: char) -> bool {
    forall|i: int| lo <= i < hi ==> #[trigger] t[i] != c
}

/// `^[@].+$`: an `@` followed by at least one character, none a newline.
pub open spec fn is_decorator_shape(t: Seq<char>) -> bool {
    t.len() >= 2 && t[0] == '@' && no_char(t, 1, t.len() as int, '\n')
}

/// `@` then the name `t[1..k]`, then `(` at `k`, then no `)`.
pub open spec fn open_call_parts(t: Seq<char>, k: int) -> bool {
    2 <= k < t.len() && t[0] == '@' && all_alnum(t, 1, k) && t[k] == '(' && no_char(
        t,
        k + 1,
        t.len() as int,
        ')',
    )
}

/// `^[@][a-zA-Z0-9]+\([^\)]*$`: `@name(` with no closing parenthesis after it.
pub open spec fn is_open_call_shape(t: Seq<char>) -> bool {
    exists|k: int| #[trigger] open_call_parts(t, k)
}

/// `^.*\)$`: a line that ends with a closing parenthesis.
pub open spec fn is_call_end_shape(t: Seq<char>) -> bool {
    t.len() >= 1 && t.last() == ')' && no_char(t, 0, t.len() as int, '\n')
}

/// `t` starts with one of the words that `m` characters can spell of
/// `(public|private|readonly)?`.
pub open spec fn is_field_modifier(t: Seq<char>, m: int) -> bool {
    m == 0 || (m <= t.len() && (t.take(m) == seq!['p', 'u', 'b', 'l', 'i', 'c'] || t.take(m)
        == seq!['p', 'r', 'i', 'v', 'a', 't', 'e'] || t.take(m) == seq![
        'r',
        'e',
        'a',
        'd',
        'o',
        'n',
        'l',
        'y',
    ]))
}

/// The modifier `t[..m]`, whitespace `t[m..a]`, the name `t[a..b]`, whitespace
/// `t[b..c]`, `:` at `c`, whitespace `t[c + 1..d]`, the type `t[d..]` up to the
/// final `;`.
pub open spec fn field_parts(t: Seq<char>, m: int, a: int, b: int, c: int, d: int) -> bool {
    0 <= m <= a < b <= c < d && d < t.len() - 1 && is_field_modifier(t, m) && all_white(t, m, a)
        && all_name(t, a, b) && all_white(t, b, c) && t[c] == ':' && all_white(t, c + 1, d)
        && no_char(t, d, t.len() - 1, '\n') && t.last() == ';'
}

/// `^(public|private|readonly)?[\s]*[a-zA-Z?_\-0-9]+[\s]*:[\s]*.+;$`: a typed field.
pub open spec fn is_field_shape(t: Seq<char>) -> bool {
    exists|m: int, a: int, b: int, c: int, d: int| #[trigger] field_parts(t, m, a, b, c, d)
}

/// `export` as `t[..m]` or nothing, whitespace `t[m..a]`, `class` at `a`,
/// whitespace `t[a + 5..b]`, then the name and what follows it.
pub open spec fn class_parts(t: Seq<char>, m: int, a: int, b: int) -> bool {
    (m == 0 || (m == 6 && t.len() >= 6 && t.take(6) == seq!['e', 'x', 'p', 'o', 'r', 't'])) && m
        <= a && a + 5 < b < t.len() && all_white(t, m, a) && t.subrange(a, a + 5) == seq![
        'c',
        'l',
        'a',
        's',
        's',
    ] && all_white(t, a + 5, b) && all_class_tail(t, b, t.len() as int)
}

/// `^(export)?[\s]*(class)[\s]+[a-zA-Z?_\-0-9\{\}\s;:]+$`: a class header.
pub open spec fn is_class_shape(t: Seq<char>) -> bool {
    exists|m: int, a: int, b: int| #[trigger] class_parts(t, m, a, b)
}

/// A declaration that a comment block can be written for.
pub open spec fn is_declaration_shape(t: Seq<char>) -> bool {
    is_field_shape(t) || is_class_shape(t)
}

/// The compiled patterns of the line shapes, built once and shared by reference.
pub struct Patterns {
    decorator: regex::Regex,
    open_call: regex::Regex,
    call_end: regex::Regex,
    field: regex::Regex,
    class: regex::Regex,
}

impl Patterns {
    /// Relies on regex::Regex::new: each pattern is valid, so compiling it succeeds.
    #[verifier::external_body]
    pub fn new() -> (r: Patterns) {
        Patterns {
            decorator: regex::Regex::new(r"^[@].+$").unwrap(),
            open_call: regex::Regex::new(r"^[@][a-zA-Z0-9]+\([^\)]*$").unwrap(),
            call_end: regex::Regex::new(r"^.*\)$").unwrap(),
            field: regex::Regex::new(r"^(public|private|readonly)?[\s]*[a-zA-Z?_\-0-9]+[\s]*:[\s]*.+;$").unwrap(),
            class: regex::Regex::new(r"^(export)?[\s]*(class)[\s]+[a-zA-Z?_\-0-9\{\}\s;:]+$").unwrap(),
        }
    }

    /// Relies on regex::Regex::is_match with the pattern `^[@].+$`.
    #[verifier::external_body]
    pub(crate) fn is_decorator(&self, t: &str) -> (r: bool)
        ensures
            r == is_decorator_shape(t@),
    {
        self.decorator.is_match(t)
    }

    /// Relies on regex::Regex::is_match with the pattern `^[@][a-zA-Z0-9]+\([^\)]*$`.
    #[verifier::external_body]
    pub(crate) fn is_open_call(&self, t: &str) -> (r: bool)
        ensures
            r == is_open_call_shape(t@),
    {
        self.open_call.is_match(t)
    }

    /// Relies on regex::Regex::is_match with the pattern `^.*\)$`.
    #[verifier::external_body]
    pub(crate) fn is_call_end(&self, t: &str) -> (r: bool)
        ensures
            r == is_call_end_shape(t@),
    {
        self.call_end.is_match(t)
    }

    /// Relies on regex::Regex::is_match with the field pattern.
    #[verifier::external_body]
    pub(crate) fn is_field(&self, t: &str) -> (r: bool)
        ensures
            r == is_field_shape(t@),
    {
        self.field.is_match(t)
    }

    /// Relies on regex::Regex::is_match with the class pattern.
    #[verifier::external_body]
    pub(crate) fn is_class(&self, t: &str) -> (r: bool)
        ensures
            r == is_class_shape(t@),
    {
        self.class.is_match(t)
    }
}

} // verus!
