//! Version lines in arbitrary files, written from a template such as
//! `version = "$VERSION"` and found again with a pattern made from it.
use crate::text::{
    chars_of, contains, find, int_text, lemma_replace_none, occurs_at, push_char, push_i32,
    push_str, replace_all, replace_all_exec, string_of,
};
use crate::news_file::{lines_view, opt_str_view};
use crate::text::{bytes_of, parse_i32, parse_i32_spec, utf8_decode};
use crate::version::{
    parse_tupled, parse_version, range_eq, status_text, version_text, Status, Version,
};
use vstd::utf8::{decode_utf8, encode_utf8, valid_utf8};
use vstd::prelude::*;

verus! {

// ---------------------------------------------------------------------------
// Template variables
// ---------------------------------------------------------------------------

pub open spec fn var_version() -> Seq<char> {
    seq!['V', 'E', 'R', 'S', 'I', 'O', 'N']
}

pub open spec fn var_major() -> Seq<char> {
    seq!['M', 'A', 'J', 'O', 'R', '_'] + var_version()
}

pub open spec fn var_minor() -> Seq<char> {
    seq!['M', 'I', 'N', 'O', 'R', '_'] + var_version()
}

pub open spec fn var_micro() -> Seq<char> {
    seq!['M', 'I', 'C', 'R', 'O', '_'] + var_version()
}

pub open spec fn var_tupled() -> Seq<char> {
    seq!['T', 'U', 'P', 'L', 'E', 'D', '_'] + var_version()
}

pub open spec fn var_status_tupled() -> Seq<char> {
    seq!['S', 'T', 'A', 'T', 'U', 'S', '_'] + var_tupled()
}

/// The variables of a template, in the order in which they are expanded.
pub open spec fn var_names() -> Seq<Seq<char>> {
    seq![var_status_tupled(), var_tupled(), var_major(), var_minor(), var_micro(), var_version()]
}

/// A variable as it stands in a template: `$` and its name.
pub open spec fn token(name: Seq<char>) -> Seq<char> {
    seq!['$'] + name
}

/// `(major, minor, micro)`, when minor and micro are present.
pub open spec fn tupled_text(v: Version) -> Option<Seq<char>> {
    match (v.minor, v.micro) {
        (Some(m), Some(u)) => Some(
            seq!['('] + int_text(v.major as int) + seq![',', ' '] + int_text(m as int) + seq![
                ',',
                ' ',
            ] + int_text(u as int) + seq![')'],
        ),
        _ => None,
    }
}

/// `(major, minor, micro, "status", 0)`, when minor and micro are present.
pub open spec fn status_tupled_text(v: Version, s: Status) -> Option<Seq<char>> {
    match (v.minor, v.micro) {
        (Some(m), Some(u)) => Some(
            seq!['('] + int_text(v.major as int) + seq![',', ' '] + int_text(m as int) + seq![
                ',',
                ' ',
            ] + int_text(u as int) + seq![',', ' ', '"'] + status_text(s) + seq![
                '"',
                ',',
                ' ',
                '0',
                ')',
            ],
        ),
        _ => None,
    }
}

pub open spec fn opt_int_text(c: Option<i32>) -> Option<Seq<char>> {
    match c {
        Some(x) => Some(int_text(x as int)),
        None => None,
    }
}

/// What a variable stands for with a given version and status; `None`
/// where the version lacks what it needs.
pub open spec fn var_value(name: Seq<char>, v: Version, s: Status) -> Option<Seq<char>> {
    if name == var_version() {
        Some(version_text(v))
    } else if name == var_major() {
        Some(int_text(v.major as int))
    } else if name == var_minor() {
        opt_int_text(v.minor)
    } else if name == var_micro() {
        opt_int_text(v.micro)
    } else if name == var_tupled() {
        tupled_text(v)
    } else if name == var_status_tupled() {
        status_tupled_text(v, s)
    } else {
        None
    }
}

/// One variable expanded: replaced where it has a value, an error where it
/// has none and stands in the text.
pub open spec fn expand_step(t: Option<Seq<char>>, name: Seq<char>, v: Version, s: Status) -> Option<
    Seq<char>,
> {
    match t {
        None => None,
        Some(t) => match var_value(name, v, s) {
            Some(x) => Some(replace_all(t, token(name), x)),
            None => if contains(t, token(name)) {
                None
            } else {
                Some(t)
            },
        },
    }
}

/// The first `n` variables expanded in turn.
pub open spec fn expand_first(text: Seq<char>, v: Version, s: Status, n: nat) -> Option<Seq<char>>
    decreases n,
{
    if n == 0 {
        Some(text)
    } else {
        expand_step(expand_first(text, v, s, (n - 1) as nat), var_names()[n - 1], v, s)
    }
}

/// `text` with every variable expanded; `None` where a variable without a
/// value stands in it.
pub open spec fn expand_vars(text: Seq<char>, v: Version, s: Status) -> Option<Seq<char>> {
    expand_first(text, v, s, 6)
}

fn var_name_exec(i: usize) -> (r: Vec<char>)
    requires
        i < 6,
    ensures
        r@ == var_names()[i as int],
{
    let mut r: Vec<char> = if i == 0 {
        vec!['S', 'T', 'A', 'T', 'U', 'S', '_', 'T', 'U', 'P', 'L', 'E', 'D', '_']
    } else if i == 1 {
        vec!['T', 'U', 'P', 'L', 'E', 'D', '_']
    } else if i == 2 {
        vec!['M', 'A', 'J', 'O', 'R', '_']
    } else if i == 3 {
        vec!['M', 'I', 'N', 'O', 'R', '_']
    } else if i == 4 {
        vec!['M', 'I', 'C', 'R', 'O', '_']
    } else {
        Vec::new()
    };
    let mut tail = vec!['V', 'E', 'R', 'S', 'I', 'O', 'N'];
    r.append(&mut tail);
    assert(r@ =~= var_names()[i as int]);
    r
}

fn push_tuple_start(out: &mut String, v: &Version, m: i32, u: i32)
    ensures
        final(out)@ == old(out)@ + seq!['('] + int_text(v.major as int) + seq![',', ' '] + int_text(
            m as int,
        ) + seq![',', ' '] + int_text(u as int),
{
    let ghost o = out@;
    push_char(out, '(');
    push_i32(out, v.major);
    push_char(out, ',');
    push_char(out, ' ');
    push_i32(out, m);
    push_char(out, ',');
    push_char(out, ' ');
    push_i32(out, u);
    assert(out@ =~= o + seq!['('] + int_text(v.major as int) + seq![',', ' '] + int_text(m as int)
        + seq![',', ' '] + int_text(u as int));
}

proof fn lemma_var_names_distinct()
    ensures
        var_status_tupled() != var_version(),
        var_status_tupled() != var_major(),
        var_status_tupled() != var_minor(),
        var_status_tupled() != var_micro(),
        var_status_tupled() != var_tupled(),
        var_tupled() != var_version(),
        var_tupled() != var_major(),
        var_tupled() != var_minor(),
        var_tupled() != var_micro(),
        var_major() != var_version(),
        var_major() != var_minor(),
        var_major() != var_micro(),
        var_minor() != var_version(),
        var_minor() != var_micro(),
        var_micro() != var_version(),
{
    assert(var_status_tupled().len() == 21);
    assert(var_tupled().len() == 14);
    assert(var_major().len() == 13);
    assert(var_minor().len() == 13);
    assert(var_micro().len() == 13);
    assert(var_version().len() == 7);
    assert(var_major()[1] != var_minor()[1]);
    assert(var_major()[1] != var_micro()[1]);
    assert(var_minor()[2] != var_micro()[2]);
}

proof fn lemma_expand_none_stays(text: Seq<char>, v: Version, s: Status, n: nat, m: nat)
    requires
        n <= m,
        expand_first(text, v, s, n) is None,
    ensures
        expand_first(text, v, s, m) is None,
    decreases m - n,
{
    if n < m {
        lemma_expand_none_stays(text, v, s, n, (m - 1) as nat);
    }
}

fn var_value_exec(i: usize, v: &Version, s: Status) -> (r: Option<Vec<char>>)
    requires
        i < 6,
    ensures
        match r {
            Some(x) => var_value(var_names()[i as int], *v, s) == Some(x@),
            None => var_value(var_names()[i as int], *v, s) is None,
        },
{
    proof {
        lemma_var_names_distinct();
    }
    let mut out = String::new();
    if i == 5 {
        let t = v.to_string();
        return Some(chars_of(t.as_str()));
    } else if i == 2 {
        push_i32(&mut out, v.major);
    } else if i == 3 {
        match v.minor {
            Some(m) => push_i32(&mut out, m),
            None => return None,
        }
    } else if i == 4 {
        match v.micro {
            Some(m) => push_i32(&mut out, m),
            None => return None,
        }
    } else {
        match (v.minor, v.micro) {
            (Some(m), Some(u)) => {
                push_tuple_start(&mut out, v, m, u);
                if i == 0 {
                    let ghost o = out@;
                    push_str(&mut out, ", \"");
                    push_str(&mut out, s.to_string().as_str());
                    push_str(&mut out, "\", 0)");
                    proof {
                        reveal_strlit(", \"");
                        reveal_strlit("\", 0)");
                        assert(out@ =~= o + seq![',', ' ', '"'] + status_text(s) + seq![
                            '"',
                            ',',
                            ' ',
                            '0',
                            ')',
                        ]);
                    }
                } else {
                    push_char(&mut out, ')');
                }
            },
            _ => return None,
        }
    }
    Some(chars_of(out.as_str()))
}

/// Expands the template variables `$VERSION`, `$MAJOR_VERSION`,
/// `$MINOR_VERSION`, `$MICRO_VERSION`, `$TUPLED_VERSION` and
/// `$STATUS_TUPLED_VERSION` in `text`. A variable that stands in the text
/// but has no value for this version is an error.
pub fn expand_version_vars(text: &str, new_version: &Version, status: Status) -> (r: Result<
    String,
    String,
>)
    ensures
        r is Ok <==> expand_vars(text@, *new_version, status) is Some,
        r matches Ok(t) ==> expand_vars(text@, *new_version, status) == Some(t@),
{
    let mut cur = chars_of(text);
    let mut i: usize = 0;
    while i < 6
        invariant
            i <= 6,
            expand_first(text@, *new_version, status, i as nat) == Some(cur@),
        decreases 6 - i,
    {
        let name = var_name_exec(i);
        let mut tok = vec!['$'];
        let mut name_copy = name.clone();
        tok.append(&mut name_copy);
        assert(tok@ =~= token(var_names()[i as int]));
        match var_value_exec(i, new_version, status) {
            Some(x) => {
                cur = replace_all_exec(&cur, &tok, &x);
            },
            None => {
                if find(&cur, &tok).is_some() {
                    proof {
                        lemma_expand_none_stays(text@, *new_version, status, (i + 1) as nat, 6);
                    }
                    let mut m = "no expansion for variable ".to_string();
                    push_str(&mut m, string_of(&tok).as_str());
                    push_str(&mut m, " used in ");
                    push_str(&mut m, text);
                    return Err(m);
                }
            },
        }
        i += 1;
    }
    Ok(string_of(&cur))
}

/// A template that is the micro number's variable alone cannot be expanded
/// for a version without a micro number.
pub proof fn lemma_absent_micro_fails(v: Version, s: Status)
    requires
        v.micro is None,
    ensures
        expand_vars(token(var_micro()), v, s) is None,
{
    let t = token(var_micro());
    assert(t.len() == 14);
    assert forall|j: int| !occurs_at(t, token(var_status_tupled()), j) by {}
    assert forall|j: int| !occurs_at(t, token(var_tupled()), j) by {}
    assert forall|j: int| !occurs_at(t, token(var_major()), j) by {
        if occurs_at(t, token(var_major()), j) {
            assert(j == 0);
            assert(t.subrange(0, 14)[2] == token(var_major())[2]);
        }
    }
    assert forall|j: int| !occurs_at(t, token(var_minor()), j) by {
        if occurs_at(t, token(var_minor()), j) {
            assert(j == 0);
            assert(t.subrange(0, 14)[3] == token(var_minor())[3]);
        }
    }
    assert(var_names()[0] == var_status_tupled());
    assert(var_names()[1] == var_tupled());
    assert(var_names()[2] == var_major());
    assert(var_names()[3] == var_minor());
    assert(var_names()[4] == var_micro());
    lemma_var_names_distinct();
    assert(!contains(t, token(var_status_tupled())));
    assert(expand_first(t, v, s, 0) == Some(t));
    assert(var_value(var_status_tupled(), v, s) is None);
    assert(expand_first(t, v, s, 1) == expand_step(Some(t), var_names()[0], v, s));
    assert(expand_first(t, v, s, 1) == Some(t));
    assert(!contains(t, token(var_tupled())));
    assert(expand_first(t, v, s, 2) == Some(t));
    lemma_replace_none(t, token(var_major()), int_text(v.major as int));
    assert(expand_first(t, v, s, 3) == Some(t));
    if v.minor is Some {
        lemma_replace_none(t, token(var_minor()), int_text(v.minor->0 as int));
    } else {
        assert(!contains(t, token(var_minor())));
    }
    assert(expand_first(t, v, s, 4) == Some(t));
    assert(occurs_at(t, token(var_micro()), 0)) by {
        assert(t.subrange(0, 14) =~= token(var_micro()));
    }
    assert(expand_first(t, v, s, 5) is None);
}

// ---------------------------------------------------------------------------
// Patterns
// ---------------------------------------------------------------------------

#[verifier::external_type_specification]
#[verifier::external_body]
pub struct ExRegex(regex::Regex);

/// The characters that `regex::escape` puts a backslash before.
pub open spec fn is_meta(c: char) -> bool {
    c == '\\' || c == '.' || c == '+' || c == '*' || c == '?' || c == '(' || c == ')' || c == '|'
        || c == '[' || c == ']' || c == '{' || c == '}' || c == '^' || c == '$' || c == '#' || c
        == '&' || c == '-' || c == '~'
}

/// `s` with a backslash before each meta character.
pub open spec fn escaped(s: Seq<char>) -> Seq<char>
    decreases s.len(),
{
    if s.len() == 0 {
        Seq::<char>::empty()
    } else if is_meta(s.last()) {
        escaped(s.drop_last()) + seq!['\\', s.last()]
    } else {
        escaped(s.drop_last()).push(s.last())
    }
}

/// Whether `regex::Regex::new` accepts the pattern.
pub uninterp spec fn regex_compiles(pattern: Seq<char>) -> bool;

/// Whether the pattern matches somewhere in the text (`Regex::is_match`).
pub uninterp spec fn regex_matches(pattern: Seq<char>, text: Seq<char>) -> bool;

/// The successive non-overlapping matches of the pattern in the text
/// (`Regex::captures_iter`), each as its named groups that took part.
pub uninterp spec fn regex_captures(pattern: Seq<char>, text: Seq<char>) -> Seq<
    Map<Seq<char>, Seq<char>>,
>;

/// Relies on `regex::escape`, which puts a backslash before each character
/// for which `regex_syntax::is_meta_character` holds.
#[verifier::external_body]
fn regex_escape(s: &str) -> (r: String)
    ensures
        r@ == escaped(s@),
{
    regex::escape(s)
}

/// Relies on `regex::Regex::new`: it accepts or refuses a pattern by the
/// pattern alone.
#[verifier::external_body]
fn regex_compile(pattern: &str) -> (r: Option<regex::Regex>)
    ensures
        r is Some <==> regex_compiles(pattern@),
{
    regex::Regex::new(pattern).ok()
}

/// A compiled pattern beside the text it was compiled from. The fields are
/// private and `new` is the only way to make one, so the regex is always
/// the one compiled from `source`.
pub struct LineMatcher {
    re: regex::Regex,
    source: String,
}

impl LineMatcher {
    /// The text of the pattern.
    pub closed spec fn pattern(&self) -> Seq<char> {
        self.source@
    }

    /// Compiles `pattern`.
    pub fn new(pattern: &str) -> (r: Option<LineMatcher>)
        ensures
            r is Some <==> regex_compiles(pattern@),
            r matches Some(m) ==> m.pattern() == pattern@,
    {
        match regex_compile(pattern) {
            Some(re) => Some(LineMatcher { re, source: pattern.to_owned() }),
            None => None,
        }
    }

    /// Relies on `regex::Regex::is_match` of the regex compiled from
    /// `self.pattern()`: whether it matches anywhere in `text`.
    #[verifier::external_body]
    pub(crate) fn is_match(&self, text: &str) -> (r: bool)
        ensures
            r == regex_matches(self.pattern(), text@),
    {
        self.re.is_match(text)
    }

    /// Relies on `regex::Regex::captures_iter` of the regex compiled from
    /// `self.pattern()` and on `Captures::name`: for each match in turn, the
    /// text of the group `group`, or `None` where it took no part.
    #[verifier::external_body]
    pub(crate) fn group_texts(&self, text: &str, group: &str) -> (r: Vec<Option<String>>)
        ensures
            r@.len() == regex_captures(self.pattern(), text@).len(),
            forall|k: int|
                0 <= k < r@.len() ==> opt_view(#[trigger] r@[k]) == lookup(
                    regex_captures(self.pattern(), text@)[k],
                    group@,
                ),
    {
        self.re.captures_iter(text).map(|c| c.name(group).map(|m| m.as_str().to_string())).collect()
    }
}

pub open spec fn opt_view(o: Option<String>) -> Option<Seq<char>> {
    match o {
        Some(s) => Some(s@),
        None => None,
    }
}

/// The text of a named group, if it took part.
pub open spec fn lookup(m: Map<Seq<char>, Seq<char>>, name: Seq<char>) -> Option<Seq<char>> {
    if m.dom().contains(name) {
        Some(m[name])
    } else {
        None
    }
}

pub open spec fn is_name_char(c: char) -> bool {
    ('A' <= c && c <= 'Z') || c == '_'
}

/// How many name characters `s` begins with.
pub open spec fn name_run(s: Seq<char>) -> nat
    decreases s.len(),
{
    if s.len() > 0 && is_name_char(s[0]) {
        1 + name_run(s.drop_first())
    } else {
        0
    }
}

/// The group name of a template variable: its name in lower case.
pub open spec fn group_name(name: Seq<char>) -> Seq<char> {
    name.map_values(|c: char| if 'A' <= c && c <= 'Z' { ((c as u32) + 32) as char } else { c })
}

pub open spec fn is_var(name: Seq<char>) -> bool {
    exists|i: int| 0 <= i < 6 && var_names()[i] == name
}

/// What stands in a pattern for an escaped `$NAME`: a named group that
/// takes anything for a template variable, the escaped text otherwise.
pub open spec fn name_replacement(name: Seq<char>) -> Seq<char> {
    if is_var(name) {
        seq!['(', '?', 'P', '<'] + group_name(name) + seq!['>', '.', '*', ')']
    } else {
        seq!['\\', '$'] + name
    }
}

/// An escaped template with each escaped `$NAME` replaced, from the left.
pub open spec fn subst_groups(s: Seq<char>) -> Seq<char>
    decreases s.len(),
{
    if s.len() == 0 {
        Seq::<char>::empty()
    } else if s.len() >= 3 && s[0] == '\\' && s[1] == '$' && is_name_char(s[2]) {
        let n = name_run(s.subrange(2, s.len() as int)) as int;
        if 2 + n <= s.len() {
            name_replacement(s.subrange(2, 2 + n)) + subst_groups(s.subrange(2 + n, s.len() as int))
        } else {
            s
        }
    } else {
        seq![s[0]] + subst_groups(s.drop_first())
    }
}

/// The pattern that finds lines written from `template`: the template's
/// text taken literally, each variable a named group.
pub open spec fn line_pattern(template: Seq<char>) -> Seq<char> {
    subst_groups(escaped(template))
}

proof fn lemma_name_run_exact(t: Seq<char>, m: int)
    requires
        0 <= m <= t.len(),
        forall|k: int| 0 <= k < m ==> is_name_char(#[trigger] t[k]),
        m == t.len() || !is_name_char(t[m]),
    ensures
        name_run(t) == m,
    decreases m,
{
    if m > 0 {
        assert forall|k: int| 0 <= k < m - 1 implies is_name_char(#[trigger] t.drop_first()[k]) by {
            assert(t.drop_first()[k] == t[k + 1]);
        }
        if m < t.len() {
            assert(t.drop_first()[m - 1] == t[m]);
        }
        lemma_name_run_exact(t.drop_first(), m - 1);
        assert(is_name_char(t[0]));
    }
}

/// The index of a template variable named by `name`, if it names one.
fn var_index(cs: &Vec<char>, lo: usize, hi: usize) -> (r: Option<usize>)
    requires
        lo <= hi <= cs@.len(),
    ensures
        r matches Some(i) ==> i < 6 && var_names()[i as int] == cs@.subrange(lo as int, hi as int),
        r is None ==> !is_var(cs@.subrange(lo as int, hi as int)),
{
    let mut i: usize = 0;
    while i < 6
        invariant
            lo <= hi <= cs@.len(),
            i <= 6,
            forall|j: int| 0 <= j < i ==> var_names()[j] != cs@.subrange(lo as int, hi as int),
        decreases 6 - i,
    {
        if range_eq(cs, lo, hi, &var_name_exec(i)) {
            return Some(i);
        }
        i += 1;
    }
    None
}

fn group_name_exec(i: usize) -> (r: Vec<char>)
    requires
        i < 6,
    ensures
        r@ == group_name(var_names()[i as int]),
{
    let mut r: Vec<char> = if i == 0 {
        vec!['s', 't', 'a', 't', 'u', 's', '_', 't', 'u', 'p', 'l', 'e', 'd', '_']
    } else if i == 1 {
        vec!['t', 'u', 'p', 'l', 'e', 'd', '_']
    } else if i == 2 {
        vec!['m', 'a', 'j', 'o', 'r', '_']
    } else if i == 3 {
        vec!['m', 'i', 'n', 'o', 'r', '_']
    } else if i == 4 {
        vec!['m', 'i', 'c', 'r', 'o', '_']
    } else {
        Vec::new()
    };
    let mut tail = vec!['v', 'e', 'r', 's', 'i', 'o', 'n'];
    r.append(&mut tail);
    assert(r@ =~= group_name(var_names()[i as int]));
    r
}

fn push_all(out: &mut Vec<char>, t: &Vec<char>)
    ensures
        final(out)@ == old(out)@ + t@,
{
    let mut k: usize = 0;
    while k < t.len()
        invariant
            k <= t@.len(),
            out@ == old(out)@ + t@.subrange(0, k as int),
        decreases t@.len() - k,
    {
        out.push(t[k]);
        assert(t@.subrange(0, k + 1) =~= t@.subrange(0, k as int).push(t@[k as int]));
        k += 1;
    }
    assert(t@.subrange(0, t@.len() as int) =~= t@);
}

/// The pattern that finds lines written from `new_line`: its text taken
/// literally, each template variable a named group in lower case.
pub fn version_line_pattern(new_line: &str) -> (r: String)
    ensures
        r@ == line_pattern(new_line@),
{
    let e = chars_of(regex_escape(new_line).as_str());
    let n = e.len();
    let mut out: Vec<char> = Vec::new();
    let mut i: usize = 0;
    assert(e@.subrange(0, n as int) =~= e@);
    while i < n
        invariant
            n == e@.len(),
            i <= n,
            out@ + subst_groups(e@.subrange(i as int, n as int)) == line_pattern(new_line@),
        decreases n - i,
    {
        let ghost rest = e@.subrange(i as int, n as int);
        if n - i >= 3 && e[i] == '\\' && e[i + 1] == '$' && (('A' <= e[i + 2] && e[i + 2] <= 'Z')
            || e[i + 2] == '_') {
            let mut j: usize = i + 2;
            while j < n && (('A' <= e[j] && e[j] <= 'Z') || e[j] == '_')
                invariant
                    n == e@.len(),
                    i + 2 <= j <= n,
                    forall|k: int| i + 2 <= k < j ==> is_name_char(#[trigger] e@[k]),
                decreases n - j,
            {
                j += 1;
            }
            proof {
                let t = rest.subrange(2, rest.len() as int);
                assert(t =~= e@.subrange(i + 2, n as int));
                assert forall|k: int| 0 <= k < j - (i + 2) implies is_name_char(#[trigger] t[k]) by {
                    assert(t[k] == e@[i + 2 + k]);
                }
                if j < n {
                    assert(t[j - (i + 2)] == e@[j as int]);
                }
                lemma_name_run_exact(t, j - (i + 2));
                assert(rest.subrange(2, j - i) =~= e@.subrange(i + 2, j as int));
                assert(rest.subrange(j - i, rest.len() as int) =~= e@.subrange(j as int, n as int));
            }
            let ghost before = out@;
            match var_index(&e, i + 2, j) {
                Some(k) => {
                    let mut g = vec!['(', '?', 'P', '<'];
                    let mut name = group_name_exec(k);
                    g.append(&mut name);
                    let mut close = vec!['>', '.', '*', ')'];
                    g.append(&mut close);
                    proof {
                        assert(is_var(e@.subrange(i + 2, j as int)));
                        assert(g@ =~= name_replacement(e@.subrange(i + 2, j as int)));
                    }
                    push_all(&mut out, &g);
                },
                None => {
                    let mut g = vec!['\\', '$'];
                    let mut k: usize = i + 2;
                    while k < j
                        invariant
                            i + 2 <= k <= j <= n,
                            n == e@.len(),
                            g@ == seq!['\\', '$'] + e@.subrange(i + 2, k as int),
                        decreases j - k,
                    {
                        g.push(e[k]);
                        assert(e@.subrange(i + 2, k + 1) =~= e@.subrange(i + 2, k as int).push(
                            e@[k as int],
                        ));
                        k += 1;
                    }
                    assert(g@ =~= name_replacement(e@.subrange(i + 2, j as int)));
                    push_all(&mut out, &g);
                },
            }
            assert(before + (name_replacement(e@.subrange(i + 2, j as int)) + subst_groups(
                e@.subrange(j as int, n as int),
            )) =~= out@ + subst_groups(e@.subrange(j as int, n as int)));
            i = j;
        } else {
            assert(rest.drop_first() =~= e@.subrange(i + 1, n as int));
            let ghost before = out@;
            out.push(e[i]);
            assert(before + (seq![e@[i as int]] + subst_groups(e@.subrange(i + 1, n as int)))
                =~= out@ + subst_groups(e@.subrange(i + 1, n as int)));
            i += 1;
        }
    }
    assert(out@ + Seq::<char>::empty() =~= out@);
    string_of(&out)
}

// ---------------------------------------------------------------------------
// Reading versions back
// ---------------------------------------------------------------------------

/// The named groups of one match, as their texts.
#[derive(Debug)]
pub struct CaptureGroups {
    pub major_version: Option<String>,
    pub minor_version: Option<String>,
    pub micro_version: Option<String>,
    pub version: Option<String>,
    pub tupled_version: Option<String>,
    pub status_tupled_version: Option<String>,
}

/// The texts of the groups `major_version`, `minor_version`,
/// `micro_version`, `version`, `tupled_version`, `status_tupled_version`.
pub type GroupTexts = (
    Option<Seq<char>>,
    Option<Seq<char>>,
    Option<Seq<char>>,
    Option<Seq<char>>,
    Option<Seq<char>>,
    Option<Seq<char>>,
);

/// Major, minor and micro numbers and status found so far.
pub type Found = (Option<i32>, Option<i32>, Option<i32>, Option<Status>);

pub open spec fn groups_of(c: CaptureGroups) -> GroupTexts {
    (
        opt_view(c.major_version),
        opt_view(c.minor_version),
        opt_view(c.micro_version),
        opt_view(c.version),
        opt_view(c.tupled_version),
        opt_view(c.status_tupled_version),
    )
}

pub open spec fn groups_of_map(m: Map<Seq<char>, Seq<char>>) -> GroupTexts {
    (
        lookup(m, group_name(var_major())),
        lookup(m, group_name(var_minor())),
        lookup(m, group_name(var_micro())),
        lookup(m, group_name(var_version())),
        lookup(m, group_name(var_tupled())),
        lookup(m, group_name(var_status_tupled())),
    )
}

/// A number group read into the major (0), minor (1) or micro (2) place.
pub open spec fn with_int(st: Option<Found>, t: Option<Seq<char>>, place: int) -> Option<Found> {
    match st {
        None => None,
        Some(s) => match t {
            None => Some(s),
            Some(x) => match parse_i32_spec(x) {
                None => None,
                Some(n) => Some(
                    if place == 0 {
                        (Some(n), s.1, s.2, s.3)
                    } else if place == 1 {
                        (s.0, Some(n), s.2, s.3)
                    } else {
                        (s.0, s.1, Some(n), s.3)
                    },
                ),
            },
        },
    }
}

/// A dotted version group read into all three places.
pub open spec fn with_version(st: Option<Found>, t: Option<Seq<char>>) -> Option<Found> {
    match st {
        None => None,
        Some(s) => match t {
            None => Some(s),
            Some(x) => match parse_version(x) {
                None => None,
                Some(v) => Some((Some(v.major), v.minor, v.micro, s.3)),
            },
        },
    }
}

/// A tupled group read into all three places, and into the status where it
/// names one.
pub open spec fn with_tupled(st: Option<Found>, t: Option<Seq<char>>) -> Option<Found> {
    match st {
        None => None,
        Some(s) => match t {
            None => Some(s),
            Some(x) => match parse_tupled(x) {
                None => None,
                Some(p) => Some(
                    (
                        Some(p.0.major),
                        p.0.minor,
                        p.0.micro,
                        if p.1 is Some {
                            p.1
                        } else {
                            s.3
                        },
                    ),
                ),
            },
        },
    }
}

/// One match read over what was found before it; `None` where a group does
/// not read.
pub open spec fn decode_step(s: Found, g: GroupTexts) -> Option<Found> {
    with_tupled(
        with_version(with_int(with_int(with_int(Some(s), g.0, 0), g.1, 1), g.2, 2), g.3),
        if g.4 is Some {
            g.4
        } else {
            g.5
        },
    )
}

/// All matches read in turn, later ones overriding earlier ones.
pub open spec fn decode_all(gs: Seq<GroupTexts>) -> Option<Found>
    decreases gs.len(),
{
    if gs.len() == 0 {
        Some((None, None, None, None))
    } else {
        match decode_all(gs.drop_last()) {
            Some(s) => decode_step(s, gs.last()),
            None => None,
        }
    }
}

/// The version and status that the matches give: nothing unless a major
/// number was found and every group read.
pub open spec fn decoded(gs: Seq<GroupTexts>) -> (Option<Version>, Option<Status>) {
    match decode_all(gs) {
        Some(s) => match s.0 {
            Some(m) => (Some(Version { major: m, minor: s.1, micro: s.2 }), s.3),
            None => (None, None),
        },
        None => (None, None),
    }
}

/// What the matches of `pattern` in `text` give.
pub open spec fn decode_line(pattern: Seq<char>, text: Seq<char>) -> (Option<Version>, Option<Status>) {
    decoded(regex_captures(pattern, text).map_values(|m: Map<Seq<char>, Seq<char>>| groups_of_map(m)))
}

proof fn lemma_decode_none_stays(gs: Seq<GroupTexts>, k: int, m: int)
    requires
        0 <= k <= m <= gs.len(),
        decode_all(gs.subrange(0, k)) is None,
    ensures
        decode_all(gs.subrange(0, m)) is None,
    decreases m - k,
{
    if k < m {
        lemma_decode_none_stays(gs, k, m - 1);
        assert(gs.subrange(0, m).drop_last() =~= gs.subrange(0, m - 1));
    }
}

fn read_int(st: Found, t: &Option<String>, place: u8) -> (r: Option<Found>)
    requires
        place < 3,
    ensures
        r == with_int(Some(st), opt_view(*t), place as int),
{
    match t {
        None => Some(st),
        Some(x) => {
            let cs = chars_of(x.as_str());
            assert(cs@.subrange(0, cs@.len() as int) =~= cs@);
            match parse_i32(&cs, 0, cs.len()) {
                None => None,
                Some(n) => Some(
                    if place == 0 {
                        (Some(n), st.1, st.2, st.3)
                    } else if place == 1 {
                        (st.0, Some(n), st.2, st.3)
                    } else {
                        (st.0, st.1, Some(n), st.3)
                    },
                ),
            }
        },
    }
}

fn read_step(st: Found, c: &CaptureGroups) -> (r: Option<Found>)
    ensures
        r == decode_step(st, groups_of(*c)),
{
    let s1 = match read_int(st, &c.major_version, 0) {
        Some(s) => s,
        None => return None,
    };
    let s2 = match read_int(s1, &c.minor_version, 1) {
        Some(s) => s,
        None => return None,
    };
    let s3 = match read_int(s2, &c.micro_version, 2) {
        Some(s) => s,
        None => return None,
    };
    let s4 = match &c.version {
        None => s3,
        Some(x) => match Version::parse(x.as_str()) {
            Ok(v) => (Some(v.major), v.minor, v.micro, s3.3),
            Err(_) => return None,
        },
    };
    let t = match &c.tupled_version {
        Some(x) => Some(x),
        None => c.status_tupled_version.as_ref(),
    };
    match t {
        None => Some(s4),
        Some(x) => match Version::from_tupled(x.as_str()) {
            Ok((v, st2)) => Some(
                (
                    Some(v.major),
                    v.minor,
                    v.micro,
                    if st2.is_some() {
                        st2
                    } else {
                        s4.3
                    },
                ),
            ),
            Err(_) => None,
        },
    }
}

/// The version and status that the matches of a line give: each match's
/// groups read in turn, a later one overriding an earlier one. Nothing when
/// no major number was found or a group does not read.
pub fn version_from_capture_matches(caps: &Vec<CaptureGroups>) -> (r: (
    Option<Version>,
    Option<Status>,
))
    ensures
        r == decoded(caps@.map_values(|c: CaptureGroups| groups_of(c))),
{
    let ghost gs = caps@.map_values(|c: CaptureGroups| groups_of(c));
    let mut st: Found = (None, None, None, None);
    let mut k: usize = 0;
    assert(gs.subrange(0, 0) =~= Seq::<GroupTexts>::empty());
    while k < caps.len()
        invariant
            gs == caps@.map_values(|c: CaptureGroups| groups_of(c)),
            k <= caps@.len(),
            decode_all(gs.subrange(0, k as int)) == Some(st),
        decreases caps@.len() - k,
    {
        assert(gs.subrange(0, k + 1).drop_last() =~= gs.subrange(0, k as int));
        assert(gs.subrange(0, k + 1).last() == groups_of(caps@[k as int]));
        match read_step(st, &caps[k]) {
            Some(s) => {
                st = s;
            },
            None => {
                proof {
                    lemma_decode_none_stays(gs, k + 1, gs.len() as int);
                    assert(gs.subrange(0, gs.len() as int) =~= gs);
                }
                return (None, None);
            },
        }
        k += 1;
    }
    assert(gs.subrange(0, gs.len() as int) =~= gs);
    match st.0 {
        Some(m) => (Some(Version { major: m, minor: st.1, micro: st.2 }), st.3),
        None => (None, None),
    }
}

fn clone_opt(o: &Option<String>) -> (r: Option<String>)
    ensures
        opt_view(r) == opt_view(*o),
{
    match o {
        Some(s) => Some(s.clone()),
        None => None,
    }
}

fn group_texts_of(m: &LineMatcher, text: &str, i: usize) -> (r: Vec<Option<String>>)
    requires
        i < 6,
    ensures
        r@.len() == regex_captures(m.pattern(), text@).len(),
        forall|k: int|
            0 <= k < r@.len() ==> opt_view(#[trigger] r@[k]) == lookup(
                regex_captures(m.pattern(), text@)[k],
                group_name(var_names()[i as int]),
            ),
{
    let g = string_of(&group_name_exec(i));
    m.group_texts(text, g.as_str())
}

/// The named groups of each match of `m` in `text`.
pub fn capture_groups(m: &LineMatcher, text: &str) -> (r: Vec<CaptureGroups>)
    ensures
        r@.map_values(|c: CaptureGroups| groups_of(c)) == regex_captures(
            m.pattern(),
            text@,
        ).map_values(|mm: Map<Seq<char>, Seq<char>>| groups_of_map(mm)),
{
    let ghost caps = regex_captures(m.pattern(), text@);
    let g0 = group_texts_of(m, text, 2);
    let g1 = group_texts_of(m, text, 3);
    let g2 = group_texts_of(m, text, 4);
    let g3 = group_texts_of(m, text, 5);
    let g4 = group_texts_of(m, text, 1);
    let g5 = group_texts_of(m, text, 0);
    assert(var_names()[0] == var_status_tupled());
    assert(var_names()[1] == var_tupled());
    assert(var_names()[2] == var_major());
    assert(var_names()[3] == var_minor());
    assert(var_names()[4] == var_micro());
    assert(var_names()[5] == var_version());
    let mut r: Vec<CaptureGroups> = Vec::new();
    let mut k: usize = 0;
    while k < g0.len()
        invariant
            caps == regex_captures(m.pattern(), text@),
            g0@.len() == caps.len() && g1@.len() == caps.len() && g2@.len() == caps.len()
                && g3@.len() == caps.len() && g4@.len() == caps.len() && g5@.len() == caps.len(),
            forall|j: int|
                0 <= j < caps.len() ==> opt_view(#[trigger] g0@[j]) == lookup(
                    caps[j],
                    group_name(var_major()),
                ),
            forall|j: int|
                0 <= j < caps.len() ==> opt_view(#[trigger] g1@[j]) == lookup(
                    caps[j],
                    group_name(var_minor()),
                ),
            forall|j: int|
                0 <= j < caps.len() ==> opt_view(#[trigger] g2@[j]) == lookup(
                    caps[j],
                    group_name(var_micro()),
                ),
            forall|j: int|
                0 <= j < caps.len() ==> opt_view(#[trigger] g3@[j]) == lookup(
                    caps[j],
                    group_name(var_version()),
                ),
            forall|j: int|
                0 <= j < caps.len() ==> opt_view(#[trigger] g4@[j]) == lookup(
                    caps[j],
                    group_name(var_tupled()),
                ),
            forall|j: int|
                0 <= j < caps.len() ==> opt_view(#[trigger] g5@[j]) == lookup(
                    caps[j],
                    group_name(var_status_tupled()),
                ),
            k <= caps.len(),
            r@.len() == k,
            forall|j: int| 0 <= j < k ==> groups_of(#[trigger] r@[j]) == groups_of_map(caps[j]),
        decreases caps.len() - k,
    {
        r.push(
            CaptureGroups {
                major_version: clone_opt(&g0[k]),
                minor_version: clone_opt(&g1[k]),
                micro_version: clone_opt(&g2[k]),
                version: clone_opt(&g3[k]),
                tupled_version: clone_opt(&g4[k]),
                status_tupled_version: clone_opt(&g5[k]),
            },
        );
        k += 1;
    }
    assert(r@.map_values(|c: CaptureGroups| groups_of(c)) =~= caps.map_values(
        |mm: Map<Seq<char>, Seq<char>>| groups_of_map(mm),
    ));
    r
}

/// The version and status that a line written from a template gives when
/// read with the pattern made from the line itself.
pub fn extract_version(line: &str) -> (r: (Option<Version>, Option<Status>))
    ensures
        r == if regex_compiles(line_pattern(line@)) {
            decode_line(line_pattern(line@), line@)
        } else {
            (None, None)
        },
{
    let p = version_line_pattern(line);
    match LineMatcher::new(p.as_str()) {
        None => (None, None),
        Some(m) => version_from_capture_matches(&capture_groups(&m, line)),
    }
}

/// The version and status of the first line that gives a version.
pub open spec fn first_version(pattern: Seq<char>, ls: Seq<Seq<char>>) -> (
    Option<Version>,
    Option<Status>,
)
    decreases ls.len(),
{
    if ls.len() == 0 {
        (None, None)
    } else if decode_line(pattern, ls[0]).0 is Some {
        decode_line(pattern, ls[0])
    } else {
        first_version(pattern, ls.drop_first())
    }
}

/// Finds the version and status in the first of `lines` that the template
/// `new_line` could have written.
pub fn reverse_version(new_line: &str, lines: &[&str]) -> (r: (Option<Version>, Option<Status>))
    ensures
        r == if regex_compiles(line_pattern(new_line@)) {
            first_version(line_pattern(new_line@), lines@.map_values(|l: &str| l@))
        } else {
            (None, None)
        },
{
    let p = version_line_pattern(new_line);
    let m = match LineMatcher::new(p.as_str()) {
        None => return (None, None),
        Some(m) => m,
    };
    let ghost ls = lines@.map_values(|l: &str| l@);
    let mut k: usize = 0;
    assert(ls.subrange(0, ls.len() as int) =~= ls);
    while k < lines.len()
        invariant
            ls == lines@.map_values(|l: &str| l@),
            m.pattern() == line_pattern(new_line@),
            regex_compiles(line_pattern(new_line@)),
            k <= lines@.len(),
            first_version(m.pattern(), ls) == first_version(
                m.pattern(),
                ls.subrange(k as int, ls.len() as int),
            ),
        decreases lines@.len() - k,
    {
        let ghost rest = ls.subrange(k as int, ls.len() as int);
        assert(rest.drop_first() =~= ls.subrange(k + 1, ls.len() as int));
        assert(rest[0] == lines@[k as int]@);
        let caps = capture_groups(&m, lines[k]);
        let (v, s) = version_from_capture_matches(&caps);
        assert((v, s) == decode_line(m.pattern(), rest[0]));
        if v.is_some() {
            assert(first_version(m.pattern(), rest) == decode_line(m.pattern(), rest[0]));
            return (v, s);
        }
        k += 1;
    }
    (None, None)
}

// ---------------------------------------------------------------------------
// Rewriting version lines
// ---------------------------------------------------------------------------

/// Why version lines could not be rewritten.
#[derive(Debug)]
pub enum UpdateError {
    /// The pattern does not compile.
    InvalidRegex(String),
    /// The template uses a variable that has no value for the version.
    NoExpansion(String),
    /// No line matches the pattern.
    NoMatches(String),
}

impl UpdateError {
    pub fn to_string(&self) -> String {
        match self {
            UpdateError::InvalidRegex(p) => {
                let mut m = "Invalid regex: ".to_string();
                push_str(&mut m, p.as_str());
                m
            },
            UpdateError::NoExpansion(e) => e.clone(),
            UpdateError::NoMatches(p) => {
                let mut m = "No matches for ".to_string();
                push_str(&mut m, p.as_str());
                m
            },
        }
    }
}

/// The pattern used to find the lines to rewrite: the explicit one, else
/// the one made from the template.
pub open spec fn update_pattern(new_line: Seq<char>, explicit: Option<Seq<char>>) -> Seq<char> {
    match explicit {
        Some(p) => p,
        None => line_pattern(new_line),
    }
}

/// A line that the pattern finds: UTF-8, and matched somewhere.
pub open spec fn line_hit(pattern: Seq<char>, l: Seq<u8>) -> bool {
    valid_utf8(l) && regex_matches(pattern, decode_utf8(l))
}

/// Each line that the pattern finds replaced by `new`.
pub open spec fn rewritten(ls: Seq<Seq<u8>>, pattern: Seq<char>, new: Seq<u8>) -> Seq<Seq<u8>> {
    ls.map_values(|l: Seq<u8>| if line_hit(pattern, l) { new } else { l })
}

/// Rewrites every line that the pattern finds with the expanded template
/// `new_line`. The pattern is `explicit_match` when given, else the one
/// made from `new_line`. Finding no line is an error.
pub fn update_version_in_lines(
    lines: &mut Vec<Vec<u8>>,
    new_line: &str,
    explicit_match: Option<&str>,
    new_version: &Version,
    status: Status,
) -> (r: Result<(), UpdateError>)
    ensures
        ({
            let p = update_pattern(new_line@, opt_str_view(explicit_match));
            let lv = lines_view(old(lines)@);
            &&& (r matches Err(UpdateError::InvalidRegex(_))) <==> !regex_compiles(p)
            &&& (r matches Err(UpdateError::NoMatches(_))) <==> (regex_compiles(p) && forall|k: int|
                0 <= k < lv.len() ==> !line_hit(p, #[trigger] lv[k]))
            &&& (r matches Err(UpdateError::NoExpansion(_))) <==> (regex_compiles(p) && (exists|
                k: int,
            | 0 <= k < lv.len() && line_hit(p, #[trigger] lv[k])) && expand_vars(
                new_line@,
                *new_version,
                status,
            ) is None)
            &&& r is Ok ==> lines_view(final(lines)@) == rewritten(
                lv,
                p,
                encode_utf8(expand_vars(new_line@, *new_version, status)->0),
            )
            &&& r is Err ==> final(lines)@ == old(lines)@
        }),
{
    let ghost lv = lines_view(lines@);
    let pattern = match explicit_match {
        Some(m) => m.to_owned(),
        None => version_line_pattern(new_line),
    };
    let ghost p = update_pattern(new_line@, opt_str_view(explicit_match));
    assert(pattern@ == p);
    let m = match LineMatcher::new(pattern.as_str()) {
        Some(m) => m,
        None => return Err(UpdateError::InvalidRegex(pattern)),
    };
    let mut hits: Vec<bool> = Vec::new();
    let mut any = false;
    let mut k: usize = 0;
    while k < lines.len()
        invariant
            lv == lines_view(lines@),
            m.pattern() == p,
            k <= lines@.len(),
            hits@.len() == k,
            forall|j: int| 0 <= j < k ==> hits@[j] == line_hit(p, #[trigger] lv[j]),
            any <==> exists|j: int| 0 <= j < k && line_hit(p, #[trigger] lv[j]),
        decreases lines@.len() - k,
    {
        assert(lv[k as int] == lines@[k as int]@);
        let h = match utf8_decode(lines[k].as_slice()) {
            Some(text) => m.is_match(text),
            None => false,
        };
        hits.push(h);
        if h {
            any = true;
        }
        k += 1;
    }
    if !any {
        return Err(UpdateError::NoMatches(pattern));
    }
    let text = match expand_version_vars(new_line, new_version, status) {
        Ok(t) => t,
        Err(e) => return Err(UpdateError::NoExpansion(e)),
    };
    let new_bytes = bytes_of(text.as_str());
    let ghost nb = new_bytes@;
    let mut j: usize = 0;
    while j < lines.len()
        invariant
            lv.len() == lines@.len(),
            hits@.len() == lv.len(),
            forall|i: int| 0 <= i < lv.len() ==> hits@[i] == line_hit(p, #[trigger] lv[i]),
            new_bytes@ == nb,
            j <= lines@.len(),
            forall|i: int|
                0 <= i < j ==> (#[trigger] lines@[i])@ == (if line_hit(p, lv[i]) {
                    nb
                } else {
                    lv[i]
                }),
            forall|i: int| j <= i < lv.len() ==> (#[trigger] lines@[i])@ == lv[i],
        decreases lines@.len() - j,
    {
        if hits[j] {
            let copy = clone_bytes(&new_bytes);
            lines.set(j, copy);
        }
        j += 1;
    }
    assert(lines_view(lines@) =~= rewritten(lv, p, nb));
    Ok(())
}

fn clone_bytes(b: &Vec<u8>) -> (r: Vec<u8>)
    ensures
        r@ == b@,
{
    let mut r: Vec<u8> = Vec::new();
    let mut i: usize = 0;
    while i < b.len()
        invariant
            i <= b@.len(),
            r@ == b@.subrange(0, i as int),
        decreases b@.len() - i,
    {
        r.push(b[i]);
        i += 1;
    }
    assert(r@ =~= b@);
    r
}

} // verus!
