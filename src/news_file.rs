//! Changelog files: a header, then entries whose first line names a version
//! and a release date, followed by indented change notes.
use crate::text::{
    bytes_of, chars_of, find_char, first_char_at, is_digit, push_char, push_str, replace_all,
    replace_all_exec, string_of, string_of_range, trim, trim_bounds, utf8_decode,
};
use crate::version::{parse_version, range_eq, version_text, Version};
use vstd::prelude::*;
use vstd::utf8::{decode_utf8, encode_utf8, valid_utf8};

verus! {

// ---------------------------------------------------------------------------
// Placeholder tokens
// ---------------------------------------------------------------------------

pub open spec fn unreleased() -> Seq<char> {
    seq!['U', 'N', 'R', 'E', 'L', 'E', 'A', 'S', 'E', 'D']
}

pub open spec fn next_word() -> Seq<char> {
    seq!['N', 'E', 'X', 'T']
}

/// Where a line template takes the version.
pub open spec fn version_slot() -> Seq<char> {
    seq!['%', '(', 'v', 'e', 'r', 's', 'i', 'o', 'n', ')', 's']
}

/// Where a line template takes the date.
pub open spec fn date_slot() -> Seq<char> {
    seq!['%', '(', 'd', 'a', 't', 'e', ')', 's']
}

fn unreleased_exec() -> (r: Vec<char>)
    ensures
        r@ == unreleased(),
{
    let r = vec!['U', 'N', 'R', 'E', 'L', 'E', 'A', 'S', 'E', 'D'];
    assert(r@ =~= unreleased());
    r
}

fn next_exec() -> (r: Vec<char>)
    ensures
        r@ == next_word(),
{
    let r = vec!['N', 'E', 'X', 'T'];
    assert(r@ =~= next_word());
    r
}

fn version_slot_exec() -> (r: Vec<char>)
    ensures
        r@ == version_slot(),
{
    let r = vec!['%', '(', 'v', 'e', 'r', 's', 'i', 'o', 'n', ')', 's'];
    assert(r@ =~= version_slot());
    r
}

fn date_slot_exec() -> (r: Vec<char>)
    ensures
        r@ == date_slot(),
{
    let r = vec!['%', '(', 'd', 'a', 't', 'e', ')', 's'];
    assert(r@ =~= date_slot());
    r
}

/// A date that is not yet known: `UNRELEASED`, `NEXT`, `NEXT <text>` or
/// the date slot itself.
pub open spec fn date_placeholder(d: Seq<char>) -> bool {
    ||| d == unreleased()
    ||| (d.len() >= 5 && d.subrange(0, 5) == next_word().push(' '))
    ||| d == next_word()
    ||| d == date_slot()
}

/// A version that is not yet known: `UNRELEASED`, `NEXT` or the version slot.
pub open spec fn version_placeholder(v: Seq<char>) -> bool {
    v == unreleased() || v == version_slot() || v == next_word()
}

/// Text made of digits and dots only, and not empty.
pub open spec fn version_chars(v: Seq<char>) -> bool {
    v.len() > 0 && forall|i: int| 0 <= i < v.len() ==> is_digit(#[trigger] v[i]) || v[i] == '.'
}

fn date_placeholder_range(cs: &Vec<char>, lo: usize, hi: usize) -> (r: bool)
    requires
        lo <= hi <= cs@.len(),
    ensures
        r == date_placeholder(cs@.subrange(lo as int, hi as int)),
{
    let ghost d = cs@.subrange(lo as int, hi as int);
    if range_eq(cs, lo, hi, &unreleased_exec()) || range_eq(cs, lo, hi, &next_exec()) || range_eq(
        cs,
        lo,
        hi,
        &date_slot_exec(),
    ) {
        return true;
    }
    if hi - lo >= 5 {
        assert(d.subrange(0, 5) =~= cs@.subrange(lo as int, lo + 5));
        let r = range_eq(cs, lo, lo + 5, &vec!['N', 'E', 'X', 'T', ' ']);
        assert(next_word().push(' ') =~= seq!['N', 'E', 'X', 'T', ' ']);
        r
    } else {
        false
    }
}

/// Whether `d` is a date that is not yet known.
pub fn date_is_placeholder(d: &str) -> (r: bool)
    ensures
        r == date_placeholder(d@),
{
    let cs = chars_of(d);
    let r = date_placeholder_range(&cs, 0, cs.len());
    assert(cs@.subrange(0, cs@.len() as int) =~= cs@);
    r
}

fn version_chars_range(cs: &Vec<char>, lo: usize, hi: usize) -> (r: bool)
    requires
        lo <= hi <= cs@.len(),
    ensures
        r == version_chars(cs@.subrange(lo as int, hi as int)),
{
    if lo == hi {
        return false;
    }
    let mut i: usize = lo;
    while i < hi
        invariant
            lo <= i <= hi <= cs@.len(),
            forall|j: int| lo <= j < i ==> is_digit(#[trigger] cs@[j]) || cs@[j] == '.',
        decreases hi - i,
    {
        let c = cs[i];
        if !(('0' <= c && c <= '9') || c == '.') {
            assert(cs@.subrange(lo as int, hi as int)[i - lo] == c);
            return false;
        }
        i += 1;
    }
    assert forall|k: int| 0 <= k < hi - lo implies is_digit(
        #[trigger] cs@.subrange(lo as int, hi as int)[k],
    ) || cs@.subrange(lo as int, hi as int)[k] == '.' by {
        assert(cs@.subrange(lo as int, hi as int)[k] == cs@[lo + k]);
    }
    true
}

/// `Ok(true)` for a version placeholder, `Ok(false)` for digits and dots.
fn check_version_range(cs: &Vec<char>, lo: usize, hi: usize) -> (r: Result<bool, Error>)
    requires
        lo <= hi <= cs@.len(),
    ensures
        r matches Ok(b) ==> b == version_placeholder(cs@.subrange(lo as int, hi as int)),
        r is Ok <==> (version_placeholder(cs@.subrange(lo as int, hi as int)) || version_chars(
            cs@.subrange(lo as int, hi as int),
        )),
        r is Err ==> r matches Err(Error::OddVersion(_)),
        r matches Err(Error::OddVersion(t)) ==> t@ == cs@.subrange(lo as int, hi as int),
{
    if range_eq(cs, lo, hi, &unreleased_exec()) || range_eq(cs, lo, hi, &version_slot_exec())
        || range_eq(cs, lo, hi, &next_exec()) {
        return Ok(true);
    }
    if !version_chars_range(cs, lo, hi) {
        return Err(Error::OddVersion(string_of_range(cs, lo, hi)));
    }
    proof {
        assert(unreleased()[0] == 'U');
        assert(version_slot()[0] == '%');
        assert(next_word()[0] == 'N');
    }
    Ok(false)
}

/// Whether `v` is a version placeholder; an error for text that is neither
/// a placeholder nor made of digits and dots.
pub fn check_version(v: &str) -> (r: Result<bool, Error>)
    ensures
        r matches Ok(b) ==> b == version_placeholder(v@),
        r is Ok <==> (version_placeholder(v@) || version_chars(v@)),
        r is Err ==> r matches Err(Error::OddVersion(_)),
        r matches Err(Error::OddVersion(t)) ==> t@ == v@,
{
    let cs = chars_of(v);
    assert(cs@.subrange(0, cs@.len() as int) =~= cs@);
    check_version_range(&cs, 0, cs.len())
}

// ---------------------------------------------------------------------------
// Errors
// ---------------------------------------------------------------------------

/// The changelog has no entry marked as not yet released.
#[derive(Debug)]
pub struct NoUnreleasedChanges();

impl NoUnreleasedChanges {
    pub fn to_string(&self) -> String {
        "No unreleased changes".to_string()
    }
}

/// Why a changelog could not be read or changed.
#[derive(Debug)]
pub enum Error {
    /// The first entry is already released.
    NoUnreleasedChanges,
    /// The first entry names a version that is neither a placeholder nor
    /// made of digits and dots.
    OddVersion(String),
    /// The first entry is already pending.
    PendingExists { last_version: Option<Version>, last_date: Option<String> },
    /// A line or a value in it could not be read.
    InvalidData(String),
    /// Nothing follows the header.
    NoEntry,
    /// The pending entry names another version than the one being released.
    VersionMismatch { expected: String, found: String },
}

impl Error {
    /// A message that describes the error.
    pub fn to_string(&self) -> String {
        match self {
            Error::NoUnreleasedChanges => "No unreleased changes".to_string(),
            Error::OddVersion(s) => {
                let mut m = "Odd version: ".to_string();
                push_str(&mut m, s.as_str());
                m
            },
            Error::PendingExists { last_version, last_date } => {
                let mut m = "Pending version already exists:".to_string();
                if let Some(v) = last_version {
                    push_char(&mut m, ' ');
                    push_str(&mut m, v.to_string().as_str());
                }
                push_char(&mut m, ' ');
                match last_date {
                    Some(d) => push_str(&mut m, d.as_str()),
                    None => push_str(&mut m, "UNRELEASED"),
                }
                m
            },
            Error::InvalidData(s) => {
                let mut m = "Invalid data: ".to_string();
                push_str(&mut m, s.as_str());
                m
            },
            Error::NoEntry => "No entry after the changelog header".to_string(),
            Error::VersionMismatch { expected, found } => {
                let mut m = "unexpected version: ".to_string();
                push_str(&mut m, expected.as_str());
                push_str(&mut m, " != ");
                push_str(&mut m, found.as_str());
                m
            },
        }
    }
}

// ---------------------------------------------------------------------------
// Entry lines
// ---------------------------------------------------------------------------

pub open spec fn tab_template() -> Seq<char> {
    version_slot() + seq!['\t'] + date_slot()
}

pub open spec fn paren_template() -> Seq<char> {
    version_slot() + seq![' ', '('] + date_slot() + seq![')']
}

pub open spec fn space_template() -> Seq<char> {
    version_slot() + seq![' '] + date_slot()
}

/// The version text, the date text and the template of a trimmed entry
/// line: split at the first tab, else at the first space (a date in
/// parentheses losing them), else the whole line is the version.
pub open spec fn line_fields(t: Seq<char>) -> (Seq<char>, Option<Seq<char>>, Seq<char>) {
    if t.contains('\t') {
        let k = choose|k: int| first_char_at(t, '\t', k);
        (t.subrange(0, k), Some(t.subrange(k + 1, t.len() as int)), tab_template())
    } else if t.contains(' ') {
        let k = choose|k: int| first_char_at(t, ' ', k);
        let d = t.subrange(k + 1, t.len() as int);
        if d.len() >= 2 && d[0] == '(' && d.last() == ')' {
            (t.subrange(0, k), Some(d.subrange(1, d.len() - 1)), paren_template())
        } else {
            (t.subrange(0, k), Some(d), space_template())
        }
    } else {
        (t, None, version_slot())
    }
}

/// What an entry line says: the version and the date unless they are
/// placeholders, the line's template, and whether the entry is pending.
/// `None` when the version is neither a placeholder nor digits and dots.
pub open spec fn parse_line(line: Seq<char>) -> Option<
    (Option<Seq<char>>, Option<Seq<char>>, Seq<char>, bool),
> {
    let f = line_fields(trim(line));
    let v = f.0;
    let d = f.1;
    if !version_placeholder(v) && !version_chars(v) {
        None
    } else {
        let vp = version_placeholder(v);
        let dp = d matches Some(x) && date_placeholder(x);
        Some(
            (
                if vp {
                    None
                } else {
                    Some(v)
                },
                if dp {
                    None
                } else {
                    d
                },
                f.2,
                vp || dp,
            ),
        )
    }
}

pub open spec fn opt_str_view(o: Option<&str>) -> Option<Seq<char>> {
    match o {
        Some(s) => Some(s@),
        None => None,
    }
}

pub open spec fn opt_string_view(o: Option<String>) -> Option<Seq<char>> {
    match o {
        Some(s) => Some(s@),
        None => None,
    }
}

proof fn lemma_first_char_unique(s: Seq<char>, c: char, i: int, j: int)
    requires
        first_char_at(s, c, i),
        first_char_at(s, c, j),
    ensures
        i == j,
{
    if i < j {
        assert(s[i] != c);
    }
    if j < i {
        assert(s[j] != c);
    }
}

fn template_string(which: u8) -> (r: String)
    ensures
        which == 0 ==> r@ == tab_template(),
        which == 1 ==> r@ == paren_template(),
        which == 2 ==> r@ == space_template(),
        which > 2 ==> r@ == version_slot(),
{
    let mut v = version_slot_exec();
    if which == 0 {
        v.push('\t');
        let mut d = date_slot_exec();
        v.append(&mut d);
        assert(v@ =~= tab_template());
    } else if which == 1 {
        v.push(' ');
        v.push('(');
        let mut d = date_slot_exec();
        v.append(&mut d);
        v.push(')');
        assert(v@ =~= paren_template());
    } else if which == 2 {
        v.push(' ');
        let mut d = date_slot_exec();
        v.append(&mut d);
        assert(v@ =~= space_template());
    }
    string_of(&v)
}

/// Reads an entry line: its version and date (`None` where they are
/// placeholders), the template that writes the line again, and whether
/// the entry is pending.
pub fn parse_version_line<'a>(line: &'a str) -> (r: Result<
    (Option<&'a str>, Option<&'a str>, String, bool),
    Error,
>)
    ensures
        r is Ok <==> parse_line(line@) is Some,
        r is Err ==> r matches Err(Error::OddVersion(_)),
        r matches Err(Error::OddVersion(t)) ==> t@ == line_fields(trim(line@)).0,
        r matches Ok(x) ==> parse_line(line@) == Some(
            (opt_str_view(x.0), opt_str_view(x.1), x.2@, x.3),
        ),
{
    let cs = chars_of(line);
    let (a, b) = trim_bounds(&cs, 0, cs.len());
    assert(cs@.subrange(0, cs@.len() as int) =~= cs@);
    let ghost t = cs@.subrange(a as int, b as int);
    let ghost f = line_fields(t);
    let vlo = a;
    let vhi: usize;
    let drange: Option<(usize, usize)>;
    let which: u8;
    match find_char(&cs, a, b, '\t') {
        Some(k) => {
            proof {
                assert(t.contains('\t')) by {
                    assert(t[k - a] == '\t');
                }
                let kk = choose|kk: int| first_char_at(t, '\t', kk);
                lemma_first_char_unique(t, '\t', kk, k - a);
                assert(t.subrange(0, k - a) =~= cs@.subrange(a as int, k as int));
                assert(t.subrange(k - a + 1, t.len() as int) =~= cs@.subrange(k + 1, b as int));
            }
            vhi = k;
            drange = Some((k + 1, b));
            which = 0;
        },
        None => {
            match find_char(&cs, a, b, ' ') {
                Some(k) => {
                    let dlo = k + 1;
                    let dhi = b;
                    proof {
                        assert(t.contains(' ')) by {
                            assert(t[k - a] == ' ');
                        }
                        let kk = choose|kk: int| first_char_at(t, ' ', kk);
                        lemma_first_char_unique(t, ' ', kk, k - a);
                        assert(t.subrange(0, k - a) =~= cs@.subrange(a as int, k as int));
                        assert(t.subrange(k - a + 1, t.len() as int) =~= cs@.subrange(
                            dlo as int,
                            dhi as int,
                        ));
                    }
                    vhi = k;
                    if dhi - dlo >= 2 && cs[dlo] == '(' && cs[dhi - 1] == ')' {
                        assert(cs@.subrange(dlo as int, dhi as int).subrange(1, dhi - dlo - 1)
                            =~= cs@.subrange(dlo + 1, dhi - 1));
                        drange = Some((dlo + 1, dhi - 1));
                        which = 1;
                    } else {
                        drange = Some((dlo, dhi));
                        which = 2;
                    }
                },
                None => {
                    vhi = b;
                    drange = None;
                    which = 3;
                },
            }
        },
    }
    let tpl = template_string(which);
    assert(f.0 == cs@.subrange(vlo as int, vhi as int));
    assert(f.2 == tpl@);
    let vp = check_version_range(&cs, vlo, vhi)?;
    let dp = match drange {
        Some((x, y)) => {
            assert(f.1 == Some(cs@.subrange(x as int, y as int)));
            date_placeholder_range(&cs, x, y)
        },
        None => false,
    };
    let version = if vp {
        None
    } else {
        Some(line.substring_char(vlo, vhi))
    };
    let date = match drange {
        Some((x, y)) => if dp {
            None
        } else {
            Some(line.substring_char(x, y))
        },
        None => None,
    };
    Ok((version, date, tpl, vp || dp))
}

/// The template filled with a version's text and a date.
pub open spec fn fill_template(t: Seq<char>, version: Seq<char>, date: Seq<char>) -> Seq<char> {
    replace_all(replace_all(t, version_slot(), version), date_slot(), date)
}

/// Writes an entry line from its template, a version and a date.
pub fn expand_template(template: &str, version: &Version, date: &str) -> (r: String)
    ensures
        r@ == fill_template(template@, version_text(*version), date@),
{
    let t = chars_of(template);
    let v = chars_of(version.to_string().as_str());
    let d = chars_of(date);
    let once = replace_all_exec(&t, &version_slot_exec(), &v);
    let twice = replace_all_exec(&once, &date_slot_exec(), &d);
    string_of(&twice)
}

// ---------------------------------------------------------------------------
// The lines of a changelog
// ---------------------------------------------------------------------------

/// The bytes of `Changelog for `.
pub open spec fn changelog_for() -> Seq<u8> {
    seq![67u8, 104, 97, 110, 103, 101, 108, 111, 103, 32, 102, 111, 114, 32]
}

/// The bytes of ` release notes`.
pub open spec fn release_notes() -> Seq<u8> {
    seq![32u8, 114, 101, 108, 101, 97, 115, 101, 32, 110, 111, 116, 101, 115]
}

/// A line without its one trailing newline, if it has one.
pub open spec fn without_newline(l: Seq<u8>) -> Seq<u8> {
    if l.len() > 0 && l.last() == 10u8 {
        l.drop_last()
    } else {
        l
    }
}

/// The shape of a header line: a `Changelog for ` banner, a line ending in
/// ` release notes`, or a line of `=` and `-` only (a blank line too).
pub open spec fn header_shape(l: Seq<u8>) -> bool {
    ||| (l.len() >= 14 && l.subrange(0, 14) == changelog_for())
    ||| (l.len() >= 14 && l.subrange(l.len() - 14, l.len() as int) == release_notes())
    ||| forall|i: int| 0 <= i < l.len() ==> (#[trigger] l[i] == 61u8 || l[i] == 45u8)
}

/// A line of the header: without its trailing newline, it has one of the
/// header shapes.
pub open spec fn header_line(l: Seq<u8>) -> bool {
    header_shape(without_newline(l))
}

/// How many lines the header takes.
pub open spec fn header_len(ls: Seq<Seq<u8>>) -> nat
    decreases ls.len(),
{
    if ls.len() > 0 && header_line(ls[0]) {
        1 + header_len(ls.drop_first())
    } else {
        0
    }
}

pub open spec fn lines_view(ls: Seq<Vec<u8>>) -> Seq<Seq<u8>> {
    ls.map_values(|l: Vec<u8>| l@)
}

/// The first entry line, decoded, when there is one and it is UTF-8.
pub open spec fn entry_text(ls: Seq<Seq<u8>>) -> Option<Seq<char>> {
    let i = header_len(ls) as int;
    if i < ls.len() && valid_utf8(ls[i]) {
        Some(decode_utf8(ls[i]))
    } else {
        None
    }
}

fn bytes_eq(l: &Vec<u8>, lo: usize, p: &Vec<u8>) -> (r: bool)
    requires
        lo + p@.len() <= l@.len(),
    ensures
        r == (l@.subrange(lo as int, lo + p@.len()) == p@),
{
    let n = l.len();
    let mut j: usize = 0;
    while j < p.len()
        invariant
            n == l@.len(),
            lo + p@.len() <= l@.len(),
            j <= p@.len(),
            forall|k: int| 0 <= k < j ==> l@[lo + k] == p@[k],
        decreases p@.len() - j,
    {
        if l[lo + j] != p[j] {
            assert(l@.subrange(lo as int, lo + p@.len())[j as int] != p@[j as int]);
            return false;
        }
        j += 1;
    }
    assert(l@.subrange(lo as int, lo + p@.len()) =~= p@);
    true
}

fn is_header_line(l: &Vec<u8>) -> (r: bool)
    ensures
        r == header_line(l@),
{
    let banner: Vec<u8> = vec![67u8, 104, 97, 110, 103, 101, 108, 111, 103, 32, 102, 111, 114, 32];
    let notes: Vec<u8> = vec![32u8, 114, 101, 108, 101, 97, 115, 101, 32, 110, 111, 116, 101, 115];
    assert(banner@ =~= changelog_for());
    assert(notes@ =~= release_notes());
    let n: usize = if l.len() > 0 && l[l.len() - 1] == 10u8 {
        l.len() - 1
    } else {
        l.len()
    };
    let ghost t = without_newline(l@);
    assert(t =~= l@.subrange(0, n as int));
    if n >= 14 && bytes_eq(l, 0, &banner) {
        assert(t.subrange(0, 14) =~= l@.subrange(0, 14));
        return true;
    }
    if n >= 14 {
        assert(t.subrange(0, 14) =~= l@.subrange(0, 14));
    }
    if n >= 14 && bytes_eq(l, n - 14, &notes) {
        assert(t.subrange(t.len() - 14, t.len() as int) =~= l@.subrange(n - 14, n as int));
        return true;
    }
    if n >= 14 {
        assert(t.subrange(t.len() - 14, t.len() as int) =~= l@.subrange(n - 14, n as int));
    }
    let ghost no_banner = !(t.len() >= 14 && t.subrange(0, 14) == changelog_for());
    let ghost no_notes = !(t.len() >= 14 && t.subrange(t.len() - 14, t.len() as int)
        == release_notes());
    assert(no_banner && no_notes);
    let mut i: usize = 0;
    while i < n
        invariant
            n <= l@.len(),
            t == l@.subrange(0, n as int),
            t == without_newline(l@),
            i <= n,
            no_banner == !(t.len() >= 14 && t.subrange(0, 14) == changelog_for()),
            no_notes == !(t.len() >= 14 && t.subrange(t.len() - 14, t.len() as int)
                == release_notes()),
            no_banner && no_notes,
            forall|k: int| 0 <= k < i ==> (#[trigger] t[k] == 61u8 || t[k] == 45u8),
        decreases n - i,
    {
        assert(t[i as int] == l@[i as int]);
        if l[i] != 61u8 && l[i] != 45u8 {
            assert(!(t[i as int] == 61u8 || t[i as int] == 45u8));
            return false;
        }
        i += 1;
    }
    true
}

/// The number of header lines before the first entry.
pub fn skip_header(lines: &[Vec<u8>]) -> (r: usize)
    ensures
        r == header_len(lines_view(lines@)),
        r <= lines@.len(),
{
    let ghost lv = lines_view(lines@);
    let mut i: usize = 0;
    assert(lv.subrange(0, lv.len() as int) =~= lv);
    while i < lines.len()
        invariant
            lv == lines_view(lines@),
            i <= lines@.len(),
            header_len(lv) == i + header_len(lv.subrange(i as int, lv.len() as int)),
        decreases lines@.len() - i,
    {
        if !is_header_line(&lines[i]) {
            assert(lv.subrange(i as int, lv.len() as int)[0] == lines@[i as int]@);
            return i;
        }
        assert(lv.subrange(i as int, lv.len() as int).drop_first() =~= lv.subrange(
            i + 1,
            lv.len() as int,
        ));
        i += 1;
    }
    i
}

pub proof fn lemma_header_len_bound(ls: Seq<Seq<u8>>)
    ensures
        header_len(ls) <= ls.len(),
    decreases ls.len(),
{
    if ls.len() > 0 && header_line(ls[0]) {
        lemma_header_len_bound(ls.drop_first());
    }
}

/// The version of a pending entry line, when it names one.
pub open spec fn pending_version_of(line: Seq<char>) -> Option<Seq<char>> {
    match parse_line(line) {
        Some(p) => if p.3 {
            p.0
        } else {
            None
        },
        None => None,
    }
}

/// The first entry read as an entry line, when there is one that reads.
pub open spec fn first_entry(ls: Seq<Seq<u8>>) -> Option<
    (Option<Seq<char>>, Option<Seq<char>>, Seq<char>, bool),
> {
    match entry_text(ls) {
        Some(t) => parse_line(t),
        None => None,
    }
}

/// The first entry line is UTF-8 but names an odd version.
pub open spec fn entry_odd(ls: Seq<Seq<u8>>) -> bool {
    match entry_text(ls) {
        Some(t) => parse_line(t) is None,
        None => false,
    }
}

/// The first entry is pending.
pub open spec fn entry_pending(ls: Seq<Seq<u8>>) -> bool {
    match first_entry(ls) {
        Some(p) => p.3,
        None => false,
    }
}

/// The first entry is released.
pub open spec fn entry_released(ls: Seq<Seq<u8>>) -> bool {
    match first_entry(ls) {
        Some(p) => !p.3,
        None => false,
    }
}

/// The first entry is pending and names a version other than `v`'s text.
pub open spec fn entry_names_other(ls: Seq<Seq<u8>>, v: Version) -> bool {
    match first_entry(ls) {
        Some(p) => p.3 && match p.0 {
            Some(x) => x != version_text(v),
            None => false,
        },
        None => false,
    }
}

/// The version that the first entry names, read as a version.
pub open spec fn entry_last_version(ls: Seq<Seq<u8>>) -> Option<Version> {
    match first_entry(ls) {
        Some(p) => match p.0 {
            Some(x) => parse_version(x),
            None => None,
        },
        None => None,
    }
}

/// The date that the first entry names.
pub open spec fn entry_date(ls: Seq<Seq<u8>>) -> Option<Seq<char>> {
    match first_entry(ls) {
        Some(p) => p.1,
        None => None,
    }
}

/// The first entry names no version, or one that reads.
pub open spec fn entry_version_reads(ls: Seq<Seq<u8>>) -> bool {
    match first_entry(ls) {
        Some(p) => match p.0 {
            Some(x) => parse_version(x) is Some,
            None => true,
        },
        None => false,
    }
}

/// Decodes the entry line at `i`.
fn entry_at(lines: &[Vec<u8>], i: usize) -> (r: Result<&str, Error>)
    requires
        i < lines@.len(),
    ensures
        r is Ok <==> valid_utf8(lines@[i as int]@),
        r matches Ok(s) ==> s@ == decode_utf8(lines@[i as int]@),
        r is Err ==> r matches Err(Error::InvalidData(_)),
{
    match utf8_decode(lines[i].as_slice()) {
        Some(s) => Ok(s),
        None => Err(Error::InvalidData("Invalid UTF-8 in news file".to_string())),
    }
}

/// The version of the pending entry: `None` when the first entry is
/// released or names no version yet.
pub fn news_find_pending(lines: &[Vec<u8>]) -> (r: Result<Option<String>, Error>)
    ensures
        ({
            let lv = lines_view(lines@);
            let i = header_len(lv) as int;
            &&& (r matches Err(Error::NoEntry)) <==> i == lv.len()
            &&& (r matches Err(Error::InvalidData(_))) <==> i < lv.len() && !valid_utf8(lv[i])
            &&& (r matches Err(Error::OddVersion(_))) <==> entry_odd(lv)
            &&& r matches Err(Error::OddVersion(t)) ==> t@ == line_fields(trim(entry_text(lv)->0)).0
            &&& r is Ok <==> first_entry(lv) is Some
            &&& r matches Ok(x) ==> opt_string_view(x) == pending_version_of(entry_text(lv)->0)
        }),
{
    let ghost lv = lines_view(lines@);
    let i = skip_header(lines);
    if i == lines.len() {
        return Err(Error::NoEntry);
    }
    assert(lv[i as int] == lines@[i as int]@);
    let line = entry_at(lines, i)?;
    let (version, _date, _template, pending) = parse_version_line(line)?;
    if !pending {
        return Ok(None);
    }
    match version {
        Some(v) => Ok(Some(v.to_string())),
        None => Ok(None),
    }
}

/// `ls` with `a` and then `b` inserted before index `i`.
pub open spec fn insert_two(ls: Seq<Seq<u8>>, i: int, a: Seq<u8>, b: Seq<u8>) -> Seq<Seq<u8>> {
    ls.subrange(0, i) + seq![a, b] + ls.subrange(i, ls.len() as int)
}

/// The new entry line for a pending version, in the template of the entry
/// that it goes before.
pub open spec fn pending_line(template: Seq<char>, v: Version) -> Seq<u8> {
    encode_utf8(fill_template(template, version_text(v), unreleased()).push('\n'))
}

/// Adds a pending entry for `new_version` before the first entry, written
/// in that entry's template with the date `UNRELEASED`, and followed by an
/// empty line.
pub fn news_add_pending(lines: &mut Vec<Vec<u8>>, new_version: &Version) -> (r: Result<(), Error>)
    ensures
        ({
            let lv = lines_view(old(lines)@);
            let i = header_len(lv) as int;
            &&& (r matches Err(Error::NoEntry)) <==> i == lv.len()
            &&& (r matches Err(Error::OddVersion(_))) <==> entry_odd(lv)
            &&& r matches Err(Error::OddVersion(t)) ==> t@ == line_fields(trim(entry_text(lv)->0)).0
            &&& (r matches Err(Error::PendingExists { .. })) <==> (entry_pending(lv)
                && entry_version_reads(lv))
            &&& (r matches Err(Error::InvalidData(_))) <==> ((i < lv.len() && !valid_utf8(lv[i]))
                || (entry_pending(lv) && !entry_version_reads(lv)))
            &&& r matches Err(Error::PendingExists { last_version, last_date }) ==> (last_version
                == entry_last_version(lv) && opt_string_view(last_date) == entry_date(lv))
            &&& r is Ok <==> entry_released(lv)
            &&& r is Ok ==> {
                let p = first_entry(lv)->0;
                lines_view(final(lines)@) == insert_two(
                    lv,
                    i,
                    pending_line(p.2, *new_version),
                    seq![10u8],
                )
            }
            &&& r is Err ==> final(lines)@ == old(lines)@
        }),
{
    let ghost lv = lines_view(lines@);
    let i = skip_header(lines.as_slice());
    if i == lines.len() {
        return Err(Error::NoEntry);
    }
    assert(lv[i as int] == lines@[i as int]@);
    let line = entry_at(lines.as_slice(), i)?;
    let (last_version, last_date, template, pending) = parse_version_line(line)?;
    if pending {
        let v = match last_version {
            Some(v) => match Version::parse(v) {
                Ok(p) => Some(p),
                Err(_) => return Err(Error::InvalidData(v.to_string())),
            },
            None => None,
        };
        let d = match last_date {
            Some(d) => Some(d.to_owned()),
            None => None,
        };
        return Err(Error::PendingExists { last_version: v, last_date: d });
    }
    let mut text = expand_template(template.as_str(), new_version, "UNRELEASED");
    proof {
        reveal_strlit("UNRELEASED");
        assert("UNRELEASED"@ =~= unreleased());
    }
    push_char(&mut text, '\n');
    let new_line = bytes_of(text.as_str());
    let ghost nl = new_line@;
    let ghost old_lines = lines@;
    let blank: Vec<u8> = vec![10u8];
    assert(blank@ =~= seq![10u8]);
    lines.insert(i, blank);
    lines.insert(i, new_line);
    proof {
        let want = insert_two(lv, i as int, nl, seq![10u8]);
        let got = lines_view(lines@);
        assert(got.len() == want.len());
        assert forall|k: int| 0 <= k < got.len() implies got[k] == want[k] by {
            if k < i {
                assert(lines@[k] == old_lines[k]);
            } else if k == i {
            } else if k == i + 1 {
            } else {
                assert(lines@[k] == old_lines[k - 2]);
            }
        }
        assert(got =~= want);
    }
    Ok(())
}

/// A line of change notes: blank, or indented by a space or a tab.
pub open spec fn note_line(s: Seq<char>) -> bool {
    trim(s).len() == 0 || (s.len() > 0 && (s[0] == ' ' || s[0] == '\t'))
}

/// The change notes at the start of `ls`: the lines up to the first that is
/// not a note line; a line that is not UTF-8 is not one.
pub open spec fn notes(ls: Seq<Seq<u8>>) -> Seq<char>
    decreases ls.len(),
{
    if ls.len() == 0 {
        Seq::<char>::empty()
    } else if !valid_utf8(ls[0]) {
        Seq::<char>::empty()
    } else if note_line(decode_utf8(ls[0])) {
        decode_utf8(ls[0]) + notes(ls.drop_first())
    } else {
        Seq::<char>::empty()
    }
}

/// The entry line that marks a release of `v` on `date`.
pub open spec fn released_line(template: Seq<char>, v: Version, date: Seq<char>) -> Seq<u8> {
    encode_utf8(fill_template(template, version_text(v), date).push('\n'))
}

/// Marks the pending entry as released: its line is written again from its
/// template with `expected_version` and `release_date`. Returns the change
/// notes that follow the entry line.
pub fn news_mark_released(
    lines: &mut Vec<Vec<u8>>,
    expected_version: &Version,
    release_date: &str,
) -> (r: Result<String, Error>)
    ensures
        ({
            let lv = lines_view(old(lines)@);
            let i = header_len(lv) as int;
            &&& (r matches Err(Error::NoEntry)) <==> i == lv.len()
            &&& (r matches Err(Error::InvalidData(_))) <==> i < lv.len() && !valid_utf8(lv[i])
            &&& (r matches Err(Error::OddVersion(_))) <==> entry_odd(lv)
            &&& r matches Err(Error::OddVersion(t)) ==> t@ == line_fields(trim(entry_text(lv)->0)).0
            &&& (r matches Err(Error::NoUnreleasedChanges)) <==> entry_released(lv)
            &&& (r matches Err(Error::VersionMismatch { .. })) <==> entry_names_other(
                lv,
                *expected_version,
            )
            &&& r is Ok <==> entry_pending(lv) && !entry_names_other(lv, *expected_version)
            &&& r is Ok ==> {
                let p = first_entry(lv)->0;
                &&& lines_view(final(lines)@) == lv.update(
                    i,
                    released_line(p.2, *expected_version, release_date@),
                )
                &&& r->Ok_0@ == notes(lv.subrange(i + 1, lv.len() as int))
            }
            &&& r is Err ==> final(lines)@ == old(lines)@
        }),
{
    let ghost lv = lines_view(lines@);
    let i = skip_header(lines.as_slice());
    if i == lines.len() {
        return Err(Error::NoEntry);
    }
    assert(lv[i as int] == lines@[i as int]@);
    let line = entry_at(lines.as_slice(), i)?;
    let (version, _date, template, pending) = parse_version_line(line)?;
    if !pending {
        return Err(Error::NoUnreleasedChanges);
    }
    let expected = expected_version.to_string();
    if let Some(v) = version {
        let vc = chars_of(v);
        let ec = chars_of(expected.as_str());
        if !range_eq(&vc, 0, vc.len(), &ec) {
            assert(vc@.subrange(0, vc@.len() as int) =~= vc@);
            return Err(
                Error::VersionMismatch { expected: expected.clone(), found: v.to_string() },
            );
        }
        assert(vc@.subrange(0, vc@.len() as int) =~= vc@);
    }
    let mut changes = String::new();
    let mut k: usize = i + 1;
    let mut done = false;
    while k < lines.len() && !done
        invariant
            lv == lines_view(lines@),
            i < k <= lines@.len(),
            changes@ + notes(lv.subrange(k as int, lv.len() as int)) == notes(
                lv.subrange(i + 1, lv.len() as int),
            ),
            done ==> notes(lv.subrange(k as int, lv.len() as int)) == Seq::<char>::empty(),
        decreases lines@.len() - k, if done { 0int } else { 1int },
    {
        let ghost rest = lv.subrange(k as int, lv.len() as int);
        assert(rest.drop_first() =~= lv.subrange(k + 1, lv.len() as int));
        assert(rest[0] == lines@[k as int]@);
        match utf8_decode(lines[k].as_slice()) {
            None => {
                assert(notes(rest) == Seq::<char>::empty());
                done = true;
            },
            Some(s) => {
                let cs = chars_of(s);
                let (a, b) = trim_bounds(&cs, 0, cs.len());
                assert(cs@.subrange(0, cs@.len() as int) =~= cs@);
                if a == b || (cs.len() > 0 && (cs[0] == ' ' || cs[0] == '\t')) {
                    assert(note_line(s@));
                    assert(notes(rest) == s@ + notes(rest.drop_first()));
                    let ghost before = changes@;
                    push_str(&mut changes, s);
                    assert(before + (s@ + notes(lv.subrange(k + 1, lv.len() as int))) =~= changes@
                        + notes(lv.subrange(k + 1, lv.len() as int)));
                    k += 1;
                } else {
                    assert(!note_line(s@));
                    assert(notes(rest) == Seq::<char>::empty());
                    done = true;
                }
            },
        }
    }
    proof {
        if !done {
            assert(lv.subrange(k as int, lv.len() as int) =~= Seq::<Seq<u8>>::empty());
        }
        assert(changes@ + Seq::<char>::empty() =~= changes@);
    }
    let mut text = expand_template(template.as_str(), expected_version, release_date);
    push_char(&mut text, '\n');
    let new_line = bytes_of(text.as_str());
    lines.set(i, new_line);
    proof {
        assert(lines_view(lines@) =~= lv.update(
            i as int,
            released_line(template@, *expected_version, release_date@),
        ));
    }
    Ok(changes)
}

} // verus!
