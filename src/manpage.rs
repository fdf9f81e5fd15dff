//! The `.TH` header line of manual pages, which carries a date and the
//! program's name and version.
use crate::custom::{lookup, regex_captures, regex_compiles, regex_matches, LineMatcher};
use crate::discovery::strings_view;
use crate::text::{bytes_of, chars_of, push_char, push_str, string_of};
use crate::version::{parse_version, version_text, Version};
use vstd::prelude::*;
use vstd::utf8::{decode_utf8, encode_utf8, valid_utf8};

verus! {

/// The words of a shell command line as `shlex::split` reads them; `None`
/// where the quoting is not closed.
pub uninterp spec fn shell_words(s: Seq<char>) -> Option<Seq<Seq<char>>>;

/// The words quoted where needed and joined by single spaces, as
/// `shlex::try_join` writes them; `None` where a word holds a nul byte.
pub uninterp spec fn shell_joined(words: Seq<Seq<char>>) -> Option<Seq<char>>;

/// Bytes read as text, each invalid sequence replaced, as
/// `String::from_utf8_lossy` reads them.
pub uninterp spec fn lossy_text(b: Seq<u8>) -> Seq<char>;

/// Relies on `shlex::split`: the words of a command line, or `None`.
#[verifier::external_body]
fn shell_split(s: &str) -> (r: Option<Vec<String>>)
    ensures
        r is Some <==> shell_words(s@) is Some,
        r matches Some(ws) ==> shell_words(s@) == Some(strings_view(ws@)),
{
    shlex::split(s)
}

/// Relies on `shlex::try_join`: the words quoted and joined, or `None`
/// where one holds a nul byte.
#[verifier::external_body]
fn shell_join(words: &Vec<String>) -> (r: Option<String>)
    ensures
        r is Some <==> shell_joined(strings_view(words@)) is Some,
        r matches Some(s) ==> shell_joined(strings_view(words@)) == Some(s@),
{
    shlex::try_join(words.iter().map(|w| w.as_str())).ok()
}

/// Relies on `String::from_utf8_lossy`: valid UTF-8 is read as it is.
#[verifier::external_body]
fn text_lossy(b: &[u8]) -> (r: String)
    ensures
        r@ == lossy_text(b@),
        valid_utf8(b@) ==> r@ == decode_utf8(b@),
{
    String::from_utf8_lossy(b).into_owned()
}

/// Why a manual page could not be updated.
#[derive(Debug)]
pub enum Error {
    /// A pattern of this module does not compile.
    InvalidRegex,
    /// The page has no `.TH` line, or none with a version.
    NoMatches,
    /// The updated `.TH` line could not be written.
    InvalidLine,
}

impl Error {
    pub fn to_string(&self) -> String {
        match self {
            Error::InvalidRegex => "InvalidRegex".to_string(),
            Error::NoMatches => "NoMatches".to_string(),
            Error::InvalidLine => "InvalidLine".to_string(),
        }
    }
}

/// A `.TH ` header line.
pub open spec fn th_line(l: Seq<u8>) -> bool {
    l.len() >= 4 && l.subrange(0, 4) == seq![46u8, 84, 72, 32]
}

fn is_th_line(l: &Vec<u8>) -> (r: bool)
    ensures
        r == th_line(l@),
{
    if l.len() < 4 {
        return false;
    }
    let r = l[0] == 46u8 && l[1] == 84u8 && l[2] == 72u8 && l[3] == 32u8;
    assert(r == (l@.subrange(0, 4) =~= seq![46u8, 84, 72, 32]));
    r
}

/// The words of a header line, when it reads as a command line.
pub open spec fn th_words(l: Seq<u8>) -> Option<Seq<Seq<char>>> {
    shell_words(lossy_text(l))
}

/// A header line whose fifth word is a name and a version: the text after
/// its first space reads as a version.
pub open spec fn names_version(words: Seq<Seq<char>>) -> bool {
    words.len() >= 5 && exists|k: int|
        crate::text::first_char_at(words[4], ' ', k) && parse_version(
            words[4].subrange(k + 1, words[4].len() as int),
        ) is Some
}

pub open spec fn updatable_line(l: Seq<u8>) -> bool {
    th_line(l) && match th_words(l) {
        Some(ws) => names_version(ws),
        None => false,
    }
}

fn split_after_space(w: &String) -> (r: Option<String>)
    ensures
        r matches Some(t) ==> exists|k: int|
            crate::text::first_char_at(w@, ' ', k) && t@ == w@.subrange(k + 1, w@.len() as int),
        r is None ==> !w@.contains(' '),
{
    let cs = chars_of(w.as_str());
    match crate::text::find_char(&cs, 0, cs.len(), ' ') {
        Some(k) => {
            assert(cs@.subrange(0, cs@.len() as int) =~= cs@);
            Some(crate::text::string_of_range(&cs, k + 1, cs.len()))
        },
        None => {
            assert(cs@.subrange(0, cs@.len() as int) =~= cs@);
            None
        },
    }
}

proof fn lemma_first_space_unique(s: Seq<char>, i: int, j: int)
    requires
        crate::text::first_char_at(s, ' ', i),
        crate::text::first_char_at(s, ' ', j),
    ensures
        i == j,
{
    if i < j {
        assert(s[i] != ' ');
    }
    if j < i {
        assert(s[j] != ' ');
    }
}

/// Whether some `.TH` line of the page names a version that can be updated.
pub fn validate_manpage_updateable(lines: &[Vec<u8>]) -> (r: Result<(), Error>)
    ensures
        r is Ok <==> exists|i: int| 0 <= i < lines@.len() && updatable_line(#[trigger] lines@[i]@),
        r is Err ==> r matches Err(Error::NoMatches),
{
    let mut i: usize = 0;
    while i < lines.len()
        invariant
            i <= lines@.len(),
            forall|j: int| 0 <= j < i ==> !updatable_line(#[trigger] lines@[j]@),
        decreases lines@.len() - i,
    {
        if is_th_line(&lines[i]) {
            let text = text_lossy(lines[i].as_slice());
            match shell_split(text.as_str()) {
                Some(args) => {
                    if args.len() >= 5 {
                        let ghost ws = strings_view(args@);
                        assert(ws[4] == args@[4]@);
                        match split_after_space(&args[4]) {
                            Some(rest) => {
                                let ok = Version::parse(rest.as_str()).is_ok();
                                proof {
                                    let k = choose|k: int|
                                        crate::text::first_char_at(args@[4]@, ' ', k) && rest@
                                            == args@[4]@.subrange(k + 1, args@[4]@.len() as int);
                                    if !ok {
                                        assert forall|k2: int|
                                            crate::text::first_char_at(ws[4], ' ', k2) implies parse_version(
                                            ws[4].subrange(k2 + 1, ws[4].len() as int),
                                        ) is None by {
                                            lemma_first_space_unique(ws[4], k, k2);
                                        }
                                    }
                                }
                                if ok {
                                    return Ok(());
                                }
                            },
                            None => {
                                assert forall|k2: int|
                                    !crate::text::first_char_at(ws[4], ' ', k2) by {
                                    if crate::text::first_char_at(ws[4], ' ', k2) {
                                        assert(ws[4][k2] == ' ');
                                    }
                                }
                            },
                        }
                    }
                },
                None => {},
            }
        }
        i += 1;
    }
    Err(Error::NoMatches)
}

/// `20[0-9][0-9]-[0-1][0-9]-[0-3][0-9]`: a date written year first.
pub open spec fn iso_date_pattern() -> Seq<char> {
    seq![
        '2', '0', '[', '0', '-', '9', ']', '[', '0', '-', '9', ']', '-', '[', '0', '-', '1', ']',
        '[', '0', '-', '9', ']', '-', '[', '0', '-', '3', ']', '[', '0', '-', '9', ']',
    ]
}

/// `[A-Za-z]+ ([0-9]{4})`: a month name and a year.
pub open spec fn month_year_pattern() -> Seq<char> {
    seq![
        '[', 'A', '-', 'Z', 'a', '-', 'z', ']', '+', ' ', '(', '[', '0', '-', '9', ']', '{', '4',
        '}', ')',
    ]
}

/// `(?P<name>[^ ]+) ([0-9a-z.]+)`: a name, a space and a version.
pub open spec fn name_version_pattern() -> Seq<char> {
    seq![
        '(', '?', 'P', '<', 'n', 'a', 'm', 'e', '>', '[', '^', ' ', ']', '+', ')', ' ', '(', '[',
        '0', '-', '9', 'a', '-', 'z', '.', ']', '+', ')',
    ]
}

pub open spec fn name_group() -> Seq<char> {
    seq!['n', 'a', 'm', 'e']
}

/// The date word of a header line after the update.
pub open spec fn new_date_word(w: Seq<char>, iso_date: Seq<char>, month_year: Seq<char>) -> Seq<char> {
    if regex_matches(iso_date_pattern(), w) {
        iso_date
    } else if regex_matches(month_year_pattern(), w) {
        month_year
    } else {
        w
    }
}

/// The name and version word of a header line after the update: the name
/// of the first match followed by the new version.
pub open spec fn new_version_word(w: Seq<char>, version: Seq<char>) -> Seq<char> {
    let caps = regex_captures(name_version_pattern(), w);
    if caps.len() > 0 && lookup(caps[0], name_group()) is Some {
        lookup(caps[0], name_group())->0 + seq![' '] + version
    } else {
        w
    }
}

/// The words of a header line after the update.
pub open spec fn updated_words(
    ws: Seq<Seq<char>>,
    version: Seq<char>,
    iso_date: Seq<char>,
    month_year: Seq<char>,
) -> Seq<Seq<char>> {
    ws.update(3, new_date_word(ws[3], iso_date, month_year)).update(
        4,
        new_version_word(ws[4], version),
    )
}

/// A header line that the update rewrites: a `.TH` line of at least five
/// words.
pub open spec fn rewritable(l: Seq<u8>) -> bool {
    th_line(l) && match th_words(l) {
        Some(ws) => ws.len() >= 5,
        None => false,
    }
}

/// The three patterns of the header update compile.
pub open spec fn patterns_compile() -> bool {
    regex_compiles(iso_date_pattern()) && regex_compiles(month_year_pattern()) && regex_compiles(
        name_version_pattern(),
    )
}

/// The header line written again with the new version and date, as the
/// updated words joined; `None` where they cannot be joined.
pub open spec fn header_update(
    l: Seq<u8>,
    version: Seq<char>,
    iso_date: Seq<char>,
    month_year: Seq<char>,
) -> Option<Seq<char>> {
    shell_joined(updated_words(th_words(l)->0, version, iso_date, month_year))
}

/// Line `i` is the first header line that the update rewrites.
pub open spec fn first_rewritable(ls: Seq<Vec<u8>>, i: int) -> bool {
    0 <= i < ls.len() && rewritable(ls[i]@) && forall|j: int|
        0 <= j < i ==> !rewritable(#[trigger] ls[j]@)
}

fn pattern_string(cs: Vec<char>) -> (r: String)
    ensures
        r@ == cs@,
{
    string_of(&cs)
}

/// Writes `new_version` and the release date into the first `.TH` line of
/// at least five words: the fourth word becomes `iso_date` where it is a
/// year-first date, `month_year` where it is a month and a year; the fifth
/// becomes its name and the new version. A page without `.TH` line is an
/// error.
pub fn update_version_in_manpage(
    lines: &mut Vec<Vec<u8>>,
    new_version: &Version,
    iso_date: &str,
    month_year: &str,
) -> (r: Result<(), Error>)
    ensures
        (r matches Err(Error::NoMatches)) <==> forall|i: int|
            0 <= i < old(lines)@.len() ==> !th_line(#[trigger] old(lines)@[i]@),
        (r matches Err(Error::InvalidRegex)) ==> !patterns_compile(),
        r is Err ==> final(lines)@ == old(lines)@,
        r is Ok ==> (forall|i: int|
            0 <= i < old(lines)@.len() ==> !rewritable(#[trigger] old(lines)@[i]@))
            ==> final(lines)@ == old(lines)@,
        forall|i: int|
            #[trigger] first_rewritable(old(lines)@, i) ==> {
                &&& patterns_compile() && header_update(
                    old(lines)@[i]@,
                    version_text(*new_version),
                    iso_date@,
                    month_year@,
                ) is Some ==> r is Ok
                &&& (r matches Err(Error::InvalidLine)) ==> header_update(
                    old(lines)@[i]@,
                    version_text(*new_version),
                    iso_date@,
                    month_year@,
                ) is None
                &&& r is Ok ==> {
                    &&& final(lines)@.len() == old(lines)@.len()
                    &&& forall|j: int|
                        0 <= j < old(lines)@.len() && j != i ==> #[trigger] final(lines)@[j]
                            == old(lines)@[j]
                    &&& final(lines)@[i]@ == encode_utf8(
                        header_update(
                            old(lines)@[i]@,
                            version_text(*new_version),
                            iso_date@,
                            month_year@,
                        )->0,
                    )
                }
            },
        (r matches Err(Error::InvalidLine)) ==> exists|i: int| #[trigger] first_rewritable(old(lines)@, i),
{
    let mut any_th = false;
    let mut i: usize = 0;
    while i < lines.len()
        invariant
            lines@ == old(lines)@,
            i <= lines@.len(),
            any_th <==> exists|j: int| 0 <= j < i && th_line(#[trigger] lines@[j]@),
            forall|j: int| 0 <= j < i ==> !rewritable(#[trigger] lines@[j]@),
        decreases lines@.len() - i,
    {
        if is_th_line(&lines[i]) {
            any_th = true;
            let text = text_lossy(lines[i].as_slice());
            match shell_split(text.as_str()) {
                Some(args) => {
                    if args.len() >= 5 {
                        assert(rewritable(old(lines)@[i as int]@));
                        assert(th_line(old(lines)@[i as int]@));
                        assert(first_rewritable(old(lines)@, i as int));
                        return rewrite_th(lines, i, args, new_version, iso_date, month_year);
                    }
                },
                None => {},
            }
        }
        i += 1;
    }
    if !any_th {
        return Err(Error::NoMatches);
    }
    Ok(())
}

fn rewrite_th(
    lines: &mut Vec<Vec<u8>>,
    i: usize,
    args: Vec<String>,
    new_version: &Version,
    iso_date: &str,
    month_year: &str,
) -> (r: Result<(), Error>)
    requires
        i < old(lines)@.len(),
        th_line(old(lines)@[i as int]@),
        th_words(old(lines)@[i as int]@) == Some(strings_view(args@)),
        args@.len() >= 5,
        forall|j: int| 0 <= j < i ==> !rewritable(#[trigger] old(lines)@[j]@),
    ensures
        !(r matches Err(Error::NoMatches)),
        (r matches Err(Error::InvalidRegex)) <==> !patterns_compile(),
        (r matches Err(Error::InvalidLine)) ==> header_update(
            old(lines)@[i as int]@,
            version_text(*new_version),
            iso_date@,
            month_year@,
        ) is None,
        patterns_compile() && header_update(
            old(lines)@[i as int]@,
            version_text(*new_version),
            iso_date@,
            month_year@,
        ) is Some ==> r is Ok,
        r is Err ==> final(lines)@ == old(lines)@,
        r is Ok ==> {
            &&& final(lines)@.len() == old(lines)@.len()
            &&& forall|j: int|
                0 <= j < old(lines)@.len() && j != i ==> #[trigger] final(lines)@[j]
                    == old(lines)@[j]
            &&& final(lines)@[i as int]@ == encode_utf8(
                header_update(
                    old(lines)@[i as int]@,
                    version_text(*new_version),
                    iso_date@,
                    month_year@,
                )->0,
            )
        },
{
    let iso_pat = pattern_string(
        vec![
            '2', '0', '[', '0', '-', '9', ']', '[', '0', '-', '9', ']', '-', '[', '0', '-', '1', ']',
            '[', '0', '-', '9', ']', '-', '[', '0', '-', '3', ']', '[', '0', '-', '9', ']',
        ],
    );
    let month_pat = pattern_string(
        vec![
            '[', 'A', '-', 'Z', 'a', '-', 'z', ']', '+', ' ', '(', '[', '0', '-', '9', ']', '{', '4',
            '}', ')',
        ],
    );
    let name_pat = pattern_string(
        vec![
            '(', '?', 'P', '<', 'n', 'a', 'm', 'e', '>', '[', '^', ' ', ']', '+', ')', ' ', '(', '[',
            '0', '-', '9', 'a', '-', 'z', '.', ']', '+', ')',
        ],
    );
    assert(iso_pat@ =~= iso_date_pattern());
    assert(month_pat@ =~= month_year_pattern());
    assert(name_pat@ =~= name_version_pattern());
    let iso_re = match LineMatcher::new(iso_pat.as_str()) {
        Some(m) => m,
        None => return Err(Error::InvalidRegex),
    };
    let month_re = match LineMatcher::new(month_pat.as_str()) {
        Some(m) => m,
        None => return Err(Error::InvalidRegex),
    };
    let name_re = match LineMatcher::new(name_pat.as_str()) {
        Some(m) => m,
        None => return Err(Error::InvalidRegex),
    };
    let ghost ws = strings_view(args@);
    assert(ws[3] == args@[3]@ && ws[4] == args@[4]@);
    let date_word = if iso_re.is_match(args[3].as_str()) {
        iso_date.to_owned()
    } else if month_re.is_match(args[3].as_str()) {
        month_year.to_owned()
    } else {
        args[3].clone()
    };
    let group = string_of(&vec!['n', 'a', 'm', 'e']);
    assert(group@ =~= name_group());
    let names = name_re.group_texts(args[4].as_str(), group.as_str());
    let version_word = if names.len() > 0 && names[0].is_some() {
        let mut w = match &names[0] {
            Some(n) => n.clone(),
            None => String::new(),
        };
        push_char(&mut w, ' ');
        push_str(&mut w, new_version.to_string().as_str());
        w
    } else {
        args[4].clone()
    };
    assert(date_word@ == new_date_word(ws[3], iso_date@, month_year@));
    assert(version_word@ == new_version_word(ws[4], version_text(*new_version)));
    let mut new_args: Vec<String> = Vec::new();
    let mut k: usize = 0;
    while k < args.len()
        invariant
            k <= args@.len(),
            args@.len() >= 5,
            new_args@.len() == k,
            forall|j: int|
                0 <= j < k ==> (#[trigger] new_args@[j])@ == (if j == 3 {
                    date_word@
                } else if j == 4 {
                    version_word@
                } else {
                    args@[j]@
                }),
        decreases args@.len() - k,
    {
        if k == 3 {
            new_args.push(date_word.clone());
        } else if k == 4 {
            new_args.push(version_word.clone());
        } else {
            new_args.push(args[k].clone());
        }
        k += 1;
    }
    proof {
        let want = updated_words(ws, version_text(*new_version), iso_date@, month_year@);
        assert(strings_view(new_args@) =~= want);
    }
    let joined = match shell_join(&new_args) {
        Some(j) => j,
        None => return Err(Error::InvalidLine),
    };
    let new_line = bytes_of(joined.as_str());
    proof {
        vstd::utf8::encode_utf8_decode_utf8(joined@);
    }
    lines.set(i, new_line);
    Ok(())
}

} // verus!
