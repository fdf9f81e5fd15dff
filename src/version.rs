use crate::text::{
    canonical_digits, chars_of, digits_value, int_text, is_digit, lemma_canonical_decimal,
    lemma_digits_nonneg, lemma_split_nonempty, parse_i32, parse_i32_spec, push_char, push_i32, push_str,
    split_bounds, split_on, string_of, sub_vec, trim, trim_bounds,
};
use vstd::prelude::*;

verus! {

/// Whether a discovered version is a finished release or a development state.
#[derive(Debug, Clone, Copy, PartialEq, Eq, Structural, Hash)]
pub enum Status {
    Final,
    Dev,
}

/// A dotted numeric version: a major number and optional minor and micro
/// numbers.
#[derive(Debug, Clone, PartialEq, Eq, Structural, PartialOrd, Ord, Hash)]
pub struct Version {
    pub major: i32,
    pub minor: Option<i32>,
    pub micro: Option<i32>,
}

/// `a < b` on optional components, an absent one below any present one.
pub open spec fn opt_lt(a: Option<i32>, b: Option<i32>) -> bool {
    match (a, b) {
        (None, Some(_)) => true,
        (Some(x), Some(y)) => x < y,
        _ => false,
    }
}

/// The order of versions: by major, then minor, then micro, an absent
/// component sorting below a present one.
pub open spec fn version_lt(a: Version, b: Version) -> bool {
    ||| a.major < b.major
    ||| (a.major == b.major && opt_lt(a.minor, b.minor))
    ||| (a.major == b.major && a.minor == b.minor && opt_lt(a.micro, b.micro))
}

/// The indexes that `increase_version` accepts: 0, 1 and 2 name a component,
/// -1 the rightmost one present.
pub open spec fn valid_index(idx: int) -> bool {
    idx == -1 || idx == 0 || idx == 1 || idx == 2
}

/// An optional component raised by one; an absent one becomes 1.
pub open spec fn bump(c: Option<i32>) -> Option<i32> {
    match c {
        Some(x) => Some((x + 1) as i32),
        None => Some(1i32),
    }
}

/// Whether raising the component at `idx` stays within `i32`.
pub open spec fn can_increase(v: Version, idx: int) -> bool {
    if idx == 0 {
        v.major < i32::MAX
    } else if idx == 1 {
        v.minor matches Some(x) ==> x < i32::MAX
    } else if idx == 2 {
        v.micro matches Some(x) ==> x < i32::MAX
    } else {
        match (v.minor, v.micro) {
            (_, Some(x)) => x < i32::MAX,
            (Some(x), None) => x < i32::MAX,
            (None, None) => v.major < i32::MAX,
        }
    }
}

/// The version after raising the component at `idx`.
pub open spec fn increased(v: Version, idx: int) -> Version {
    if idx == 0 {
        Version { major: (v.major + 1) as i32, ..v }
    } else if idx == 1 {
        Version { minor: bump(v.minor), ..v }
    } else if idx == 2 {
        Version { micro: bump(v.micro), ..v }
    } else if v.micro is Some {
        Version { micro: bump(v.micro), ..v }
    } else if v.minor is Some {
        Version { minor: bump(v.minor), ..v }
    } else {
        Version { major: (v.major + 1) as i32, ..v }
    }
}

fn bump_component(c: Option<i32>) -> (r: Option<i32>)
    requires
        c matches Some(x) ==> x < i32::MAX,
    ensures
        r == bump(c),
{
    match c {
        Some(x) => Some(x + 1),
        None => Some(1),
    }
}

/// Raises one component of `version`: 0 the major, 1 the minor, 2 the micro
/// number, -1 the rightmost one present. An absent component becomes 1.
pub fn increase_version(version: &mut Version, idx: isize)
    requires
        valid_index(idx as int),
        can_increase(*old(version), idx as int),
    ensures
        *final(version) == increased(*old(version), idx as int),
{
    if idx == 0 {
        version.major = version.major + 1;
    } else if idx == 1 {
        version.minor = bump_component(version.minor);
    } else if idx == 2 {
        version.micro = bump_component(version.micro);
    } else if version.micro.is_some() {
        version.micro = bump_component(version.micro);
    } else if version.minor.is_some() {
        version.minor = bump_component(version.minor);
    } else {
        version.major = version.major + 1;
    }
}

/// Raising any component gives a strictly greater version.
pub proof fn lemma_increase_is_greater(v: Version, idx: int)
    requires
        valid_index(idx),
        can_increase(v, idx),
    ensures
        version_lt(v, increased(v, idx)),
{
}

/// An error from reading a version.
#[derive(Debug)]
pub struct Error(pub String);

impl Error {
    /// The message of the error.
    pub fn to_string(&self) -> (r: String)
        ensures
            r@ == self.0@,
    {
        self.0.clone()
    }
}

fn error_with(msg: &str, text: &str) -> (e: Error) {
    let mut m = msg.to_string();
    push_str(&mut m, ": ");
    push_str(&mut m, text);
    Error(m)
}

/// The version that a dotted string writes: a major number, then an
/// optional minor and micro number; further pieces are not read.
pub open spec fn parse_version(s: Seq<char>) -> Option<Version> {
    let p = split_on(s, '.');
    if parse_i32_spec(p[0]) is None {
        None
    } else if p.len() > 1 && parse_i32_spec(p[1]) is None {
        None
    } else if p.len() > 2 && parse_i32_spec(p[2]) is None {
        None
    } else {
        Some(
            Version {
                major: parse_i32_spec(p[0])->0,
                minor: if p.len() > 1 {
                    parse_i32_spec(p[1])
                } else {
                    None
                },
                micro: if p.len() > 2 {
                    parse_i32_spec(p[2])
                } else {
                    None
                },
            },
        )
    }
}

/// The text of an optional component: a dot and the number, or nothing.
pub open spec fn component_text(c: Option<i32>) -> Seq<char> {
    match c {
        Some(x) => seq!['.'] + int_text(x as int),
        None => Seq::<char>::empty(),
    }
}

/// The text of a version: its present components joined by dots.
pub open spec fn version_text(v: Version) -> Seq<char> {
    int_text(v.major as int) + component_text(v.minor) + component_text(v.micro)
}

/// A version as reading produces it: a micro number only beside a minor one.
pub open spec fn well_shaped(v: Version) -> bool {
    v.micro is Some ==> v.minor is Some
}

/// The text of a status.
pub open spec fn status_text(s: Status) -> Seq<char> {
    match s {
        Status::Final => seq!['f', 'i', 'n', 'a', 'l'],
        Status::Dev => seq!['d', 'e', 'v'],
    }
}

impl Status {
    /// The name of the status: `final` or `dev`.
    pub fn to_string(&self) -> (r: String)
        ensures
            r@ == status_text(*self),
    {
        match self {
            Status::Final => string_of(&vec!['f', 'i', 'n', 'a', 'l']),
            Status::Dev => string_of(&vec!['d', 'e', 'v']),
        }
    }

    /// The status that `s` names, if it names one.
    pub fn parse(s: &str) -> (r: Option<Status>)
        ensures
            r matches Some(st) ==> s@ == status_text(st),
            r is None ==> s@ != status_text(Status::Final) && s@ != status_text(Status::Dev),
    {
        let cs = chars_of(s);
        if range_eq(&cs, 0, cs.len(), &vec!['f', 'i', 'n', 'a', 'l']) {
            assert(cs@.subrange(0, cs@.len() as int) =~= cs@);
            Some(Status::Final)
        } else if range_eq(&cs, 0, cs.len(), &vec!['d', 'e', 'v']) {
            assert(cs@.subrange(0, cs@.len() as int) =~= cs@);
            Some(Status::Dev)
        } else {
            assert(cs@.subrange(0, cs@.len() as int) =~= cs@);
            None
        }
    }
}

impl std::str::FromStr for Status {
    type Err = String;

    fn from_str(s: &str) -> Result<Status, String> {
        match Status::parse(s) {
            Some(st) => Ok(st),
            None => {
                let mut m = "invalid status: ".to_string();
                push_str(&mut m, s);
                Err(m)
            },
        }
    }
}

/// Whether `s[lo..hi]` holds the characters of `t`.
pub fn range_eq(s: &Vec<char>, lo: usize, hi: usize, t: &Vec<char>) -> (r: bool)
    requires
        lo <= hi <= s@.len(),
    ensures
        r == (s@.subrange(lo as int, hi as int) == t@),
{
    if hi - lo != t.len() {
        return false;
    }
    let mut j: usize = 0;
    while j < t.len()
        invariant
            lo <= hi <= s@.len(),
            hi - lo == t@.len(),
            j <= t@.len(),
            forall|k: int| 0 <= k < j ==> s@[lo + k] == t@[k],
        decreases t@.len() - j,
    {
        if s[lo + j] != t[j] {
            assert(s@.subrange(lo as int, hi as int)[j as int] != t@[j as int]);
            return false;
        }
        j += 1;
    }
    assert(s@.subrange(lo as int, hi as int) =~= t@);
    true
}

impl Version {
    pub fn major(&self) -> (r: i32)
        ensures
            r == self.major,
    {
        self.major
    }

    pub fn minor(&self) -> (r: Option<i32>)
        ensures
            r == self.minor,
    {
        self.minor
    }

    pub fn micro(&self) -> (r: Option<i32>)
        ensures
            r == self.micro,
    {
        self.micro
    }

    /// Reads a dotted version such as `1.2.3`. Every piece that is read must
    /// be a decimal `i32`; pieces after the third are not read.
    pub fn parse(s: &str) -> (r: Result<Version, Error>)
        ensures
            r is Ok <==> parse_version(s@) is Some,
            r matches Ok(v) ==> parse_version(s@) == Some(v),
    {
        let cs = chars_of(s);
        let parts = split_bounds(&cs, '.');
        proof {
            lemma_split_nonempty(s@, '.');
        }
        let ghost p = split_on(s@, '.');
        let major = match parse_i32(&cs, parts[0].0, parts[0].1) {
            Some(m) => m,
            None => return Err(error_with("invalid major version", s)),
        };
        let minor = if parts.len() > 1 {
            match parse_i32(&cs, parts[1].0, parts[1].1) {
                Some(m) => Some(m),
                None => return Err(error_with("invalid minor version", s)),
            }
        } else {
            None
        };
        let micro = if parts.len() > 2 {
            match parse_i32(&cs, parts[2].0, parts[2].1) {
                Some(m) => Some(m),
                None => return Err(error_with("invalid micro version", s)),
            }
        } else {
            None
        };
        Ok(Version { major, minor, micro })
    }

    /// The text of the version: its present components joined by dots.
    pub fn to_string(&self) -> (r: String)
        ensures
            r@ == version_text(*self),
    {
        let mut s = String::new();
        push_i32(&mut s, self.major);
        if let Some(minor) = self.minor {
            push_char(&mut s, '.');
            push_i32(&mut s, minor);
        }
        if let Some(micro) = self.micro {
            push_char(&mut s, '.');
            push_i32(&mut s, micro);
        }
        assert(s@ =~= version_text(*self));
        s
    }
}

impl std::str::FromStr for Version {
    type Err = Error;

    fn from_str(s: &str) -> Result<Version, Error> {
        Version::parse(s)
    }
}

/// The text of `s` as written by the dotted form of numbers: one to three
/// canonical decimal numbers, each within `i32`, joined by dots.
pub open spec fn is_dotted_version(s: Seq<char>) -> bool {
    let p = split_on(s, '.');
    &&& 1 <= p.len() <= 3
    &&& forall|k: int|
        0 <= k < p.len() ==> canonical_digits(#[trigger] p[k]) && digits_value(p[k])
            <= i32::MAX
}

proof fn lemma_canonical_parse(t: Seq<char>)
    requires
        canonical_digits(t),
        digits_value(t) <= i32::MAX,
    ensures
        parse_i32_spec(t) == Some(digits_value(t) as i32),
        int_text(digits_value(t)) == t,
{
    lemma_canonical_decimal(t);
    assert(is_digit(t[0]));
    lemma_digits_nonneg(t);
}

/// Writing a version read from a dotted string gives the string back.
pub proof fn lemma_version_text_round_trip(s: Seq<char>)
    requires
        is_dotted_version(s),
    ensures
        parse_version(s) matches Some(v) && version_text(v) == s,
{
    let p = split_on(s, '.');
    assert(canonical_digits(p[0]) && digits_value(p[0]) <= i32::MAX);
    lemma_canonical_parse(p[0]);
    if p.len() > 1 {
        assert(canonical_digits(p[1]) && digits_value(p[1]) <= i32::MAX);
        lemma_canonical_parse(p[1]);
    }
    if p.len() > 2 {
        assert(canonical_digits(p[2]) && digits_value(p[2]) <= i32::MAX);
        lemma_canonical_parse(p[2]);
    }
    let v = parse_version(s)->0;
    lemma_split_pieces(s, '.');
    if p.len() == 1 {
        assert(version_text(v) =~= p[0]);
    } else if p.len() == 2 {
        assert(version_text(v) =~= p[0] + seq!['.'] + p[1]);
    } else {
        assert(version_text(v) =~= p[0] + seq!['.'] + p[1] + seq!['.'] + p[2]);
    }
}

/// The pieces of a split joined back with the separator give the string.
pub open spec fn join_with(p: Seq<Seq<char>>, c: char) -> Seq<char>
    decreases p.len(),
{
    if p.len() <= 1 {
        if p.len() == 1 {
            p[0]
        } else {
            Seq::<char>::empty()
        }
    } else {
        join_with(p.drop_last(), c) + seq![c] + p.last()
    }
}

proof fn lemma_split_pieces(s: Seq<char>, c: char)
    ensures
        join_with(split_on(s, c), c) == s,
        split_on(s, c).len() == 1 ==> split_on(s, c)[0] == s,
        split_on(s, c).len() == 2 ==> s == split_on(s, c)[0] + seq![c] + split_on(s, c)[1],
        split_on(s, c).len() == 3 ==> s == split_on(s, c)[0] + seq![c] + split_on(s, c)[1]
            + seq![c] + split_on(s, c)[2],
{
    lemma_split_join_all(s, c);
    let p = split_on(s, c);
    if p.len() == 2 {
        assert(join_with(p.drop_last(), c) == p.drop_last()[0]);
        assert(join_with(p, c) == join_with(p.drop_last(), c) + seq![c] + p.last());
    }
    if p.len() == 3 {
        let q = p.drop_last();
        assert(join_with(q.drop_last(), c) == q.drop_last()[0]);
        assert(join_with(q, c) == join_with(q.drop_last(), c) + seq![c] + q.last());
        assert(join_with(p, c) == join_with(q, c) + seq![c] + p.last());
    }
}

proof fn lemma_split_join_all(s: Seq<char>, c: char)
    ensures
        join_with(split_on(s, c), c) == s,
    decreases s.len(),
{
    lemma_split_nonempty(s, c);
    if s.len() > 0 {
        let q = s.drop_last();
        let x = s.last();
        lemma_split_join_all(q, c);
        lemma_split_nonempty(q, c);
        let r = split_on(q, c);
        let r2 = split_on(s, c);
        if x == c {
            assert(r2.drop_last() =~= r);
            assert(s =~= q + seq![c] + Seq::<char>::empty());
        } else if r.len() == 1 {
            assert(r2.len() == 1);
            assert(r2[0] =~= r[0].push(x));
            assert(s =~= q.push(x));
        } else {
            assert(r2.drop_last() =~= r.drop_last());
            assert(r2.last() =~= r.last().push(x));
            let a = join_with(r.drop_last(), c);
            assert(join_with(r, c) == a + seq![c] + r.last());
            assert(join_with(r2, c) == a + seq![c] + r.last().push(x));
            assert(a + seq![c] + r.last().push(x) =~= (a + seq![c] + r.last()).push(x));
            assert(s =~= q.push(x));
        }
    }
}

/// `s` with any number of enclosing parenthesis pairs taken off.
pub open spec fn strip_parens(s: Seq<char>) -> Seq<char>
    decreases s.len(),
{
    if s.len() >= 2 && s[0] == '(' && s.last() == ')' {
        strip_parens(s.subrange(1, s.len() - 1))
    } else {
        s
    }
}

pub open spec fn quoted(q: char, w: Seq<char>) -> Seq<char> {
    seq![q] + w + seq![q]
}

/// The status that a token names: `dev` or `final`, bare or inside double
/// or single quotes.
pub open spec fn status_token(t: Seq<char>) -> Option<Status> {
    if t == status_text(Status::Dev) || t == quoted('"', status_text(Status::Dev)) || t == quoted(
        '\'',
        status_text(Status::Dev),
    ) {
        Some(Status::Dev)
    } else if t == status_text(Status::Final) || t == quoted('"', status_text(Status::Final))
        || t == quoted('\'', status_text(Status::Final)) {
        Some(Status::Final)
    } else {
        None
    }
}

/// The version and status that a tupled text such as `(1, 2, 3, "dev", 0)`
/// writes: up to five comma-separated fields inside optional parentheses,
/// the fourth a status token and the fifth not read.
pub open spec fn parse_tupled(s: Seq<char>) -> Option<(Version, Option<Status>)> {
    let p = split_on(strip_parens(s), ',');
    if p.len() > 5 {
        None
    } else if parse_i32_spec(trim(p[0])) is None {
        None
    } else if p.len() > 1 && parse_i32_spec(trim(p[1])) is None {
        None
    } else if p.len() > 2 && parse_i32_spec(trim(p[2])) is None {
        None
    } else if p.len() > 3 && status_token(trim(p[3])) is None {
        None
    } else {
        Some(
            (
                Version {
                    major: parse_i32_spec(trim(p[0]))->0,
                    minor: if p.len() > 1 {
                        parse_i32_spec(trim(p[1]))
                    } else {
                        None
                    },
                    micro: if p.len() > 2 {
                        parse_i32_spec(trim(p[2]))
                    } else {
                        None
                    },
                },
                if p.len() > 3 {
                    status_token(trim(p[3]))
                } else {
                    None
                },
            ),
        )
    }
}

fn parse_field(cs: &Vec<char>, b: (usize, usize)) -> (r: Option<i32>)
    requires
        b.0 <= b.1 <= cs@.len(),
    ensures
        r == parse_i32_spec(trim(cs@.subrange(b.0 as int, b.1 as int))),
{
    let (lo, hi) = trim_bounds(cs, b.0, b.1);
    parse_i32(cs, lo, hi)
}

fn status_field(cs: &Vec<char>, b: (usize, usize)) -> (r: Option<Status>)
    requires
        b.0 <= b.1 <= cs@.len(),
    ensures
        r == status_token(trim(cs@.subrange(b.0 as int, b.1 as int))),
{
    let (lo, hi) = trim_bounds(cs, b.0, b.1);
    proof {
        assert(status_text(Status::Dev) =~= seq!['d', 'e', 'v']);
        assert(quoted('"', status_text(Status::Dev)) =~= seq!['"', 'd', 'e', 'v', '"']);
        assert(quoted('\'', status_text(Status::Dev)) =~= seq!['\'', 'd', 'e', 'v', '\'']);
        assert(status_text(Status::Final) =~= seq!['f', 'i', 'n', 'a', 'l']);
        assert(quoted('"', status_text(Status::Final)) =~= seq!['"', 'f', 'i', 'n', 'a', 'l', '"']);
        assert(quoted('\'', status_text(Status::Final)) =~= seq![
            '\'',
            'f',
            'i',
            'n',
            'a',
            'l',
            '\'',
        ]);
    }
    if range_eq(cs, lo, hi, &vec!['d', 'e', 'v']) || range_eq(cs, lo, hi, &vec!['"', 'd', 'e', 'v', '"'])
        || range_eq(cs, lo, hi, &vec!['\'', 'd', 'e', 'v', '\'']) {
        Some(Status::Dev)
    } else if range_eq(cs, lo, hi, &vec!['f', 'i', 'n', 'a', 'l']) || range_eq(
        cs,
        lo,
        hi,
        &vec!['"', 'f', 'i', 'n', 'a', 'l', '"'],
    ) || range_eq(cs, lo, hi, &vec!['\'', 'f', 'i', 'n', 'a', 'l', '\'']) {
        Some(Status::Final)
    } else {
        None
    }
}

impl Version {
    /// Reads a tupled version such as `(1, 2, 3, "dev", 0)`: up to five
    /// comma-separated fields inside optional parentheses. The first three
    /// are the numbers, the fourth a status, quoted or bare, the fifth is not
    /// read.
    pub fn from_tupled(text: &str) -> (r: Result<(Version, Option<Status>), Error>)
        ensures
            r is Ok <==> parse_tupled(text@) is Some,
            r matches Ok(t) ==> parse_tupled(text@) == Some(t),
    {
        let cs = chars_of(text);
        let mut lo: usize = 0;
        let mut hi: usize = cs.len();
        assert(cs@.subrange(0, cs@.len() as int) =~= cs@);
        while hi - lo >= 2 && cs[lo] == '(' && cs[hi - 1] == ')'
            invariant
                lo <= hi <= cs@.len(),
                cs@ == text@,
                strip_parens(text@) == strip_parens(cs@.subrange(lo as int, hi as int)),
            decreases hi - lo,
        {
            assert(cs@.subrange(lo as int, hi as int).subrange(1, (hi - lo) - 1) =~= cs@.subrange(
                lo + 1,
                hi - 1,
            ));
            lo += 1;
            hi -= 1;
        }
        let inner = sub_vec(&cs, lo, hi);
        let parts = split_bounds(&inner, ',');
        proof {
            lemma_split_nonempty(inner@, ',');
        }
        if parts.len() > 5 {
            return Err(error_with("invalid version", text));
        }
        let major = match parse_field(&inner, parts[0]) {
            Some(m) => m,
            None => return Err(error_with("invalid major version", text)),
        };
        let minor = if parts.len() > 1 {
            match parse_field(&inner, parts[1]) {
                Some(m) => Some(m),
                None => return Err(error_with("invalid minor version", text)),
            }
        } else {
            None
        };
        let micro = if parts.len() > 2 {
            match parse_field(&inner, parts[2]) {
                Some(m) => Some(m),
                None => return Err(error_with("invalid micro version", text)),
            }
        } else {
            None
        };
        let status = if parts.len() > 3 {
            match status_field(&inner, parts[3]) {
                Some(st) => Some(st),
                None => return Err(error_with("invalid status", text)),
            }
        } else {
            None
        };
        Ok((Version { major, minor, micro }, status))
    }
}

} // verus!
