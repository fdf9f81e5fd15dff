//! Tag names: a version written into a template at `$VERSION`, and read back.
use crate::text::{
    canonical_digits, chars_of, contains, decimal, find, is_digit, lemma_decimal_value,
    lemma_replace_none, occurs_at, replace_all, replace_all_exec, split_on, string_of, sub_vec,
};
use crate::version::{parse_version, version_text, well_shaped, Error, Version};
use vstd::prelude::*;

verus! {

/// The placeholder that a tag template holds where the version goes.
pub open spec fn version_var() -> Seq<char> {
    seq!['$', 'V', 'E', 'R', 'S', 'I', 'O', 'N']
}

pub(crate) fn version_var_exec() -> (r: Vec<char>)
    ensures
        r@ == version_var(),
{
    let r = vec!['$', 'V', 'E', 'R', 'S', 'I', 'O', 'N'];
    assert(r@ =~= version_var());
    r
}

/// The tag name for `v`: the template with each `$VERSION` replaced by the
/// version's text.
pub open spec fn tag_name(template: Seq<char>, v: Version) -> Seq<char> {
    replace_all(template, version_var(), version_text(v))
}

/// Whether `pat` first occurs in `s` at index `i`.
pub open spec fn first_occurrence(s: Seq<char>, pat: Seq<char>, i: int) -> bool {
    occurs_at(s, pat, i) && forall|j: int| 0 <= j < i ==> !occurs_at(s, pat, j)
}

/// The text that stands in `tag` where the template's first `$VERSION`
/// stands: the tag must begin with the template's text before it and end
/// with the template's text after it.
pub open spec fn tag_version_text(template: Seq<char>, tag: Seq<char>) -> Option<Seq<char>> {
    if exists|i: int| first_occurrence(template, version_var(), i) {
        let i = choose|i: int| first_occurrence(template, version_var(), i);
        let pre = template.subrange(0, i);
        let post = template.subrange(i + 8, template.len() as int);
        if tag.len() >= pre.len() + post.len() && tag.subrange(0, pre.len() as int) == pre
            && tag.subrange(tag.len() - post.len(), tag.len() as int) == post {
            Some(tag.subrange(pre.len() as int, tag.len() - post.len()))
        } else {
            None
        }
    } else {
        None
    }
}

/// Why a tag could not be read as a version.
#[derive(Debug)]
pub enum UnexpandError {
    /// The tag does not have the template's shape.
    TagMismatch,
    /// The text in the version's place is not a version.
    InvalidVersion(Error),
}

/// The tag name for `version` under `tag_template`.
pub fn expand_tag(tag_template: &str, version: &Version) -> (r: String)
    ensures
        r@ == tag_name(tag_template@, *version),
{
    let t = chars_of(tag_template);
    let v = chars_of(version.to_string().as_str());
    let out = replace_all_exec(&t, &version_var_exec(), &v);
    string_of(&out)
}

proof fn lemma_first_unique(s: Seq<char>, pat: Seq<char>, i: int, j: int)
    requires
        first_occurrence(s, pat, i),
        first_occurrence(s, pat, j),
    ensures
        i == j,
{
}

/// Reads the version out of a tag made from `tag_template`.
pub fn unexpand_tag(tag_template: &str, tag: &str) -> (r: Result<Version, UnexpandError>)
    ensures
        r matches Err(UnexpandError::TagMismatch) <==> tag_version_text(tag_template@, tag@) is None,
        r matches Err(UnexpandError::InvalidVersion(_)) <==> (tag_version_text(tag_template@, tag@) matches Some(x) && parse_version(x) is None),
        r matches Ok(v) ==> (tag_version_text(tag_template@, tag@) matches Some(x) && parse_version(x) == Some(v)),
{
    let t = chars_of(tag_template);
    let g = chars_of(tag);
    let var = version_var_exec();
    let i = match find(&t, &var) {
        Some(i) => i,
        None => {
            assert(!exists|i: int| first_occurrence(t@, version_var(), i));
            return Err(UnexpandError::TagMismatch);
        },
    };
    proof {
        assert(first_occurrence(t@, version_var(), i as int));
        let k = choose|k: int| first_occurrence(t@, version_var(), k);
        lemma_first_unique(t@, version_var(), i as int, k);
    }
    let pre_len = i;
    let post_len = t.len() - i - 8;
    if g.len() < pre_len || g.len() - pre_len < post_len {
        return Err(UnexpandError::TagMismatch);
    }
    let pre = sub_vec(&t, 0, i);
    let post = sub_vec(&t, i + 8, t.len());
    let tag_pre = sub_vec(&g, 0, pre_len);
    let tag_post = sub_vec(&g, g.len() - post_len, g.len());
    if !crate::version::range_eq(&tag_pre, 0, tag_pre.len(), &pre) {
        assert(tag_pre@.subrange(0, tag_pre@.len() as int) =~= tag_pre@);
        return Err(UnexpandError::TagMismatch);
    }
    if !crate::version::range_eq(&tag_post, 0, tag_post.len(), &post) {
        assert(tag_post@.subrange(0, tag_post@.len() as int) =~= tag_post@);
        return Err(UnexpandError::TagMismatch);
    }
    assert(tag_pre@.subrange(0, tag_pre@.len() as int) =~= tag_pre@);
    assert(tag_post@.subrange(0, tag_post@.len() as int) =~= tag_post@);
    let middle = string_of(&sub_vec(&g, pre_len, g.len() - post_len));
    match Version::parse(middle.as_str()) {
        Ok(v) => Ok(v),
        Err(e) => Err(UnexpandError::InvalidVersion(e)),
    }
}

// ---------------------------------------------------------------------------
// The round trip of a tag
// ---------------------------------------------------------------------------

proof fn lemma_replace_first(s: Seq<char>, pat: Seq<char>, rep: Seq<char>, i: int)
    requires
        pat.len() > 0,
        first_occurrence(s, pat, i),
    ensures
        replace_all(s, pat, rep) == s.subrange(0, i) + rep + replace_all(
            s.subrange(i + pat.len(), s.len() as int),
            pat,
            rep,
        ),
    decreases i,
{
    if i == 0 {
        assert(s.subrange(0, 0) + rep =~= rep);
    } else {
        let t = s.drop_first();
        assert(!occurs_at(s, pat, 0));
        assert forall|j: int| 0 <= j < i - 1 implies !occurs_at(t, pat, j) by {
            if occurs_at(t, pat, j) {
                assert(s.subrange(j + 1, j + 1 + pat.len()) =~= t.subrange(j, j + pat.len()));
                assert(occurs_at(s, pat, j + 1));
            }
        }
        assert(s.subrange(i, i + pat.len()) =~= t.subrange(i - 1, i - 1 + pat.len()));
        lemma_replace_first(t, pat, rep, i - 1);
        assert(t.subrange(i - 1 + pat.len(), t.len() as int) =~= s.subrange(
            i + pat.len(),
            s.len() as int,
        ));
        assert(seq![s[0]] + t.subrange(0, i - 1) =~= s.subrange(0, i));
        assert(seq![s[0]] + (t.subrange(0, i - 1) + rep + replace_all(
            s.subrange(i + pat.len(), s.len() as int),
            pat,
            rep,
        )) =~= s.subrange(0, i) + rep + replace_all(
            s.subrange(i + pat.len(), s.len() as int),
            pat,
            rep,
        ));
    }
}

/// A template in which `$VERSION` stands exactly once.
pub open spec fn single_placeholder(template: Seq<char>) -> bool {
    exists|i: int|
        occurs_at(template, version_var(), i) && forall|j: int|
            j != i ==> !occurs_at(template, version_var(), j)
}

proof fn lemma_int_text_no_dot(n: int)
    ensures
        !int_text_has_dot(n),
{
    if n < 0 {
        lemma_decimal_value((-n) as nat);
        let d = decimal((-n) as nat);
        assert(canonical_digits(d));
        assert forall|k: int| 0 <= k < (seq!['-'] + d).len() implies (seq!['-'] + d)[k] != '.' by {
            if k > 0 {
                assert((seq!['-'] + d)[k] == d[k - 1]);
                assert(is_digit(d[k - 1]));
            }
        }
    } else {
        lemma_decimal_value(n as nat);
        let d = decimal(n as nat);
        assert forall|k: int| 0 <= k < d.len() implies d[k] != '.' by {
            assert(is_digit(d[k]));
        }
    }
}

pub open spec fn int_text_has_dot(n: int) -> bool {
    crate::text::int_text(n).contains('.')
}

proof fn lemma_split_join(a: Seq<char>, b: Seq<char>, c: char)
    requires
        !a.contains(c),
    ensures
        split_on(a, c) == seq![a],
        split_on(b + seq![c] + a, c) == split_on(b, c).push(a),
    decreases a.len(),
{
    let s = b + seq![c] + a;
    if a.len() == 0 {
        assert(a =~= Seq::<char>::empty());
        assert(s.last() == c);
        assert(s.drop_last() =~= b);
    } else {
        let a1 = a.drop_last();
        let x = a.last();
        assert(!a1.contains(c)) by {
            if a1.contains(c) {
                let i = choose|i: int| 0 <= i < a1.len() && a1[i] == c;
                assert(a[i] == c);
            }
        }
        assert(x != c) by {
            assert(a[a.len() - 1] == x);
        }
        lemma_split_join(a1, b, c);
        assert(s.drop_last() =~= b + seq![c] + a1);
        assert(s.last() == x);
        assert(a1.push(x) =~= a);
        crate::text::lemma_split_nonempty(b, c);
        let rest = split_on(b, c).push(a1);
        assert(split_on(s, c) == rest.update(rest.len() - 1, rest.last().push(x)));
        assert(rest.update(rest.len() - 1, rest.last().push(x)) =~= split_on(b, c).push(a));
        let r1 = seq![a1];
        assert(split_on(a, c) == r1.update(r1.len() - 1, r1.last().push(x)));
        assert(r1.update(r1.len() - 1, r1.last().push(x)) =~= seq![a]);
    }
}

/// Reading the text of a version gives the version back, for a version
/// whose micro number stands beside a minor one.
pub proof fn lemma_version_parse_round_trip(v: Version)
    requires
        well_shaped(v),
    ensures
        parse_version(version_text(v)) == Some(v),
{
    let a = crate::text::int_text(v.major as int);
    lemma_int_text_no_dot(v.major as int);
    crate::text::lemma_int_text_parse(v.major);
    lemma_split_join(a, Seq::<char>::empty(), '.');
    match v.minor {
        None => {
            assert(version_text(v) =~= a);
        },
        Some(m) => {
            let b = crate::text::int_text(m as int);
            lemma_int_text_no_dot(m as int);
            crate::text::lemma_int_text_parse(m);
            lemma_split_join(b, a, '.');
            match v.micro {
                None => {
                    assert(version_text(v) =~= a + seq!['.'] + b);
                },
                Some(u) => {
                    let c = crate::text::int_text(u as int);
                    lemma_int_text_no_dot(u as int);
                    crate::text::lemma_int_text_parse(u);
                    lemma_split_join(c, a + seq!['.'] + b, '.');
                    assert(version_text(v) =~= a + seq!['.'] + b + seq!['.'] + c);
                },
            }
        },
    }
}

/// Reading back the tag made for a version gives the version, for a
/// template that holds `$VERSION` exactly once.
pub proof fn lemma_tag_round_trip(template: Seq<char>, v: Version)
    requires
        single_placeholder(template),
        well_shaped(v),
    ensures
        tag_version_text(template, tag_name(template, v)) == Some(version_text(v)),
        parse_version(version_text(v)) == Some(v),
{
    let i = choose|i: int|
        occurs_at(template, version_var(), i) && forall|j: int|
            j != i ==> !occurs_at(template, version_var(), j);
    assert(first_occurrence(template, version_var(), i));
    let x = version_text(v);
    let pre = template.subrange(0, i);
    let post = template.subrange(i + 8, template.len() as int);
    lemma_replace_first(template, version_var(), x, i);
    assert forall|j: int| !occurs_at(post, version_var(), j) by {
        if occurs_at(post, version_var(), j) {
            assert(template.subrange(i + 8 + j, i + 8 + j + 8) =~= post.subrange(j, j + 8));
            assert(occurs_at(template, version_var(), i + 8 + j));
        }
    }
    lemma_replace_none(post, version_var(), x);
    let tag = pre + x + post;
    assert(tag_name(template, v) == tag);
    let k = choose|k: int| first_occurrence(template, version_var(), k);
    lemma_first_unique(template, version_var(), i, k);
    assert(tag.subrange(0, pre.len() as int) =~= pre);
    assert(tag.subrange(tag.len() - post.len(), tag.len() as int) =~= post);
    assert(tag.subrange(pre.len() as int, tag.len() - post.len()) =~= x);
    lemma_version_parse_round_trip(v);
}

} // verus!
