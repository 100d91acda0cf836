//! File-name slugs for specification records.

use vstd::prelude::*;
use crate::text::{
    chars_of, is_ascii_not_upper, is_ascii_upper, lemma_trim_noop, lemma_trim_shape, lowercase_of, push_char,
    string_of, to_lowercase, trim_chars, trim_set, TrimSet,
};
use crate::specs::opt_view;

verus! {

/// `char::is_ascii_alphanumeric`: `0-9`, `a-z` or `A-Z`.
pub open spec fn is_ascii_alnum(c: char) -> bool {
    ('0' <= c && c <= '9') || ('a' <= c && c <= 'z') || ('A' <= c && c <= 'Z')
}

/// Whether `c` is an ASCII letter or digit.
pub fn ascii_alnum(c: char) -> (b: bool)
    ensures
        b == is_ascii_alnum(c),
{
    ('0' <= c && c <= '9') || ('a' <= c && c <= 'z') || ('A' <= c && c <= 'Z')
}

/// The text a slug is made from: brand and model separated by one space when
/// the brand is present and not empty, otherwise the model alone.
pub open spec fn slug_base(brand: Option<Seq<char>>, model: Seq<char>) -> Seq<char> {
    match brand {
        Some(b) => if b.len() > 0 { b + seq![' '] + model } else { model },
        None => model,
    }
}

/// Every character that is not an ASCII letter or digit replaced by `-`.
pub open spec fn dash_other(s: Seq<char>) -> Seq<char> {
    s.map_values(|c: char| if is_ascii_alnum(c) { c } else { '-' })
}

/// The slug of already lowercased text: other characters become `-`, and
/// leading and trailing `-` are removed.
pub open spec fn slug_spec(lower: Seq<char>) -> Seq<char> {
    trim_set(dash_other(lower), TrimSet::Dash)
}

/// The slug of already lowercased text.
pub fn slug_from_lowercase(lower: &str) -> (r: String)
    ensures
        r@ == slug_spec(lower@),
{
    let v = chars_of(lower);
    let mut d: Vec<char> = Vec::new();
    let mut i: usize = 0;
    while i < v.len()
        invariant
            i <= v@.len(),
            d@ == dash_other(v@.take(i as int)),
        decreases v@.len() - i,
    {
        let c = v[i];
        if ascii_alnum(c) {
            d.push(c);
        } else {
            d.push('-');
        }
        proof {
            assert(dash_other(v@.take(i + 1)) =~= dash_other(v@.take(i as int)).push(
                if is_ascii_alnum(c) { c } else { '-' },
            ));
        }
        i = i + 1;
    }
    proof {
        assert(v@.take(v@.len() as int) =~= v@);
    }
    let t = trim_chars(d.as_slice(), TrimSet::Dash);
    string_of(t.as_slice())
}

/// A slug's character: a small ASCII letter, a digit or `-`.
pub open spec fn is_slug_char(c: char) -> bool {
    ('a' <= c && c <= 'z') || ('0' <= c && c <= '9') || c == '-'
}

/// A slug: slug characters only, neither starting nor ending with `-`.
pub open spec fn is_slug(s: Seq<char>) -> bool {
    &&& forall|i: int| 0 <= i < s.len() ==> is_slug_char(#[trigger] s[i])
    &&& s.len() > 0 ==> s[0] != '-' && s.last() != '-'
}

/// The slug of lowercased text without ASCII capitals is a slug.
pub proof fn lemma_slug_of_lower(lower: Seq<char>)
    requires
        forall|i: int| 0 <= i < lower.len() ==> !is_ascii_upper(#[trigger] lower[i]),
    ensures
        is_slug(slug_spec(lower)),
{
    lemma_slug_charset(lower);
    let (a, b) = lemma_trim_shape(dash_other(lower), TrimSet::Dash);
    assert forall|i: int| 0 <= i < slug_spec(lower).len() implies is_slug_char(#[trigger] slug_spec(lower)[i]) by {
        assert(slug_spec(lower)[i] == dash_other(lower)[a + i]);
        assert(!is_ascii_upper(lower[a + i]));
    }
}

/// A slug is its own slug.
pub proof fn lemma_slug_fixed(s: Seq<char>)
    requires
        is_slug(s),
    ensures
        slug_spec(s) == s,
{
    assert(dash_other(s) =~= s);
    lemma_trim_noop(s, TrimSet::Dash);
}

/// The slug of a brand and model: `"{brand} {model}"` (or the model alone
/// when the brand is absent or empty), lowercased, with every character that
/// is not an ASCII letter or digit turned into `-` and the `-` at both ends
/// removed. The result is a slug (small ASCII letters, digits and `-`, no
/// `-` at either end), and a slug given as the model without a brand comes
/// back unchanged, so making a slug of a slug changes nothing.
pub fn slugify(brand: &Option<String>, model: &str) -> (r: String)
    ensures
        r@ == slug_spec(lowercase_of(slug_base(opt_view(*brand), model@))),
        is_slug(r@),
        is_slug(model@) && (match brand { Some(b) => b@.len() == 0, None => true }) ==> r@ == model@,
{
    let base = match brand {
        Some(b) => {
            if b.unicode_len() > 0 {
                let mut s = b.clone();
                push_char(&mut s, ' ');
                s.append(model);
                assert(s@ =~= b@ + seq![' '] + model@);
                s
            } else {
                String::from_str(model)
            }
        },
        None => String::from_str(model),
    };
    assert(base@ == slug_base(opt_view(*brand), model@));
    let lower = to_lowercase(base.as_str());
    let r = slug_from_lowercase(lower.as_str());
    proof {
        lemma_slug_of_lower(lower@);
        if is_slug(model@) && (match brand { Some(b) => b@.len() == 0, None => true }) {
            assert(base@ == model@);
            assert forall|i: int| 0 <= i < base@.len() implies is_ascii_not_upper(#[trigger] base@[i]) by {
                assert(is_slug_char(model@[i]));
            }
            lemma_slug_fixed(model@);
        }
    }
    r
}

/// A slug holds only ASCII letters, digits and `-`, and neither starts nor
/// ends with `-`.
pub proof fn lemma_slug_charset(lower: Seq<char>)
    ensures
        forall|i: int| 0 <= i < slug_spec(lower).len() ==>
            is_ascii_alnum(#[trigger] slug_spec(lower)[i]) || slug_spec(lower)[i] == '-',
        slug_spec(lower).len() > 0 ==> slug_spec(lower)[0] != '-',
        slug_spec(lower).len() > 0 ==> slug_spec(lower).last() != '-',
{
    let (a, b) = lemma_trim_shape(dash_other(lower), TrimSet::Dash);
    assert forall|i: int| 0 <= i < slug_spec(lower).len() implies
        is_ascii_alnum(#[trigger] slug_spec(lower)[i]) || slug_spec(lower)[i] == '-' by {
        assert(slug_spec(lower)[i] == dash_other(lower)[a + i]);
    }
}

/// Making a slug of a slug gives the same slug.
pub proof fn lemma_slug_idempotent(lower: Seq<char>)
    ensures
        slug_spec(slug_spec(lower)) == slug_spec(lower),
{
    let s = slug_spec(lower);
    lemma_slug_charset(lower);
    assert(dash_other(s) =~= s);
    lemma_trim_noop(s, TrimSet::Dash);
}

} // verus!
