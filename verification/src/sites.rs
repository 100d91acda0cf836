//! Pieces shared by the vendor page parsers: prices, key/value splitting,
//! keyword tests and product images.

use vstd::prelude::*;
use crate::text::{
    char_is_numeric, chars_of, contains_seq, is_numeric_char, lowercase_of, push_char,
    str_contains, string_of_range, to_lowercase,
};
use crate::specs::{opt_view, Price, PriceModel, SourceInfo, SourceModel};
use crate::html::{html_attr_values, select_attr_values, Page};

verus! {

/// The numeric characters of `s` and its dots, in order: what
/// `s.replace(|c| !c.is_numeric() && c != '.', "")` leaves.
pub open spec fn numeric_only(s: Seq<char>) -> Seq<char>
    decreases s.len(),
{
    if s.len() == 0 {
        s
    } else {
        let r = numeric_only(s.drop_last());
        if is_numeric_char(s.last()) || s.last() == '.' {
            r.push(s.last())
        } else {
            r
        }
    }
}

/// The numeric characters and dots of `s`.
pub fn numeric_only_of(s: &str) -> (r: String)
    ensures
        r@ == numeric_only(s@),
{
    let v = chars_of(s);
    let mut out = String::new();
    let mut i: usize = 0;
    while i < v.len()
        invariant
            i <= v@.len(),
            v@ == s@,
            out@ == numeric_only(v@.take(i as int)),
        decreases v@.len() - i,
    {
        let c = v[i];
        proof {
            assert(v@.take(i + 1).drop_last() =~= v@.take(i as int));
        }
        if char_is_numeric(c) || c == '.' {
            push_char(&mut out, c);
        }
        i = i + 1;
    }
    proof {
        assert(v@.take(v@.len() as int) =~= v@);
    }
    out
}

/// The price record of a price text seen on a Malaysian vendor page.
pub open spec fn price_model(p: Seq<char>) -> PriceModel {
    PriceModel { raw: Some(p), amount_text: numeric_only(p), currency: None, country: Some("MY"@) }
}

/// The price record of a price text seen on a Malaysian vendor page.
pub fn price_from_text(p: &str) -> (r: Price)
    ensures
        r@ == price_model(p@),
{
    Price {
        raw: Some(String::from_str(p)),
        amount_text: numeric_only_of(p),
        currency: None,
        country: Some(String::from_str("MY")),
    }
}

/// The source record of a scrape.
pub open spec fn source_model(url: Seq<char>, at: Seq<char>, name: Option<Seq<char>>) -> SourceModel {
    SourceModel { url: url, scraped_at: at, source_name: name }
}

/// The index of the first `c` in `s`, or `-1`.
pub open spec fn index_of(s: Seq<char>, c: char) -> int
    decreases s.len(),
{
    if s.len() == 0 {
        -1
    } else if s[0] == c {
        0
    } else {
        let r = index_of(s.drop_first(), c);
        if r < 0 { -1 } else { r + 1 }
    }
}

proof fn lemma_index_of(s: Seq<char>, c: char, i: int)
    requires
        0 <= i <= s.len(),
        forall|j: int| 0 <= j < i ==> s[j] != c,
    ensures
        index_of(s, c) == (if index_of(s.skip(i), c) < 0 { -1 } else { index_of(s.skip(i), c) + i }),
    decreases i,
{
    if i > 0 {
        assert(s.drop_first().skip(i - 1) =~= s.skip(i));
        lemma_index_of(s.drop_first(), c, i - 1);
    } else {
        assert(s.skip(0) =~= s);
    }
}

/// What `str::split_once(c)` returns: the text before and after the first
/// `c`, or nothing when `c` does not occur.
pub open spec fn split_once(s: Seq<char>, c: char) -> Option<(Seq<char>, Seq<char>)> {
    let i = index_of(s, c);
    if i < 0 { None } else { Some((s.take(i), s.skip(i + 1))) }
}

/// A text splits at its first `c`: the part before it holds no `c`.
pub proof fn lemma_split_once_first(a: Seq<char>, c: char, b: Seq<char>)
    requires
        forall|j: int| 0 <= j < a.len() ==> a[j] != c,
    ensures
        split_once(a + seq![c] + b, c) == Some((a, b)),
{
    let s = a + seq![c] + b;
    assert forall|j: int| 0 <= j < a.len() implies s[j] != c by {
        assert(s[j] == a[j]);
    }
    lemma_index_of(s, c, a.len() as int);
    assert(s.skip(a.len() as int)[0] == c);
    assert(index_of(s.skip(a.len() as int), c) == 0);
    assert(s.take(a.len() as int) =~= a);
    assert(s.skip(a.len() as int + 1) =~= b);
}

/// A text without `c` does not split.
pub proof fn lemma_split_once_none(s: Seq<char>, c: char)
    requires
        forall|j: int| 0 <= j < s.len() ==> s[j] != c,
    ensures
        split_once(s, c) is None,
{
    lemma_index_of(s, c, s.len() as int);
    assert(s.skip(s.len() as int) =~= Seq::<char>::empty());
}

/// The text before and after the first `c`.
pub fn split_once_at(s: &str, c: char) -> (r: Option<(String, String)>)
    ensures
        match r {
            Some((a, b)) => split_once(s@, c) == Some((a@, b@)),
            None => split_once(s@, c) is None,
        },
{
    let v = chars_of(s);
    let mut i: usize = 0;
    while i < v.len() && v[i] != c
        invariant
            i <= v@.len(),
            v@ == s@,
            forall|j: int| 0 <= j < i ==> v@[j] != c,
        decreases v@.len() - i,
    {
        i = i + 1;
    }
    proof {
        lemma_index_of(v@, c, i as int);
        let t = v@.skip(i as int);
        if t.len() > 0 {
            assert(t[0] == v@[i as int]);
        }
    }
    if i == v.len() {
        return None;
    }
    let a = string_of_range(v.as_slice(), 0, i);
    let b = string_of_range(v.as_slice(), i + 1, v.len());
    proof {
        assert(v@.subrange(0, i as int) =~= v@.take(i as int));
        assert(v@.subrange(i + 1, v@.len() as int) =~= v@.skip(i + 1));
    }
    Some((a, b))
}

/// Whether the lowercased `s` contains `word`.
pub open spec fn lower_has(s: Seq<char>, word: Seq<char>) -> bool {
    contains_seq(lowercase_of(s), word)
}

/// Whether `s` contains one of `marks`.
pub open spec fn has_any_mark(s: Seq<char>, marks: Seq<Seq<char>>) -> bool {
    exists|j: int| 0 <= j < marks.len() && contains_seq(s, #[trigger] marks[j])
}

/// The first present value among `srcs` that contains one of `marks`.
pub open spec fn first_marked(srcs: Seq<Option<Seq<char>>>, marks: Seq<Seq<char>>) -> Option<Seq<char>>
    decreases srcs.len(),
{
    if srcs.len() == 0 {
        None
    } else {
        match srcs[0] {
            Some(s) => if has_any_mark(s, marks) { Some(s) } else { first_marked(srcs.drop_first(), marks) },
            None => first_marked(srcs.drop_first(), marks),
        }
    }
}

/// The `src` of the first image whose `src` contains one of `marks`.
pub open spec fn page_image(source: Seq<char>, marks: Seq<Seq<char>>) -> Option<Seq<char>> {
    match html_attr_values(source, "img"@, "src"@) {
        Some(srcs) => first_marked(srcs, marks),
        None => None,
    }
}

pub open spec fn strs_view(v: Seq<&str>) -> Seq<Seq<char>> {
    v.map_values(|m: &str| m@)
}

/// Whether `s` contains one of `marks`.
pub fn contains_any(s: &str, marks: &[&str]) -> (b: bool)
    ensures
        b == has_any_mark(s@, strs_view(marks@)),
{
    let mut j: usize = 0;
    while j < marks.len()
        invariant
            j <= marks@.len(),
            forall|k: int| 0 <= k < j ==> !contains_seq(s@, #[trigger] strs_view(marks@)[k]),
        decreases marks@.len() - j,
    {
        if str_contains(s, marks[j]) {
            proof {
                assert(strs_view(marks@)[j as int] == marks@[j as int]@);
            }
            return true;
        }
        j = j + 1;
    }
    false
}

/// The first present value among `srcs` that contains one of `marks`; none
/// when there is no list.
pub fn first_marked_src(srcs: &Option<Vec<Option<String>>>, marks: &[&str]) -> (r: Option<String>)
    ensures
        opt_view(r) == match crate::html::opt_attrs_view(*srcs) {
            Some(v) => first_marked(v, strs_view(marks@)),
            None => None,
        },
{
    let list = match srcs {
        Some(v) => v,
        None => return None,
    };
    let ghost all = crate::html::opt_strings_view(list@);
    proof {
        assert(all.skip(0) =~= all);
    }
    let mut i: usize = 0;
    while i < list.len()
        invariant
            i <= list@.len(),
            all == crate::html::opt_strings_view(list@),
            crate::html::opt_attrs_view(*srcs) == Some(all),
            first_marked(all, strs_view(marks@)) == first_marked(all.skip(i as int), strs_view(marks@)),
        decreases list@.len() - i,
    {
        let ghost rest = all.skip(i as int);
        proof {
            assert(rest.drop_first() =~= all.skip(i + 1));
            assert(rest[0] == all[i as int]);
        }
        match &list[i] {
            Some(s) => {
                if contains_any(s.as_str(), marks) {
                    proof {
                        assert(all[i as int] == Some(s@));
                        assert(rest.len() > 0);
                        assert(first_marked(rest, strs_view(marks@)) == Some(s@));
                    }
                    return Some(s.clone());
                }
            },
            None => {},
        }
        proof {
            assert(all[i as int] == match list@[i as int] { Some(x) => Some(x@), None => None::<Seq<char>> });
        }
        i = i + 1;
    }
    proof {
        assert(all.skip(i as int) =~= Seq::<Option<Seq<char>>>::empty());
    }
    None
}

/// The `src` of the first image of the page whose `src` contains one of
/// `marks`.
pub fn find_image(page: &Page, marks: &[&str]) -> (r: Option<String>)
    ensures
        opt_view(r) == page_image(page@, strs_view(marks@)),
{
    let srcs = select_attr_values(page, "img", "src");
    first_marked_src(&srcs, marks)
}

/// Whether the lowercased `s` contains `word`.
pub fn lower_contains(s: &str, word: &str) -> (b: bool)
    ensures
        b == lower_has(s@, word@),
{
    let low = to_lowercase(s);
    str_contains(low.as_str(), word)
}

/// The source record of a scrape.
pub fn source_info(url: &str, at: &str, name: Option<&str>) -> (r: SourceInfo)
    ensures
        r@ == source_model(url@, at@, match name { Some(n) => Some(n@), None => None }),
{
    SourceInfo {
        url: String::from_str(url),
        scraped_at: String::from_str(at),
        source_name: match name {
            Some(n) => Some(String::from_str(n)),
            None => None,
        },
    }
}

} // verus!
