//! Character-sequence utilities with exact specifications: trimming,
//! splitting, joining, substring search and pattern removal.

use vstd::prelude::*;

verus! {

/// The Unicode `White_Space` property (PropList.txt): the characters that
/// `char::is_whitespace` and `str::trim` treat as white space.
pub open spec fn is_white_space(c: char) -> bool {
    ||| ('\u{9}' <= c && c <= '\u{d}')
    ||| c == ' '
    ||| c == '\u{85}'
    ||| c == '\u{a0}'
    ||| c == '\u{1680}'
    ||| ('\u{2000}' <= c && c <= '\u{200a}')
    ||| c == '\u{2028}'
    ||| c == '\u{2029}'
    ||| c == '\u{202f}'
    ||| c == '\u{205f}'
    ||| c == '\u{3000}'
}

/// Calls `char::is_whitespace`. Claims that it answers membership in the
/// Unicode `White_Space` set, which its documentation names and
/// `is_white_space` lists.
#[verifier::external_body]
pub(crate) fn char_is_whitespace(c: char) -> (b: bool)
    ensures
        b == is_white_space(c),
{
    c.is_whitespace()
}


/// Whether `char::is_numeric` holds of `c`: membership in the Unicode
/// general categories for numbers (Nd, Nl, No).
pub uninterp spec fn is_numeric_char(c: char) -> bool;

/// Calls `char::is_numeric`. Claims only that its result is `is_numeric_char(c)`,
/// a name for that table lookup; the table itself is not written out.
#[verifier::external_body]
pub(crate) fn char_is_numeric(c: char) -> (b: bool)
    ensures
        b == is_numeric_char(c),
{
    c.is_numeric()
}

/// What `str::to_lowercase` returns for a string: the Unicode lowercase
/// mapping of its characters (character by character, except that a
/// capital sigma ending a word becomes the final form).
pub uninterp spec fn lowercase_of(s: Seq<char>) -> Seq<char>;

/// An ASCII capital letter, `A` to `Z`.
pub open spec fn is_ascii_upper(c: char) -> bool {
    'A' <= c && c <= 'Z'
}

/// An ASCII character that is not a capital letter.
pub open spec fn is_ascii_not_upper(c: char) -> bool {
    c <= '\u{7f}' && !is_ascii_upper(c)
}

/// Calls `str::to_lowercase`. Claims that the result is `lowercase_of` of the
/// argument's characters, a name for the Unicode case mapping, and two facts
/// of that mapping: no ASCII capital letter is left in the result (each maps
/// to its small letter, and no character maps to one), and a text whose
/// characters are all ASCII and not capitals comes back unchanged (those
/// characters have no lowercase mapping, so each stays as it is).
#[verifier::external_body]
pub(crate) fn to_lowercase(s: &str) -> (r: String)
    ensures
        r@ == lowercase_of(s@),
        forall|i: int| 0 <= i < r@.len() ==> !is_ascii_upper(#[trigger] r@[i]),
        (forall|i: int| 0 <= i < s@.len() ==> is_ascii_not_upper(#[trigger] s@[i])) ==> r@ == s@,
{
    s.to_lowercase()
}

/// Calls `String::push`. Claims that the character is appended at the end.
#[verifier::external_body]
pub(crate) fn push_char(s: &mut String, c: char)
    ensures
        final(s)@ == old(s)@.push(c),
{
    s.push(c)
}

/// The characters of a string, in order.
pub fn chars_of(s: &str) -> (v: Vec<char>)
    ensures
        v@ == s@,
{
    let n = s.unicode_len();
    let mut v: Vec<char> = Vec::new();
    let mut i: usize = 0;
    while i < n
        invariant
            n == s@.len(),
            i <= n,
            v@ == s@.take(i as int),
        decreases n - i,
    {
        v.push(s.get_char(i));
        proof {
            assert(s@.take(i + 1) =~= s@.take(i as int).push(s@[i as int]));
        }
        i = i + 1;
    }
    proof {
        assert(s@.take(n as int) =~= s@);
    }
    v
}

/// A string made of the given characters, in order.
pub fn string_of(v: &[char]) -> (s: String)
    ensures
        s@ == v@,
{
    let mut s = String::new();
    let mut i: usize = 0;
    while i < v.len()
        invariant
            i <= v@.len(),
            s@ == v@.take(i as int),
        decreases v@.len() - i,
    {
        push_char(&mut s, v[i]);
        proof {
            assert(v@.take(i + 1) =~= v@.take(i as int).push(v@[i as int]));
        }
        i = i + 1;
    }
    proof {
        assert(v@.take(v@.len() as int) =~= v@);
    }
    s
}

/// Which characters a trim removes.
#[derive(Clone, Copy, PartialEq, Eq)]
pub enum TrimSet {
    /// Unicode white space, as `str::trim` removes.
    WhiteSpace,
    /// The character `-`.
    Dash,
    /// The character `/`.
    Slash,
}

impl TrimSet {
    pub open spec fn holds(self, c: char) -> bool {
        match self {
            TrimSet::WhiteSpace => is_white_space(c),
            TrimSet::Dash => c == '-',
            TrimSet::Slash => c == '/',
        }
    }

    pub fn contains(self, c: char) -> (b: bool)
        ensures
            b == self.holds(c),
    {
        match self {
            TrimSet::WhiteSpace => char_is_whitespace(c),
            TrimSet::Dash => c == '-',
            TrimSet::Slash => c == '/',
        }
    }
}

/// `s` with its leading characters of `set` removed.
pub open spec fn trim_start_set(s: Seq<char>, set: TrimSet) -> Seq<char>
    decreases s.len(),
{
    if s.len() > 0 && set.holds(s[0]) {
        trim_start_set(s.drop_first(), set)
    } else {
        s
    }
}

/// `s` with its trailing characters of `set` removed.
pub open spec fn trim_end_set(s: Seq<char>, set: TrimSet) -> Seq<char>
    decreases s.len(),
{
    if s.len() > 0 && set.holds(s.last()) {
        trim_end_set(s.drop_last(), set)
    } else {
        s
    }
}

/// `s` with leading and trailing characters of `set` removed.
pub open spec fn trim_set(s: Seq<char>, set: TrimSet) -> Seq<char> {
    trim_end_set(trim_start_set(s, set), set)
}

/// What `str::trim` returns: `s` without leading and trailing white space.
pub open spec fn trim_ws(s: Seq<char>) -> Seq<char> {
    trim_set(s, TrimSet::WhiteSpace)
}

proof fn lemma_trim_start_skip(s: Seq<char>, set: TrimSet, i: int)
    requires
        0 <= i <= s.len(),
        forall|j: int| 0 <= j < i ==> set.holds(#[trigger] s[j]),
    ensures
        trim_start_set(s, set) == trim_start_set(s.skip(i), set),
    decreases i,
{
    if i > 0 {
        assert(s.drop_first().skip(i - 1) =~= s.skip(i));
        assert forall|j: int| 0 <= j < i - 1 implies set.holds(#[trigger] s.drop_first()[j]) by {
            assert(s.drop_first()[j] == s[j + 1]);
        }
        lemma_trim_start_skip(s.drop_first(), set, i - 1);
    } else {
        assert(s.skip(0) =~= s);
    }
}

proof fn lemma_trim_end_take(s: Seq<char>, set: TrimSet, j: int)
    requires
        0 <= j <= s.len(),
        forall|k: int| j <= k < s.len() ==> set.holds(#[trigger] s[k]),
    ensures
        trim_end_set(s, set) == trim_end_set(s.take(j), set),
    decreases s.len() - j,
{
    if j < s.len() {
        assert(s.drop_last().take(j) =~= s.take(j));
        lemma_trim_end_take(s.drop_last(), set, j);
    } else {
        assert(s.take(j) =~= s);
    }
}

/// The sub-slice bounds `(start, end)` of `s` left after trimming `set`.
pub fn trim_bounds(s: &[char], set: TrimSet) -> (r: (usize, usize))
    ensures
        r.0 <= r.1 <= s@.len(),
        s@.subrange(r.0 as int, r.1 as int) == trim_set(s@, set),
{
    let n = s.len();
    let mut i: usize = 0;
    while i < n && set.contains(s[i])
        invariant
            n == s@.len(),
            i <= n,
            forall|j: int| 0 <= j < i ==> set.holds(#[trigger] s@[j]),
        decreases n - i,
    {
        i = i + 1;
    }
    proof {
        lemma_trim_start_skip(s@, set, i as int);
        let t = s@.skip(i as int);
        if t.len() > 0 {
            assert(t[0] == s@[i as int]);
        }
        assert(trim_start_set(t, set) == t);
    }
    let mut e: usize = n;
    while e > i && set.contains(s[e - 1])
        invariant
            n == s@.len(),
            i <= e <= n,
            forall|k: int| e <= k < n ==> set.holds(#[trigger] s@[k]),
        decreases e,
    {
        e = e - 1;
    }
    proof {
        let t = s@.skip(i as int);
        assert forall|k: int| e - i <= k < t.len() implies set.holds(#[trigger] t[k]) by {
            assert(t[k] == s@[k + i]);
        }
        lemma_trim_end_take(t, set, e - i);
        let u = t.take(e - i);
        assert(u =~= s@.subrange(i as int, e as int));
        if u.len() > 0 {
            assert(u.last() == s@[e - 1]);
        }
        assert(trim_end_set(u, set) == u);
    }
    (i, e)
}

/// `s` with leading and trailing characters of `set` removed.
pub fn trim_chars(s: &[char], set: TrimSet) -> (r: Vec<char>)
    ensures
        r@ == trim_set(s@, set),
{
    let (a, b) = trim_bounds(s, set);
    let mut r: Vec<char> = Vec::new();
    let mut k: usize = a;
    while k < b
        invariant
            a <= k <= b <= s@.len(),
            r@ == s@.subrange(a as int, k as int),
        decreases b - k,
    {
        r.push(s[k]);
        proof {
            assert(s@.subrange(a as int, k + 1) =~= s@.subrange(a as int, k as int).push(s@[k as int]));
        }
        k = k + 1;
    }
    r
}

/// `s` with trailing characters of `set` removed.
pub fn trim_end_chars(s: &[char], set: TrimSet) -> (r: Vec<char>)
    ensures
        r@ == trim_end_set(s@, set),
{
    let n = s.len();
    let mut e: usize = n;
    while e > 0 && set.contains(s[e - 1])
        invariant
            n == s@.len(),
            e <= n,
            forall|k: int| e <= k < n ==> set.holds(#[trigger] s@[k]),
        decreases e,
    {
        e = e - 1;
    }
    proof {
        lemma_trim_end_take(s@, set, e as int);
        let u = s@.take(e as int);
        if u.len() > 0 {
            assert(u.last() == s@[e - 1]);
        }
        assert(trim_end_set(u, set) == u);
    }
    let mut r: Vec<char> = Vec::new();
    let mut k: usize = 0;
    while k < e
        invariant
            k <= e <= s@.len(),
            r@ == s@.take(k as int),
        decreases e - k,
    {
        r.push(s[k]);
        proof {
            assert(s@.take(k + 1) =~= s@.take(k as int).push(s@[k as int]));
        }
        k = k + 1;
    }
    r
}


/// What `str::split` returns for a pattern that matches any one of the
/// characters `seps`: the pieces between separators, empty pieces included,
/// so that there is always one piece more than there are separators.
pub open spec fn split_on(s: Seq<char>, seps: Seq<char>) -> Seq<Seq<char>>
    decreases s.len(),
{
    if s.len() == 0 {
        seq![Seq::<char>::empty()]
    } else {
        let r = split_on(s.drop_last(), seps);
        if seps.contains(s.last()) {
            r.push(Seq::<char>::empty())
        } else {
            r.update(r.len() - 1, r.last().push(s.last()))
        }
    }
}

pub proof fn lemma_split_on_nonempty(s: Seq<char>, seps: Seq<char>)
    ensures
        split_on(s, seps).len() >= 1,
    decreases s.len(),
{
    if s.len() > 0 {
        lemma_split_on_nonempty(s.drop_last(), seps);
    }
}

/// A text with none of the separators is a single piece: itself.
pub proof fn lemma_split_on_no_sep(s: Seq<char>, seps: Seq<char>)
    requires
        forall|i: int| 0 <= i < s.len() ==> !seps.contains(#[trigger] s[i]),
    ensures
        split_on(s, seps) == seq![s],
    decreases s.len(),
{
    if s.len() > 0 {
        let t = s.drop_last();
        assert forall|i: int| 0 <= i < t.len() implies !seps.contains(#[trigger] t[i]) by {
            assert(t[i] == s[i]);
        }
        lemma_split_on_no_sep(t, seps);
        assert(!seps.contains(s[s.len() - 1]));
        let r = split_on(t, seps);
        assert(r.len() == 1 && r.last() == t);
        assert(t.push(s.last()) =~= s);
        assert(r.update(r.len() - 1, r.last().push(s.last())) =~= seq![s]);
    } else {
        assert(s =~= Seq::<char>::empty());
    }
}

/// Cutting a text at a separator: the pieces are those before it followed
/// by those after it.
pub proof fn lemma_split_on_concat(a: Seq<char>, c: char, b: Seq<char>, seps: Seq<char>)
    requires
        seps.contains(c),
    ensures
        split_on(a + seq![c] + b, seps) == split_on(a, seps) + split_on(b, seps),
    decreases b.len(),
{
    let x = a + seq![c] + b;
    if b.len() == 0 {
        assert(x.drop_last() =~= a);
        assert(x.last() == c);
        assert(split_on(a, seps).push(Seq::<char>::empty()) =~= split_on(a, seps) + split_on(b, seps));
    } else {
        let b2 = b.drop_last();
        assert(x.drop_last() =~= a + seq![c] + b2);
        assert(x.last() == b.last());
        lemma_split_on_concat(a, c, b2, seps);
        lemma_split_on_nonempty(b2, seps);
        let pa = split_on(a, seps);
        let pb = split_on(b2, seps);
        if seps.contains(b.last()) {
            assert((pa + pb).push(Seq::<char>::empty()) =~= pa + pb.push(Seq::<char>::empty()));
        } else {
            let r = pa + pb;
            assert(r.last() == pb.last());
            assert(r.update(r.len() - 1, r.last().push(b.last()))
                =~= pa + pb.update(pb.len() - 1, pb.last().push(b.last())));
        }
    }
}

/// Trimming and dropping empty pieces goes piece by piece.
pub proof fn lemma_trimmed_nonempty_concat(x: Seq<Seq<char>>, y: Seq<Seq<char>>)
    ensures
        trimmed_nonempty(x + y) == trimmed_nonempty(x) + trimmed_nonempty(y),
    decreases y.len(),
{
    if y.len() == 0 {
        assert(x + y =~= x);
        assert(trimmed_nonempty(x) + trimmed_nonempty(y) =~= trimmed_nonempty(x));
    } else {
        assert((x + y).drop_last() =~= x + y.drop_last());
        assert((x + y).last() == y.last());
        lemma_trimmed_nonempty_concat(x, y.drop_last());
        let t = trim_ws(y.last());
        if t.len() > 0 {
            assert((trimmed_nonempty(x) + trimmed_nonempty(y.drop_last())).push(t)
                =~= trimmed_nonempty(x) + trimmed_nonempty(y.drop_last()).push(t));
        }
    }
}

/// A single piece gives its trim, or nothing when the trim is empty.
pub proof fn lemma_trimmed_nonempty_single(p: Seq<char>)
    ensures
        trimmed_nonempty(seq![p]) == (if trim_ws(p).len() > 0 { seq![trim_ws(p)] } else { Seq::<Seq<char>>::empty() }),
{
    let ps = seq![p];
    assert(ps.drop_last() =~= Seq::<Seq<char>>::empty());
    assert(trimmed_nonempty(ps.drop_last()) == Seq::<Seq<char>>::empty());
    assert(ps.last() == p);
    assert(Seq::<Seq<char>>::empty().push(trim_ws(p)) =~= seq![trim_ws(p)]);
}

/// Whether `c` is one of `seps`.
pub fn is_one_of(c: char, seps: &[char]) -> (b: bool)
    ensures
        b == seps@.contains(c),
{
    let mut i: usize = 0;
    while i < seps.len()
        invariant
            i <= seps@.len(),
            forall|j: int| 0 <= j < i ==> seps@[j] != c,
        decreases seps@.len() - i,
    {
        if seps[i] == c {
            return true;
        }
        i = i + 1;
    }
    false
}

/// The character sequences of a sequence of character vectors.
pub open spec fn seq_views(v: Seq<Vec<char>>) -> Seq<Seq<char>> {
    v.map_values(|x: Vec<char>| x@)
}

/// The character sequences of a sequence of strings.
pub open spec fn string_views(v: Seq<String>) -> Seq<Seq<char>> {
    v.map_values(|x: String| x@)
}

/// `s` split at every character of `seps`, as `str::split` splits it.
pub fn split_chars(s: &[char], seps: &[char]) -> (r: Vec<Vec<char>>)
    ensures
        seq_views(r@) == split_on(s@, seps@),
{
    let mut pieces: Vec<Vec<char>> = Vec::new();
    let mut cur: Vec<char> = Vec::new();
    let mut i: usize = 0;
    proof {
        assert(s@.take(0) =~= Seq::<char>::empty());
        assert(seq_views(pieces@).push(cur@) =~= seq![Seq::<char>::empty()]);
    }
    while i < s.len()
        invariant
            i <= s@.len(),
            seq_views(pieces@).push(cur@) == split_on(s@.take(i as int), seps@),
        decreases s@.len() - i,
    {
        let c = s[i];
        proof {
            let t = s@.take(i + 1);
            assert(t.drop_last() =~= s@.take(i as int));
            assert(t.last() == c);
        }
        if is_one_of(c, seps) {
            let ghost old_pieces = seq_views(pieces@);
            let ghost old_cur = cur@;
            let done = cur;
            pieces.push(done);
            cur = Vec::new();
            proof {
                assert(seq_views(pieces@) =~= old_pieces.push(old_cur));
                assert(seq_views(pieces@).push(cur@) =~= split_on(s@.take(i + 1), seps@));
            }
        } else {
            let ghost old_cur = cur@;
            let ghost old_pieces = seq_views(pieces@);
            cur.push(c);
            proof {
                let r = split_on(s@.take(i as int), seps@);
                assert(r =~= old_pieces.push(old_cur));
                assert(seq_views(pieces@).push(cur@) =~= r.update(r.len() - 1, r.last().push(c)));
            }
        }
        i = i + 1;
    }
    proof {
        assert(s@.take(s@.len() as int) =~= s@);
    }
    let ghost old_pieces = seq_views(pieces@);
    let ghost old_cur = cur@;
    pieces.push(cur);
    proof {
        assert(seq_views(pieces@) =~= old_pieces.push(old_cur));
    }
    pieces
}

/// The pieces joined with `sep` between consecutive pieces, as
/// `[T]::join` builds them.
pub open spec fn join(parts: Seq<Seq<char>>, sep: Seq<char>) -> Seq<char>
    decreases parts.len(),
{
    if parts.len() == 0 {
        Seq::<char>::empty()
    } else if parts.len() == 1 {
        parts[0]
    } else {
        join(parts.drop_last(), sep) + sep + parts.last()
    }
}

/// `parts` joined with `sep` between consecutive parts.
pub fn join_strings(parts: &Vec<String>, sep: &[char]) -> (r: Vec<char>)
    ensures
        r@ == join(string_views(parts@), sep@),
{
    let mut out: Vec<char> = Vec::new();
    let mut i: usize = 0;
    while i < parts.len()
        invariant
            i <= parts@.len(),
            out@ == join(string_views(parts@).take(i as int), sep@),
        decreases parts@.len() - i,
    {
        let ghost before = out@;
        if i > 0 {
            let mut k: usize = 0;
            while k < sep.len()
                invariant
                    k <= sep@.len(),
                    out@ == before + sep@.take(k as int),
                decreases sep@.len() - k,
            {
                out.push(sep[k]);
                proof {
                    assert(sep@.take(k + 1) =~= sep@.take(k as int).push(sep@[k as int]));
                }
                k = k + 1;
            }
            proof {
                assert(sep@.take(sep@.len() as int) =~= sep@);
            }
        }
        let ghost mid = out@;
        let piece = chars_of(parts[i].as_str());
        let mut k: usize = 0;
        while k < piece.len()
            invariant
                k <= piece@.len(),
                out@ == mid + piece@.take(k as int),
            decreases piece@.len() - k,
        {
            out.push(piece[k]);
            proof {
                assert(piece@.take(k + 1) =~= piece@.take(k as int).push(piece@[k as int]));
            }
            k = k + 1;
        }
        proof {
            assert(piece@.take(piece@.len() as int) =~= piece@);
            let ps = string_views(parts@).take(i + 1);
            assert(ps.drop_last() =~= string_views(parts@).take(i as int));
            assert(ps.last() == parts@[i as int]@);
            if i == 0 {
                assert(out@ =~= join(ps, sep@));
            } else {
                assert(out@ =~= join(ps, sep@));
            }
        }
        i = i + 1;
    }
    proof {
        assert(string_views(parts@).take(parts@.len() as int) =~= string_views(parts@));
    }
    out
}

/// Whether `needle` occurs in `hay` at position `i`.
pub open spec fn occurs_at(hay: Seq<char>, needle: Seq<char>, i: int) -> bool {
    0 <= i && i + needle.len() <= hay.len() && hay.subrange(i, i + needle.len()) == needle
}

/// What `str::contains` answers for a string pattern.
pub open spec fn contains_seq(hay: Seq<char>, needle: Seq<char>) -> bool {
    exists|i: int| occurs_at(hay, needle, i)
}

/// Whether `needle` occurs in `hay` at position `i`.
pub fn starts_at(hay: &[char], needle: &[char], i: usize) -> (b: bool)
    ensures
        b == occurs_at(hay@, needle@, i as int),
{
    if i > hay.len() || needle.len() > hay.len() - i {
        return false;
    }
    let hl: usize = hay.len();
    let mut k: usize = 0;
    while k < needle.len()
        invariant
            hl == hay@.len(),
            i <= hay@.len(),
            i + needle@.len() <= hay@.len(),
            k <= needle@.len(),
            forall|j: int| 0 <= j < k ==> hay@[i + j] == needle@[j],
        decreases needle@.len() - k,
    {
        assert(i + k < hay@.len());
        if hay[i + k] != needle[k] {
            proof {
                assert(hay@.subrange(i as int, i + needle@.len())[k as int] != needle@[k as int]);
            }
            return false;
        }
        k = k + 1;
    }
    proof {
        assert(hay@.subrange(i as int, i + needle@.len()) =~= needle@);
    }
    true
}

/// Whether `needle` occurs anywhere in `hay`.
pub fn contains_chars(hay: &[char], needle: &[char]) -> (b: bool)
    ensures
        b == contains_seq(hay@, needle@),
{
    let n = hay.len();
    let mut i: usize = 0;
    while i < n
        invariant
            n == hay@.len(),
            i <= n,
            forall|j: int| 0 <= j < i ==> !occurs_at(hay@, needle@, j),
        decreases n - i,
    {
        if starts_at(hay, needle, i) {
            return true;
        }
        i = i + 1;
    }
    if starts_at(hay, needle, n) {
        return true;
    }
    proof {
        assert forall|j: int| !occurs_at(hay@, needle@, j) by {
            if 0 <= j && j + needle@.len() <= hay@.len() {
                assert(j <= n);
            }
        }
    }
    false
}

/// Whether the string `hay` contains the string `needle`.
pub fn str_contains(hay: &str, needle: &str) -> (b: bool)
    ensures
        b == contains_seq(hay@, needle@),
{
    let h = chars_of(hay);
    let n = chars_of(needle);
    contains_chars(&h, &n)
}

/// What `str::replace(pat, "")` returns: `s` with every occurrence of `pat`
/// removed, occurrences taken left to right without overlap.
pub open spec fn remove_all(s: Seq<char>, pat: Seq<char>) -> Seq<char>
    decreases s.len(),
{
    if pat.len() == 0 || s.len() < pat.len() {
        s
    } else if s.take(pat.len() as int) == pat {
        remove_all(s.skip(pat.len() as int), pat)
    } else {
        seq![s[0]] + remove_all(s.skip(1), pat)
    }
}

/// `s` with every occurrence of `pat` removed, left to right.
pub fn remove_all_chars(s: &[char], pat: &[char]) -> (r: Vec<char>)
    ensures
        r@ == remove_all(s@, pat@),
{
    let mut out: Vec<char> = Vec::new();
    if pat.len() == 0 {
        let mut k: usize = 0;
        while k < s.len()
            invariant
                k <= s@.len(),
                out@ == s@.take(k as int),
            decreases s@.len() - k,
        {
            out.push(s[k]);
            proof {
                assert(s@.take(k + 1) =~= s@.take(k as int).push(s@[k as int]));
            }
            k = k + 1;
        }
        proof {
            assert(s@.take(s@.len() as int) =~= s@);
        }
        return out;
    }
    let mut i: usize = 0;
    proof {
        assert(s@.skip(0) =~= s@);
        assert(out@ + remove_all(s@.skip(0), pat@) =~= remove_all(s@, pat@));
    }
    while i < s.len()
        invariant
            pat@.len() > 0,
            i <= s@.len(),
            out@ + remove_all(s@.skip(i as int), pat@) == remove_all(s@, pat@),
        decreases s@.len() - i,
    {
        let t = Ghost(s@.skip(i as int));
        if starts_at(s, pat, i) {
            proof {
                assert(t@.take(pat@.len() as int) =~= s@.subrange(i as int, i + pat@.len()));
                assert(t@.skip(pat@.len() as int) =~= s@.skip(i + pat@.len()));
            }
            i = i + pat.len();
        } else {
            proof {
                if t@.len() >= pat@.len() {
                    assert(t@.take(pat@.len() as int) =~= s@.subrange(i as int, i + pat@.len()));
                }
                assert(t@.skip(1) =~= s@.skip(i + 1));
                assert(t@[0] == s@[i as int]);
                assert(out@.push(s@[i as int]) + remove_all(s@.skip(i + 1), pat@)
                    =~= out@ + (seq![s@[i as int]] + remove_all(s@.skip(i + 1), pat@)));
            }
            out.push(s[i]);
            i = i + 1;
        }
    }
    proof {
        assert(s@.skip(i as int) =~= Seq::<char>::empty());
        assert(out@ + remove_all(s@.skip(i as int), pat@) =~= out@);
    }
    out
}


/// The trimmed sequence is a contiguous part of the original that neither
/// starts nor ends with a character of the set.
pub proof fn lemma_trim_shape(s: Seq<char>, set: TrimSet) -> (r: (int, int))
    ensures
        0 <= r.0 <= r.1 <= s.len(),
        trim_set(s, set) == s.subrange(r.0, r.1),
        trim_set(s, set).len() > 0 ==> !set.holds(trim_set(s, set)[0]),
        trim_set(s, set).len() > 0 ==> !set.holds(trim_set(s, set).last()),
        forall|j: int| 0 <= j < r.0 ==> set.holds(#[trigger] s[j]),
        forall|j: int| r.1 <= j < s.len() ==> set.holds(#[trigger] s[j]),
{
    let a = lemma_trim_start_shape(s, set);
    let t = s.skip(a);
    let b = lemma_trim_end_shape(t, set);
    assert(t.take(b) =~= s.subrange(a, a + b));
    assert forall|j: int| a + b <= j < s.len() implies set.holds(#[trigger] s[j]) by {
        assert(s[j] == t[j - a]);
    }
    if b > 0 {
        assert(trim_set(s, set)[0] == t[0]);
    }
    (a, a + b)
}

proof fn lemma_trim_start_shape(s: Seq<char>, set: TrimSet) -> (k: int)
    ensures
        0 <= k <= s.len(),
        trim_start_set(s, set) == s.skip(k),
        trim_start_set(s, set).len() > 0 ==> !set.holds(trim_start_set(s, set)[0]),
        forall|j: int| 0 <= j < k ==> set.holds(#[trigger] s[j]),
    decreases s.len(),
{
    if s.len() > 0 && set.holds(s[0]) {
        let k = lemma_trim_start_shape(s.drop_first(), set);
        assert(s.drop_first().skip(k) =~= s.skip(k + 1));
        assert forall|j: int| 0 <= j < k + 1 implies set.holds(#[trigger] s[j]) by {
            if j > 0 {
                assert(s[j] == s.drop_first()[j - 1]);
            }
        }
        k + 1
    } else {
        assert(s.skip(0) =~= s);
        0
    }
}

proof fn lemma_trim_end_shape(s: Seq<char>, set: TrimSet) -> (k: int)
    ensures
        0 <= k <= s.len(),
        trim_end_set(s, set) == s.take(k),
        trim_end_set(s, set).len() > 0 ==> !set.holds(trim_end_set(s, set).last()),
        forall|j: int| k <= j < s.len() ==> set.holds(#[trigger] s[j]),
    decreases s.len(),
{
    if s.len() > 0 && set.holds(s.last()) {
        let k = lemma_trim_end_shape(s.drop_last(), set);
        assert(s.drop_last().take(k) =~= s.take(k));
        assert forall|j: int| k <= j < s.len() implies set.holds(#[trigger] s[j]) by {
            if j < s.len() - 1 {
                assert(s[j] == s.drop_last()[j]);
            }
        }
        k
    } else {
        assert(s.take(s.len() as int) =~= s);
        s.len() as int
    }
}

/// Trimming a sequence that neither starts nor ends with a character of the
/// set leaves it unchanged.
pub proof fn lemma_trim_noop(s: Seq<char>, set: TrimSet)
    requires
        s.len() > 0 ==> !set.holds(s[0]) && !set.holds(s.last()),
    ensures
        trim_set(s, set) == s,
{
    assert(trim_start_set(s, set) == s);
}

/// Trimming is idempotent.
pub proof fn lemma_trim_idempotent(s: Seq<char>, set: TrimSet)
    ensures
        trim_set(trim_set(s, set), set) == trim_set(s, set),
{
    lemma_trim_shape(s, set);
    lemma_trim_noop(trim_set(s, set), set);
}

/// The trimmed text of an element: its text pieces joined with single
/// spaces, without leading or trailing white space.
pub open spec fn element_text(nodes: Seq<Seq<char>>) -> Seq<char> {
    trim_ws(join(nodes, seq![' ']))
}

/// The trimmed text of an element from its text pieces.
pub fn element_text_of(nodes: &Vec<String>) -> (r: String)
    ensures
        r@ == element_text(string_views(nodes@)),
{
    let sep = vec![' '];
    let joined = join_strings(nodes, sep.as_slice());
    proof {
        assert(sep@ =~= seq![' ']);
    }
    let t = trim_chars(joined.as_slice(), TrimSet::WhiteSpace);
    string_of(t.as_slice())
}

/// `s` without leading and trailing white space, as `str::trim` returns it.
pub fn trim_str(s: &str) -> (r: String)
    ensures
        r@ == trim_ws(s@),
{
    let v = chars_of(s);
    let t = trim_chars(v.as_slice(), TrimSet::WhiteSpace);
    string_of(t.as_slice())
}

/// `s` with every occurrence of `pat` removed, as `str::replace(pat, "")`
/// returns it.
pub fn remove_str(s: &str, pat: &str) -> (r: String)
    ensures
        r@ == remove_all(s@, pat@),
{
    let v = chars_of(s);
    let p = chars_of(pat);
    let t = remove_all_chars(v.as_slice(), p.as_slice());
    string_of(t.as_slice())
}

/// `a` followed by `b`.
pub fn concat_str(a: &str, b: &str) -> (r: String)
    ensures
        r@ == a@ + b@,
{
    let mut r = String::from_str(a);
    r.append(b);
    r
}


/// The pieces trimmed of white space, with the pieces left empty dropped,
/// in order (`.map(str::trim).filter(|p| !p.is_empty())`).
pub open spec fn trimmed_nonempty(pieces: Seq<Seq<char>>) -> Seq<Seq<char>>
    decreases pieces.len(),
{
    if pieces.len() == 0 {
        Seq::<Seq<char>>::empty()
    } else {
        let r = trimmed_nonempty(pieces.drop_last());
        let t = trim_ws(pieces.last());
        if t.len() > 0 {
            r.push(t)
        } else {
            r
        }
    }
}

/// Every piece that `trimmed_nonempty` keeps is non-empty and has no
/// white space at either end.
pub proof fn lemma_trimmed_nonempty_clean(pieces: Seq<Seq<char>>)
    ensures
        forall|i: int| 0 <= i < trimmed_nonempty(pieces).len() ==> {
            let p = #[trigger] trimmed_nonempty(pieces)[i];
            &&& p.len() > 0
            &&& !is_white_space(p[0])
            &&& !is_white_space(p.last())
        },
    decreases pieces.len(),
{
    if pieces.len() > 0 {
        lemma_trimmed_nonempty_clean(pieces.drop_last());
        lemma_trim_shape(pieces.last(), TrimSet::WhiteSpace);
        let r = trimmed_nonempty(pieces.drop_last());
        let t = trim_ws(pieces.last());
        assert forall|i: int| 0 <= i < trimmed_nonempty(pieces).len() implies {
            let p = #[trigger] trimmed_nonempty(pieces)[i];
            &&& p.len() > 0
            &&& !is_white_space(p[0])
            &&& !is_white_space(p.last())
        } by {
            if i < r.len() {
                assert(trimmed_nonempty(pieces)[i] == r[i]);
            } else {
                assert(trimmed_nonempty(pieces)[i] == t);
            }
        }
    }
}

/// The pieces trimmed of white space, the empty ones dropped.
pub fn trimmed_nonempty_of(pieces: &Vec<Vec<char>>) -> (r: Vec<String>)
    ensures
        string_views(r@) == trimmed_nonempty(seq_views(pieces@)),
{
    let mut out: Vec<String> = Vec::new();
    let mut i: usize = 0;
    while i < pieces.len()
        invariant
            i <= pieces@.len(),
            string_views(out@) == trimmed_nonempty(seq_views(pieces@).take(i as int)),
        decreases pieces@.len() - i,
    {
        let t = trim_chars(pieces[i].as_slice(), TrimSet::WhiteSpace);
        let ghost before = out@;
        proof {
            let ps = seq_views(pieces@).take(i + 1);
            assert(ps.drop_last() =~= seq_views(pieces@).take(i as int));
            assert(ps.last() == pieces@[i as int]@);
        }
        if t.len() > 0 {
            out.push(string_of(t.as_slice()));
            proof {
                assert(string_views(out@) =~= string_views(before).push(t@));
            }
        }
        i = i + 1;
    }
    proof {
        assert(seq_views(pieces@).take(pieces@.len() as int) =~= seq_views(pieces@));
    }
    out
}


/// A string made of the characters of `v` from `a` up to `b`.
pub fn string_of_range(v: &[char], a: usize, b: usize) -> (s: String)
    requires
        a <= b <= v@.len(),
    ensures
        s@ == v@.subrange(a as int, b as int),
{
    let mut s = String::new();
    let mut i: usize = a;
    while i < b
        invariant
            a <= i <= b <= v@.len(),
            s@ == v@.subrange(a as int, i as int),
        decreases b - i,
    {
        push_char(&mut s, v[i]);
        proof {
            assert(v@.subrange(a as int, i + 1) =~= v@.subrange(a as int, i as int).push(v@[i as int]));
        }
        i = i + 1;
    }
    s
}


proof fn lemma_join_push_last(r: Seq<Seq<char>>, sep: Seq<char>, x: char)
    requires
        r.len() >= 1,
    ensures
        join(r.update(r.len() - 1, r.last().push(x)), sep) == join(r, sep).push(x),
{
    let u = r.update(r.len() - 1, r.last().push(x));
    if r.len() == 1 {
        assert(u[0] == r[0].push(x));
    } else {
        assert(u.drop_last() =~= r.drop_last());
        assert(join(u, sep) =~= join(r, sep).push(x));
    }
}

/// Joining the pieces of a split at `c` with `c` gives back the text.
pub proof fn lemma_join_split(s: Seq<char>, c: char)
    ensures
        join(split_on(s, seq![c]), seq![c]) == s,
    decreases s.len(),
{
    if s.len() > 0 {
        let r = split_on(s.drop_last(), seq![c]);
        lemma_join_split(s.drop_last(), c);
        lemma_split_on_nonempty(s.drop_last(), seq![c]);
        if seq![c].contains(s.last()) {
            let e = Seq::<char>::empty();
            assert(r.push(e).drop_last() =~= r);
            assert(s.last() == c) by {
                assert(seq![c][0] == c);
            }
            assert(join(r.push(e), seq![c]) =~= s);
        } else {
            lemma_join_push_last(r, seq![c], s.last());
            assert(s.drop_last().push(s.last()) =~= s);
        }
    }
}

/// A text in which the pattern does not occur is left as it is by
/// removing the pattern.
pub proof fn lemma_remove_absent(s: Seq<char>, pat: Seq<char>)
    requires
        !contains_seq(s, pat),
    ensures
        remove_all(s, pat) == s,
    decreases s.len(),
{
    if pat.len() > 0 && s.len() >= pat.len() {
        if s.take(pat.len() as int) == pat {
            assert(occurs_at(s, pat, 0)) by {
                assert(s.subrange(0, pat.len() as int) =~= s.take(pat.len() as int));
            }
        }
        assert forall|i: int| !occurs_at(s.skip(1), pat, i) by {
            if occurs_at(s.skip(1), pat, i) {
                assert(s.subrange(i + 1, i + 1 + pat.len()) =~= s.skip(1).subrange(i, i + pat.len()));
                assert(occurs_at(s, pat, i + 1));
            }
        }
        lemma_remove_absent(s.skip(1), pat);
        assert(seq![s[0]] + s.skip(1) =~= s);
    }
}

} // verus!
