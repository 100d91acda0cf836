//! Decisions of the transcription tool: candidate quotes, provider choice
//! and transcript polling.

use vstd::prelude::*;
use vstd::utf8::encode_utf8;
use crate::text::{
    chars_of, lemma_split_on_concat, lemma_split_on_no_sep, lemma_trimmed_nonempty_concat,
    lemma_trimmed_nonempty_single, split_chars, split_on, string_views, to_lowercase, lowercase_of,
    trim_ws, trimmed_nonempty, trimmed_nonempty_of,
};

verus! {

/// The sentences of a text: the pieces between `.`, `!` and `?`, trimmed,
/// the empty ones dropped (what `split_terminator`, `trim` and the filter
/// give, since the piece a final terminator leaves is empty).
pub open spec fn sentences(text: Seq<char>) -> Seq<Seq<char>> {
    trimmed_nonempty(split_on(text, seq!['.', '!', '?']))
}

/// The length of a text in UTF-8 bytes, as `str::len` counts it.
pub open spec fn byte_len(s: Seq<char>) -> nat {
    encode_utf8(s).len()
}

/// Sentence `i` ranks before sentence `j`: it is longer in bytes, or as
/// long and comes later (a stable ascending sort by length, reversed).
pub open spec fn ranks_before(sents: Seq<Seq<char>>, i: int, j: int) -> bool {
    byte_len(sents[i]) > byte_len(sents[j]) || (byte_len(sents[i]) == byte_len(sents[j]) && i > j)
}

/// `order` lists the `k` best-ranked sentences, best first.
pub open spec fn is_top_ranking(sents: Seq<Seq<char>>, order: Seq<int>, k: int) -> bool {
    &&& order.len() == k
    &&& forall|a: int| 0 <= a < k ==> 0 <= #[trigger] order[a] < sents.len()
    &&& forall|a: int, b: int| 0 <= a < b < k ==> ranks_before(sents, #[trigger] order[a], #[trigger] order[b])
    &&& forall|a: int, j: int| 0 <= a < k && 0 <= j < sents.len() && !order.contains(j) ==>
        #[trigger] ranks_before(sents, order[a], j)
}

/// The number of quotes: `top_n`, or all sentences when there are fewer.
pub open spec fn quote_count(n: int, top_n: int) -> int {
    if top_n < n { top_n } else { n }
}

/// The candidate quotes of a text: its `top_n` longest sentences (by UTF-8
/// length), longest first, among equally long ones the later first.
pub open spec fn is_quotes_of(text: Seq<char>, top_n: int, quotes: Seq<Seq<char>>) -> bool {
    let sents = sentences(text);
    exists|order: Seq<int>| {
        &&& is_top_ranking(sents, order, quote_count(sents.len() as int, top_n))
        &&& quotes == order.map_values(|i: int| sents[i])
    }
}

/// The candidate quotes of a transcript.
pub fn extract_candidate_quotes(text: &str, top_n: usize) -> (quotes: Vec<String>)
    ensures
        is_quotes_of(text@, top_n as int, string_views(quotes@)),
{
    let v = chars_of(text);
    let seps = vec!['.', '!', '?'];
    let pieces = split_chars(v.as_slice(), seps.as_slice());
    proof {
        assert(seps@ =~= seq!['.', '!', '?']);
    }
    let sents = trimmed_nonempty_of(&pieces);
    let ghost ss = string_views(sents@);
    proof {
        assert(ss == sentences(text@));
    }
    let n = sents.len();
    let mut lens: Vec<usize> = Vec::new();
    let mut chosen: Vec<bool> = Vec::new();
    let mut i: usize = 0;
    while i < n
        invariant
            n == sents@.len(),
            ss == string_views(sents@),
            i <= n,
            lens@.len() == i,
            chosen@.len() == i,
            forall|j: int| 0 <= j < i ==> lens@[j] == byte_len(#[trigger] ss[j]),
            forall|j: int| 0 <= j < i ==> !#[trigger] chosen@[j],
        decreases n - i,
    {
        lens.push(sents[i].as_str().as_bytes().len());
        chosen.push(false);
        proof {
            assert(ss[i as int] == sents@[i as int]@);
        }
        i = i + 1;
    }
    let k = if top_n < n { top_n } else { n };
    let mut order: Vec<usize> = Vec::new();
    let ghost mut r: Seq<int> = Seq::empty();
    let mut t: usize = 0;
    while t < k
        invariant
            n == sents@.len(),
            ss == string_views(sents@),
            k <= n,
            t <= k,
            lens@.len() == n,
            chosen@.len() == n,
            forall|j: int| 0 <= j < n ==> lens@[j] == byte_len(#[trigger] ss[j]),
            order@.len() == t,
            r.len() == t,
            forall|a: int| 0 <= a < t ==> r[a] == order@[a] as int,
            forall|j: int| 0 <= j < n ==> (#[trigger] chosen@[j] <==> r.contains(j)),
            forall|a: int| 0 <= a < t ==> 0 <= #[trigger] r[a] < n,
            forall|a: int, b: int| 0 <= a < b < t ==> ranks_before(ss, #[trigger] r[a], #[trigger] r[b]),
            forall|a: int, j: int| 0 <= a < t && 0 <= j < n && !r.contains(j) ==> #[trigger] ranks_before(ss, r[a], j),
        decreases k - t,
    {
        proof {
            // fewer than n chosen, so some index is free
            if forall|j: int| 0 <= j < n ==> #[trigger] r.contains(j) {
                vstd::set_lib::lemma_int_range(0, n as int);
                r.lemma_cardinality_of_set();
                vstd::seq_lib::seq_to_set_is_finite(r);
                assert(vstd::set_lib::set_int_range(0, n as int).subset_of(r.to_set()));
                vstd::set_lib::lemma_len_subset(vstd::set_lib::set_int_range(0, n as int), r.to_set());
                assert(false);
            }
        }
        let mut best: usize = 0;
        let mut found = false;
        let mut j: usize = 0;
        while j < n
            invariant
                n == sents@.len(),
                ss == string_views(sents@),
                j <= n,
                lens@.len() == n,
                chosen@.len() == n,
                forall|x: int| 0 <= x < n ==> lens@[x] == byte_len(#[trigger] ss[x]),
                found ==> best < n && !chosen@[best as int],
                !found ==> forall|x: int| 0 <= x < j ==> #[trigger] chosen@[x],
                found ==> forall|x: int| 0 <= x < j && !chosen@[x] && x != best ==> ranks_before(ss, best as int, x),
            decreases n - j,
        {
            if !chosen[j] {
                if !found || lens[j] > lens[best] || (lens[j] == lens[best] && j > best) {
                    best = j;
                    found = true;
                }
            }
            j = j + 1;
        }
        proof {
            if !found {
                let w = choose|x: int| 0 <= x < n && !r.contains(x);
                assert(chosen@[w]);
            }
        }
        let ghost old_r = r;
        chosen.set(best, true);
        order.push(best);
        proof {
            r = r.push(best as int);
            assert forall|x: int| 0 <= x < n implies (#[trigger] chosen@[x] <==> r.contains(x)) by {
                if x == best as int {
                    assert(r[t as int] == x);
                } else {
                    if r.contains(x) {
                        let a = choose|a: int| 0 <= a < r.len() && r[a] == x;
                        assert(a < t);
                        assert(old_r[a] == x);
                    }
                    if old_r.contains(x) {
                        let a = choose|a: int| 0 <= a < old_r.len() && old_r[a] == x;
                        assert(r[a] == x);
                    }
                }
            }
            assert forall|a: int, b: int| 0 <= a < b < t + 1 implies ranks_before(ss, #[trigger] r[a], #[trigger] r[b]) by {
                if b < t {
                    assert(r[a] == old_r[a] && r[b] == old_r[b]);
                } else {
                    assert(r[a] == old_r[a]);
                    assert(!old_r.contains(best as int));
                }
            }
            assert forall|a: int, x: int| 0 <= a < t + 1 && 0 <= x < n && !r.contains(x) implies #[trigger] ranks_before(ss, r[a], x) by {
                assert(x != best as int) by {
                    assert(r[t as int] == best as int);
                }
                assert(!old_r.contains(x)) by {
                    if old_r.contains(x) {
                        let c = choose|c: int| 0 <= c < old_r.len() && old_r[c] == x;
                        assert(r[c] == x);
                    }
                }
                if a < t {
                    assert(r[a] == old_r[a]);
                } else {
                    assert(!chosen@[x] || x == best as int);
                }
            }
        }
        t = t + 1;
    }
    let mut quotes: Vec<String> = Vec::new();
    let mut a: usize = 0;
    while a < k
        invariant
            n == sents@.len(),
            ss == string_views(sents@),
            k <= n,
            order@.len() == k,
            r.len() == k,
            forall|b: int| 0 <= b < k ==> r[b] == order@[b] as int,
            forall|b: int| 0 <= b < k ==> 0 <= #[trigger] r[b] < n,
            a <= k,
            string_views(quotes@) == r.take(a as int).map_values(|i: int| ss[i]),
        decreases k - a,
    {
        let idx = order[a];
        proof {
            assert(r[a as int] == order@[a as int] as int);
            assert(ss[idx as int] == sents@[idx as int]@);
        }
        let ghost before = quotes@;
        quotes.push(sents[idx].clone());
        proof {
            assert(string_views(quotes@) =~= string_views(before).push(ss[idx as int]));
            assert(r.take(a + 1).map_values(|i: int| ss[i]) =~= r.take(a as int).map_values(|i: int| ss[i]).push(ss[r[a as int]]));
        }
        a = a + 1;
    }
    proof {
        assert(r.take(k as int) =~= r);
        assert(is_top_ranking(ss, r, quote_count(ss.len() as int, top_n as int)));
        assert(string_views(quotes@) == r.map_values(|i: int| ss[i]));
    }
    quotes
}

/// A transcription service.
#[derive(Clone, Copy, PartialEq, Eq, Debug)]
pub enum Provider {
    AssemblyAi,
    OpenAi,
}

/// The service named by the provider setting: AssemblyAI when the setting,
/// lowercased, is `assemblyai`, OpenAI otherwise.
pub open spec fn provider_spec(name: Seq<char>) -> Provider {
    if lowercase_of(name) == "assemblyai"@ { Provider::AssemblyAi } else { Provider::OpenAi }
}

/// The service named by a provider setting already in lower case.
pub fn provider_for_lowercase(low: &str) -> (p: Provider)
    ensures
        p == (if low@ == "assemblyai"@ { Provider::AssemblyAi } else { Provider::OpenAi }),
{
    let owned = String::from_str(low);
    let target = String::from_str("assemblyai");
    if owned == target { Provider::AssemblyAi } else { Provider::OpenAi }
}

/// The service named by the provider setting.
pub fn choose_provider(name: &str) -> (p: Provider)
    ensures
        p == provider_spec(name@),
{
    let low = to_lowercase(name);
    provider_for_lowercase(low.as_str())
}

/// The transcript text made of the chunks' texts, in order: with AssemblyAI
/// each chunk's text follows a blank line (`"\n\n"`), with OpenAI the texts
/// are joined as they are.
pub open spec fn stitched(p: Provider, texts: Seq<Seq<char>>) -> Seq<char>
    decreases texts.len(),
{
    if texts.len() == 0 {
        Seq::<char>::empty()
    } else {
        stitched(p, texts.drop_last()) + match p {
            Provider::AssemblyAi => "\n\n"@ + texts.last(),
            Provider::OpenAi => texts.last(),
        }
    }
}

/// The transcript text made of the chunks' texts (see `stitched`).
pub fn stitch_transcripts(p: Provider, texts: &Vec<String>) -> (r: String)
    ensures
        r@ == stitched(p, string_views(texts@)),
{
    let mut out = String::new();
    let mut i: usize = 0;
    while i < texts.len()
        invariant
            i <= texts@.len(),
            out@ == stitched(p, string_views(texts@).take(i as int)),
        decreases texts@.len() - i,
    {
        let ghost before = out@;
        match p {
            Provider::AssemblyAi => {
                out.append("\n\n");
                out.append(texts[i].as_str());
            },
            Provider::OpenAi => {
                out.append(texts[i].as_str());
            },
        }
        proof {
            let ts = string_views(texts@);
            assert(ts.take(i + 1).drop_last() =~= ts.take(i as int));
            assert(ts.take(i + 1).last() == texts@[i as int]@);
            assert(out@ =~= stitched(p, ts.take(i + 1)));
        }
        i = i + 1;
    }
    proof {
        assert(string_views(texts@).take(texts@.len() as int) =~= string_views(texts@));
    }
    out
}

/// What to do after a transcript status check.
#[derive(Clone, Copy, PartialEq, Eq, Debug)]
pub enum PollAction {
    /// The transcript is ready.
    Done,
    /// The service reported an error.
    Fail,
    /// Check again after a pause.
    Wait,
}

/// The action for a status: `completed` is done, `error` fails, anything
/// else (a missing status reads as empty) waits.
pub open spec fn poll_spec(status: Seq<char>) -> PollAction {
    if status == "completed"@ { PollAction::Done } else if status == "error"@ { PollAction::Fail } else { PollAction::Wait }
}

/// The action for a transcript status.
pub fn poll_action(status: &str) -> (a: PollAction)
    ensures
        a == poll_spec(status@),
{
    let s = String::from_str(status);
    if s == String::from_str("completed") {
        PollAction::Done
    } else if s == String::from_str("error") {
        PollAction::Fail
    } else {
        PollAction::Wait
    }
}


proof fn lemma_ranks_before_asym(sents: Seq<Seq<char>>, i: int, j: int)
    ensures
        !(ranks_before(sents, i, j) && ranks_before(sents, j, i)),
        !ranks_before(sents, i, i),
{
}

/// `x` ranks before `o[a]`'s successors and the unlisted sentences: it ranks
/// before every sentence that is not among `o[0..=a]`.
proof fn lemma_ranks_before_rest(sents: Seq<Seq<char>>, o: Seq<int>, k: int, a: int, y: int)
    requires
        is_top_ranking(sents, o, k),
        0 <= a < k,
        0 <= y < sents.len(),
        forall|b: int| 0 <= b <= a ==> #[trigger] o[b] != y,
    ensures
        ranks_before(sents, o[a], y),
{
    if o.contains(y) {
        let b = choose|b: int| 0 <= b < o.len() && o[b] == y;
        assert(b > a);
        assert(ranks_before(sents, o[a], o[b]));
    } else {
        assert(ranks_before(sents, o[a], y));
    }
}

proof fn lemma_top_ranking_prefix(sents: Seq<Seq<char>>, o1: Seq<int>, o2: Seq<int>, k: int, m: int)
    requires
        is_top_ranking(sents, o1, k),
        is_top_ranking(sents, o2, k),
        0 <= m <= k,
    ensures
        forall|a: int| 0 <= a < m ==> o1[a] == o2[a],
    decreases m,
{
    if m > 0 {
        lemma_top_ranking_prefix(sents, o1, o2, k, m - 1);
        let a = m - 1;
        let x = o1[a];
        let y = o2[a];
        if x != y {
            assert forall|b: int| 0 <= b <= a implies #[trigger] o1[b] != y by {
                if b < a {
                    assert(o1[b] == o2[b]);
                    assert(ranks_before(sents, o2[b], o2[a]));
                    lemma_ranks_before_asym(sents, y, y);
                }
            }
            assert forall|b: int| 0 <= b <= a implies #[trigger] o2[b] != x by {
                if b < a {
                    assert(o1[b] == o2[b]);
                    assert(ranks_before(sents, o1[b], o1[a]));
                    lemma_ranks_before_asym(sents, x, x);
                }
            }
            lemma_ranks_before_rest(sents, o1, k, a, y);
            lemma_ranks_before_rest(sents, o2, k, a, x);
            lemma_ranks_before_asym(sents, x, y);
        }
    }
}

/// The candidate quotes of a text are determined by it: two lists that both
/// meet the description are the same list.
pub proof fn lemma_quotes_unique(text: Seq<char>, top_n: int, q1: Seq<Seq<char>>, q2: Seq<Seq<char>>)
    requires
        is_quotes_of(text, top_n, q1),
        is_quotes_of(text, top_n, q2),
    ensures
        q1 == q2,
{
    let sents = sentences(text);
    let k = quote_count(sents.len() as int, top_n);
    let o1 = choose|o: Seq<int>| is_top_ranking(sents, o, k) && q1 == o.map_values(|i: int| sents[i]);
    let o2 = choose|o: Seq<int>| is_top_ranking(sents, o, k) && q2 == o.map_values(|i: int| sents[i]);
    lemma_top_ranking_prefix(sents, o1, o2, k, k);
    assert(o1 =~= o2);
}

/// The candidate quotes are sentences of the text, never more than `top_n`
/// of them, each at least as long in bytes as the next.
pub proof fn lemma_quotes_shape(text: Seq<char>, top_n: int, q: Seq<Seq<char>>)
    requires
        is_quotes_of(text, top_n, q),
        top_n >= 0,
    ensures
        q.len() <= top_n,
        q.len() <= sentences(text).len(),
        forall|a: int| 0 <= a < q.len() ==> sentences(text).contains(#[trigger] q[a]),
        forall|a: int| 0 <= a < q.len() - 1 ==> byte_len(#[trigger] q[a]) >= byte_len(q[a + 1]),
{
    let sents = sentences(text);
    let k = quote_count(sents.len() as int, top_n);
    let o = choose|o: Seq<int>| is_top_ranking(sents, o, k) && q == o.map_values(|i: int| sents[i]);
    assert forall|a: int| 0 <= a < q.len() implies sents.contains(#[trigger] q[a]) by {
        assert(q[a] == sents[o[a]]);
    }
    assert forall|a: int| 0 <= a < q.len() - 1 implies byte_len(#[trigger] q[a]) >= byte_len(q[a + 1]) by {
        assert(ranks_before(sents, o[a], o[a + 1]));
    }
}

/// Whether `c` ends a sentence: `.`, `!` or `?`.
pub open spec fn is_terminator(c: char) -> bool {
    c == '.' || c == '!' || c == '?'
}

/// A text without `.`, `!` or `?` is one sentence, its trim, when that trim
/// is not empty, and no sentence otherwise: commas and every other
/// character stay inside the sentence.
pub proof fn lemma_sentences_single(text: Seq<char>)
    requires
        forall|i: int| 0 <= i < text.len() ==> !is_terminator(#[trigger] text[i]),
    ensures
        sentences(text) == (if trim_ws(text).len() > 0 { seq![trim_ws(text)] } else { Seq::<Seq<char>>::empty() }),
{
    let seps = seq!['.', '!', '?'];
    assert forall|i: int| 0 <= i < text.len() implies !seps.contains(#[trigger] text[i]) by {
        if seps.contains(text[i]) {
            let j = choose|j: int| 0 <= j < seps.len() && seps[j] == text[i];
            assert(is_terminator(text[i]));
        }
    }
    lemma_split_on_no_sep(text, seps);
    lemma_trimmed_nonempty_single(text);
}

/// Each of `.`, `!` and `?` ends a sentence: the sentences of a text cut at
/// one of them are those before it followed by those after it.
pub proof fn lemma_sentences_split(a: Seq<char>, t: char, b: Seq<char>)
    requires
        is_terminator(t),
    ensures
        sentences(a + seq![t] + b) == sentences(a) + sentences(b),
{
    let seps = seq!['.', '!', '?'];
    assert(seps.contains(t)) by {
        if t == '.' { assert(seps[0] == t); } else if t == '!' { assert(seps[1] == t); } else { assert(seps[2] == t); }
    }
    lemma_split_on_concat(a, t, b, seps);
    lemma_trimmed_nonempty_concat(split_on(a, seps), split_on(b, seps));
}

/// A transcript that is a single sentence (no `.`, `!` or `?`, non-empty
/// once trimmed) gives, for any `top_n` of at least one, exactly one
/// candidate quote: the whole trimmed text.
pub proof fn lemma_quote_of_single_sentence(text: Seq<char>, top_n: int, q: Seq<Seq<char>>)
    requires
        forall|i: int| 0 <= i < text.len() ==> !is_terminator(#[trigger] text[i]),
        trim_ws(text).len() > 0,
        top_n >= 1,
        is_quotes_of(text, top_n, q),
    ensures
        q == seq![trim_ws(text)],
{
    lemma_sentences_single(text);
    let sents = sentences(text);
    let k = quote_count(sents.len() as int, top_n);
    assert(k == 1);
    let o = choose|o: Seq<int>| is_top_ranking(sents, o, k) && q == o.map_values(|i: int| sents[i]);
    assert(0 <= o[0] < 1);
    assert(q =~= seq![trim_ws(text)]);
}

} // verus!
