//! Text and URL similarity for cross-source clustering.
//!
//! - Jaccard overlap of word tokens for titles
//! - canonical URL comparison for links
use vstd::prelude::*;

use crate::text::{
    before_first, chars_of, index_of_char, join, join_strings, eq_chars, eq_str, first_index, has_prefix, has_prefix_at,
    is_white_space, is_whitespace, lemma_first_index, lowercase, string_of, string_of_range,
    lowercase_chars, trim_end_char, views,
};

verus! {

broadcast use vstd::string::group_string_axioms;

/// Characters that separate words: white space and the three dashes.
pub open spec fn is_separator(c: char) -> bool {
    is_white_space(c) || c == '-' || c == '\u{2013}' || c == '\u{2014}'
}

/// Characters kept inside a word: ASCII letters and digits, and every
/// character beyond ASCII (CJK and other scripts).
pub open spec fn is_word_char(c: char) -> bool {
    (c as u32) > 0x7F || ('0' <= c <= '9') || ('a' <= c <= 'z') || ('A' <= c <= 'Z')
}

/// The English stop words that are dropped from titles.
pub open spec fn stop_word(w: Seq<char>) -> bool {
    ||| w == "a"@ ||| w == "an"@ ||| w == "the"@ ||| w == "is"@ ||| w == "are"@
    ||| w == "was"@ ||| w == "were"@ ||| w == "be"@ ||| w == "been"@ ||| w == "in"@
    ||| w == "on"@ ||| w == "at"@ ||| w == "to"@ ||| w == "for"@ ||| w == "of"@
    ||| w == "with"@ ||| w == "by"@ ||| w == "and"@ ||| w == "or"@ ||| w == "but"@
    ||| w == "not"@ ||| w == "no"@ ||| w == "it"@ ||| w == "its"@ ||| w == "this"@
    ||| w == "that"@ ||| w == "has"@ ||| w == "have"@ ||| w == "had"@ ||| w == "do"@
    ||| w == "does"@
}

/// Whether `word` is a stop word.
pub fn is_stop_word(word: &Vec<char>) -> (r: bool)
    ensures
        r == stop_word(word@),
{
    eq_str(word, "a") || eq_str(word, "an") || eq_str(word, "the") || eq_str(word, "is")
        || eq_str(word, "are") || eq_str(word, "was") || eq_str(word, "were") || eq_str(word, "be")
        || eq_str(word, "been") || eq_str(word, "in") || eq_str(word, "on") || eq_str(word, "at")
        || eq_str(word, "to") || eq_str(word, "for") || eq_str(word, "of") || eq_str(word, "with")
        || eq_str(word, "by") || eq_str(word, "and") || eq_str(word, "or") || eq_str(word, "but")
        || eq_str(word, "not") || eq_str(word, "no") || eq_str(word, "it") || eq_str(word, "its")
        || eq_str(word, "this") || eq_str(word, "that") || eq_str(word, "has") || eq_str(word, "have")
        || eq_str(word, "had") || eq_str(word, "do") || eq_str(word, "does")
}

/// Appends a finished word when it is non-empty and not a stop word.
pub open spec fn add_token(tokens: Seq<Seq<char>>, word: Seq<char>) -> Seq<Seq<char>> {
    if word.len() > 0 && !stop_word(word) {
        tokens.push(word)
    } else {
        tokens
    }
}

/// Reading the first `n` characters of `s`: the words finished so far and the
/// word being read (word characters only).
pub open spec fn token_scan(s: Seq<char>, n: nat) -> (Seq<Seq<char>>, Seq<char>)
    decreases n,
{
    if n == 0 || n > s.len() {
        (seq![], seq![])
    } else {
        let (tokens, cur) = token_scan(s, (n - 1) as nat);
        let c = s[n - 1];
        if is_separator(c) {
            (add_token(tokens, cur), seq![])
        } else if is_word_char(c) {
            (tokens, cur.push(c))
        } else {
            (tokens, cur)
        }
    }
}

/// The words of already-lowercased text: split at separators, stripped of
/// punctuation, without empty words and stop words, in order.
pub open spec fn tokens_of(s: Seq<char>) -> Seq<Seq<char>> {
    let (tokens, cur) = token_scan(s, s.len());
    add_token(tokens, cur)
}

/// The views of a vector of character vectors.
pub open spec fn word_views(v: Seq<Vec<char>>) -> Seq<Seq<char>> {
    v.map_values(|x: Vec<char>| x@)
}

fn is_separator_char(c: char) -> (r: bool)
    ensures
        r == is_separator(c),
{
    is_whitespace(c) || c == '-' || c == '\u{2013}' || c == '\u{2014}'
}

fn is_word_character(c: char) -> (r: bool)
    ensures
        r == is_word_char(c),
{
    (c as u32) > 0x7F || ('0' <= c && c <= '9') || ('a' <= c && c <= 'z') || ('A' <= c && c <= 'Z')
}

fn push_token(tokens: &mut Vec<Vec<char>>, word: Vec<char>)
    ensures
        word_views(final(tokens)@) == add_token(word_views(old(tokens)@), word@),
{
    if word.len() > 0 && !is_stop_word(&word) {
        let ghost prev = tokens@;
        let ghost w = word@;
        tokens.push(word);
        assert(word_views(tokens@) == word_views(prev).push(w));
    }
}

/// The words of `s` as character vectors (see `tokenize`).
pub fn token_words(s: &str) -> (words: Vec<Vec<char>>)
    ensures
        word_views(words@) == tokens_of(lowercase(s@)),
{
    let cs = lowercase_chars(s);
    lowered_words(&cs)
}

/// The words of already-lowercased text (see `tokens_of`).
pub fn lowered_words(cs: &Vec<char>) -> (words: Vec<Vec<char>>)
    ensures
        word_views(words@) == tokens_of(cs@),
{
    let mut words: Vec<Vec<char>> = Vec::new();
    let mut cur: Vec<char> = Vec::new();
    let mut i: usize = 0;
    while i < cs.len()
        invariant
            i <= cs.len(),
            (word_views(words@), cur@) == token_scan(cs@, i as nat),
        decreases cs.len() - i,
    {
        let c = cs[i];
        if is_separator_char(c) {
            let done = cur;
            push_token(&mut words, done);
            cur = Vec::new();
        } else if is_word_character(c) {
            cur.push(c);
        }
        i += 1;
    }
    push_token(&mut words, cur);
    words
}

/// Splits a title into lowercase words, dropping punctuation and stop words.
pub fn tokenize(s: &str) -> (tokens: Vec<String>)
    ensures
        views(tokens@) == tokens_of(lowercase(s@)),
{
    let words = token_words(s);
    let mut out: Vec<String> = Vec::new();
    let mut i: usize = 0;
    while i < words.len()
        invariant
            i <= words.len(),
            views(out@) == word_views(words@).take(i as int),
        decreases words.len() - i,
    {
        let ghost prev = out@;
        let w = string_of(&words[i]);
        out.push(w);
        assert(views(out@) == views(prev).push(words@[i as int]@));
        assert(word_views(words@).take(i + 1) == word_views(words@).take(i as int).push(words@[i as int]@));
        i += 1;
    }
    assert(word_views(words@).take(words.len() as int) == word_views(words@));
    out
}


/// `https://`
pub open spec fn https_prefix() -> Seq<char> {
    seq!['h', 't', 't', 'p', 's', ':', '/', '/']
}

/// `http://`
pub open spec fn http_prefix() -> Seq<char> {
    seq!['h', 't', 't', 'p', ':', '/', '/']
}

/// `www.`
pub open spec fn www_prefix() -> Seq<char> {
    seq!['w', 'w', 'w', '.']
}

/// A lowercased URL without its `https://` or `http://` scheme.
pub open spec fn strip_scheme(s: Seq<char>) -> Seq<char> {
    if has_prefix(s, https_prefix()) {
        s.skip(8)
    } else if has_prefix(s, http_prefix()) {
        s.skip(7)
    } else {
        s
    }
}

/// `s` without a leading `www.`.
pub open spec fn strip_www(s: Seq<char>) -> Seq<char> {
    if has_prefix(s, www_prefix()) {
        s.skip(4)
    } else {
        s
    }
}

/// The part of `s` after its first `c` (nothing when there is none).
pub open spec fn after_first(s: Seq<char>, c: char) -> Seq<char> {
    if first_index(s, c) < s.len() {
        s.skip(first_index(s, c) + 1)
    } else {
        seq![]
    }
}

/// Reading the first `n` characters of `s`: the pieces between `c`s ended so
/// far and the piece still open.
pub open spec fn piece_scan(s: Seq<char>, c: char, n: nat) -> (Seq<Seq<char>>, Seq<char>)
    decreases n,
{
    if n == 0 || n > s.len() {
        (seq![], seq![])
    } else {
        let (done, cur) = piece_scan(s, c, (n - 1) as nat);
        if s[n - 1] == c {
            (done.push(cur), seq![])
        } else {
            (done, cur.push(s[n - 1]))
        }
    }
}

/// `s` split at every `c` (`str::split`): one more piece than there are `c`s.
pub open spec fn pieces(s: Seq<char>, c: char) -> Seq<Seq<char>> {
    let (done, cur) = piece_scan(s, c, s.len());
    done.push(cur)
}

/// Whether a query parameter is a tracking one: its key (the part before
/// `=`) starts with `utm_`, or is `ref` or `source`.
pub open spec fn tracking_param(p: Seq<char>) -> bool {
    let key = before_first(p, '=');
    has_prefix(key, seq!['u', 't', 'm', '_']) || key == seq!['r', 'e', 'f'] || key == seq![
        's',
        'o',
        'u',
        'r',
        'c',
        'e',
    ]
}

/// Whether a query parameter is kept: non-empty and not a tracking one.
pub open spec fn kept_param(p: Seq<char>) -> bool {
    p.len() > 0 && !tracking_param(p)
}

/// The parameters of a query that are kept, in order.
pub open spec fn kept_params(query: Seq<char>) -> Seq<Seq<char>> {
    pieces(query, '&').filter(|p: Seq<char>| kept_param(p))
}

/// The canonical form of a lowercased URL: no scheme, no `www.`, no
/// fragment, no trailing slashes on the path, and of the query only the
/// parameters that are not tracking ones (`utm_*`, `ref`, `source`), in
/// order, joined by `&` after a `?` (no `?` when none is left).
pub open spec fn canonical_url(lowered: Seq<char>) -> Seq<char> {
    let x = before_first(strip_www(strip_scheme(lowered)), '#');
    let kept = kept_params(after_first(x, '?'));
    trim_end_char(before_first(x, '?'), '/') + (if kept.len() == 0 {
        seq![]
    } else {
        seq!['?'] + join(kept, seq!['&'])
    })
}

/// The canonical form of `url` (see `canonical_url`).
pub open spec fn normalized_url(url: Seq<char>) -> Seq<char> {
    canonical_url(lowercase(url))
}

/// Canonical form of `url`, for comparing links that point to the same page.
pub fn normalize_url(url: &str) -> (n: String)
    ensures
        n@ == normalized_url(url@),
{
    let l = lowercase_chars(url);
    canonical_form(&l)
}

/// Position of the first `c` in `v[lo..hi]`, or `hi`.
fn find_in(v: &Vec<char>, lo: usize, hi: usize, c: char) -> (k: usize)
    requires
        lo <= hi <= v.len(),
    ensures
        lo <= k <= hi,
        k - lo == first_index(v@.subrange(lo as int, hi as int), c),
        before_first(v@.subrange(lo as int, hi as int), c) == v@.subrange(lo as int, k as int),
        after_first(v@.subrange(lo as int, hi as int), c) == (if k < hi {
            v@.subrange(k + 1, hi as int)
        } else {
            seq![]
        }),
{
    let ghost sub = v@.subrange(lo as int, hi as int);
    let mut k = lo;
    while k < hi && v[k] != c
        invariant
            lo <= k <= hi <= v.len(),
            sub == v@.subrange(lo as int, hi as int),
            forall|j: int| lo <= j < k ==> v@[j] != c,
        decreases hi - k,
    {
        k += 1;
    }
    proof {
        assert forall|j: int| 0 <= j < k - lo implies sub[j] != c by {
            assert(sub[j] == v@[lo + j]);
        }
        if k < hi {
            assert(sub[k - lo] == v@[k as int]);
        }
        lemma_first_index(sub, c, k - lo);
        assert(sub.take(k - lo) == v@.subrange(lo as int, k as int));
        if k < hi {
            assert(sub.skip(k - lo + 1) == v@.subrange(k + 1, hi as int));
        }
    }
    k
}

/// Splits `v[lo..hi]` at every `c` (see `pieces`).
fn split_pieces(v: &Vec<char>, lo: usize, hi: usize, c: char) -> (out: Vec<Vec<char>>)
    requires
        lo <= hi <= v.len(),
    ensures
        word_views(out@) == pieces(v@.subrange(lo as int, hi as int), c),
{
    let ghost sub = v@.subrange(lo as int, hi as int);
    let mut done: Vec<Vec<char>> = Vec::new();
    let mut cur: Vec<char> = Vec::new();
    let mut i = lo;
    while i < hi
        invariant
            lo <= i <= hi <= v.len(),
            sub == v@.subrange(lo as int, hi as int),
            (word_views(done@), cur@) == piece_scan(sub, c, (i - lo) as nat),
        decreases hi - i,
    {
        assert(sub[i - lo] == v@[i as int]);
        if v[i] == c {
            let ghost prev = done@;
            let ghost piece = cur@;
            done.push(cur);
            assert(word_views(done@) == word_views(prev).push(piece));
            cur = Vec::new();
        } else {
            cur.push(v[i]);
        }
        i += 1;
    }
    let ghost prev = done@;
    let ghost last = cur@;
    done.push(cur);
    assert(word_views(done@) == word_views(prev).push(last));
    done
}

fn is_kept_param(p: &Vec<char>) -> (b: bool)
    ensures
        b == kept_param(p@),
{
    if p.len() == 0 {
        return false;
    }
    let end = index_of_char(p, '=');
    let ks = string_of_range(p, 0, end);
    let key = chars_of(ks.as_str());
    assert(key@ == before_first(p@, '='));
    assert(key@.skip(0) == key@);
    let tracking = has_prefix_at(&key, 0, &['u', 't', 'm', '_']) || eq_chars(&key, &vec!['r', 'e', 'f'])
        || eq_chars(&key, &vec!['s', 'o', 'u', 'r', 'c', 'e']);
    !tracking
}

/// The kept parameters of the query `v[lo..hi]` (see `kept_params`).
fn kept_query(v: &Vec<char>, lo: usize, hi: usize) -> (out: Vec<String>)
    requires
        lo <= hi <= v.len(),
    ensures
        views(out@) == kept_params(v@.subrange(lo as int, hi as int)),
{
    let ps = split_pieces(v, lo, hi, '&');
    let ghost pv = word_views(ps@);
    let mut out: Vec<String> = Vec::new();
    let mut k: usize = 0;
    while k < ps.len()
        invariant
            k <= ps.len(),
            pv == word_views(ps@),
            views(out@) == pv.take(k as int).filter(|p: Seq<char>| kept_param(p)),
        decreases ps.len() - k,
    {
        proof {
            reveal(Seq::filter);
            assert(pv.take(k + 1).drop_last() == pv.take(k as int));
            assert(pv.take(k + 1).last() == ps@[k as int]@);
        }
        if is_kept_param(&ps[k]) {
            let ghost prev = views(out@);
            let piece = string_of(&ps[k]);
            out.push(piece);
            assert(views(out@) == prev.push(piece@));
        }
        k += 1;
    }
    assert(pv.take(ps.len() as int) == pv);
    out
}

/// Where the host starts in a lowercased URL: after `https://` or `http://`
/// and a `www.`.
fn host_start(l: &Vec<char>) -> (start: usize)
    ensures
        start <= l.len(),
        l@.skip(start as int) == strip_www(strip_scheme(l@)),
{
    let ghost lv = l@;
    let mut start: usize = 0;
    if has_prefix_at(l, 0, &['h', 't', 't', 'p', 's', ':', '/', '/']) {
        start = 8;
    } else if has_prefix_at(l, 0, &['h', 't', 't', 'p', ':', '/', '/']) {
        start = 7;
    }
    assert(lv.skip(0) == lv);
    assert(strip_scheme(lv) == lv.skip(start as int));
    if has_prefix_at(l, start, &['w', 'w', 'w', '.']) {
        start = start + 4;
        assert(lv.skip(start - 4).skip(4) == lv.skip(start as int));
    }
    start
}

/// The canonical form of an already-lowercased URL (see `canonical_url`).
#[verifier::spinoff_prover]
#[verifier::rlimit(40)]
pub fn canonical_form(l: &Vec<char>) -> (n: String)
    ensures
        n@ == canonical_url(l@),
{
    let ghost lv = l@;
    let start = host_start(l);
    assert(lv.skip(start as int) == lv.subrange(start as int, l.len() as int));
    // cut the fragment
    let e = find_in(l, start, l.len(), '#');
    let ghost x = lv.subrange(start as int, e as int);
    assert(x == before_first(strip_www(strip_scheme(lv)), '#'));
    // split path and query
    let q = find_in(l, start, e, '?');
    let ghost base = lv.subrange(start as int, q as int);
    // drop trailing slashes from the path
    let mut stop = q;
    while stop > start && l[stop - 1] == '/'
        invariant
            start <= stop <= q <= l.len(),
            l@ == lv,
            trim_end_char(lv.subrange(start as int, stop as int), '/') == trim_end_char(base, '/'),
        decreases stop,
    {
        assert(lv.subrange(start as int, stop as int).drop_last() == lv.subrange(start as int, stop - 1));
        stop -= 1;
    }
    assert(trim_end_char(lv.subrange(start as int, stop as int), '/') == lv.subrange(start as int, stop as int));
    let mut n = string_of_range(l, start, stop);
    let kept = if q < e {
        kept_query(l, q + 1, e)
    } else {
        let none: Vec<String> = Vec::new();
        proof {
            assert(seq!['&'].len() == 1);
            let ps = pieces(Seq::<char>::empty(), '&');
            assert(ps =~= seq![Seq::<char>::empty()]);
            reveal(Seq::filter);
            assert(ps.drop_last() =~= Seq::<Seq<char>>::empty());
            assert(ps.drop_last().filter(|p: Seq<char>| kept_param(p)).len() == 0);
            assert(!kept_param(ps.last()));
            assert(kept_params(Seq::<char>::empty()).len() == 0);
        }
        none
    };
    if kept.len() > 0 {
        let joined = join_strings(&kept, "&");
        proof {
            reveal_strlit("&");
            assert("&"@ =~= seq!['&']);
        }
        n.append("?");
        proof {
            reveal_strlit("?");
        }
        n.append(joined.as_str());
    }
    n
}

/// Whether two URLs point to the same resource: equal canonical forms.
pub open spec fn same_resource(a: Seq<char>, b: Seq<char>) -> bool {
    normalized_url(a) == normalized_url(b)
}

/// Checks whether two URLs point to the same resource, ignoring scheme
/// (`http` vs `https`), a leading `www.`, tracking parameters (`utm_*`,
/// `ref`, `source`), fragment, trailing slashes and letter case.
pub fn urls_match(a: &str, b: &str) -> (r: bool)
    ensures
        r == same_resource(a@, b@),
{
    let na = normalize_url(a);
    let nb = normalize_url(b);
    let ca = chars_of(na.as_str());
    let cb = chars_of(nb.as_str());
    eq_chars(&ca, &cb)
}

/// URL matching is an equivalence: reflexive, symmetric and transitive.
pub proof fn law_urls_match_equivalence(a: Seq<char>, b: Seq<char>, c: Seq<char>)
    ensures
        same_resource(a, a),
        same_resource(a, b) == same_resource(b, a),
        same_resource(a, b) && same_resource(b, c) ==> same_resource(a, c),
{
}


/// The set of words of a title.
pub open spec fn word_set(title: Seq<char>) -> Set<Seq<char>> {
    tokens_of(lowercase(title)).to_set()
}

/// Whether `w` occurs in `list`.
fn contains_word(list: &Vec<Vec<char>>, w: &Vec<char>) -> (r: bool)
    ensures
        r == word_views(list@).contains(w@),
{
    let mut i: usize = 0;
    while i < list.len()
        invariant
            i <= list.len(),
            forall|k: int| 0 <= k < i ==> list@[k]@ != w@,
        decreases list.len() - i,
    {
        if eq_chars(&list[i], w) {
            assert(word_views(list@)[i as int] == w@);
            return true;
        }
        i += 1;
    }
    assert forall|k: int| 0 <= k < word_views(list@).len() implies word_views(list@)[k] != w@ by {
        assert(word_views(list@)[k] == list@[k]@);
    }
    false
}

/// Adds the words of `from` that `acc` lacks, keeping `acc` free of repeats.
fn add_distinct(acc: &mut Vec<Vec<char>>, from: &Vec<Vec<char>>)
    requires
        word_views(old(acc)@).no_duplicates(),
    ensures
        word_views(final(acc)@).no_duplicates(),
        word_views(final(acc)@).to_set() == word_views(old(acc)@).to_set().union(
            word_views(from@).to_set(),
        ),
{
    let ghost base = word_views(acc@).to_set();
    let mut i: usize = 0;
    while i < from.len()
        invariant
            i <= from.len(),
            word_views(acc@).no_duplicates(),
            word_views(acc@).to_set() == base.union(word_views(from@).take(i as int).to_set()),
        decreases from.len() - i,
    {
        let w = &from[i];
        let ghost fv = word_views(from@);
        assert(fv.take(i + 1) == fv.take(i as int).push(w@));
        proof { fv.take(i as int).lemma_push_to_set_commute(w@); }
        if !contains_word(acc, w) {
            let ghost prev = word_views(acc@);
            acc.push(w.clone());
            assert(word_views(acc@) == prev.push(w@));
            proof { prev.lemma_push_to_set_commute(w@); }
            assert(word_views(acc@).no_duplicates()) by {
                assert forall|a: int, b: int|
                    0 <= a < word_views(acc@).len() && 0 <= b < word_views(acc@).len() && a != b
                    implies word_views(acc@)[a] != word_views(acc@)[b] by {
                    if a == prev.len() as int {
                        assert(!prev.contains(w@));
                        assert(prev[b] == word_views(acc@)[b]);
                    } else if b == prev.len() as int {
                        assert(!prev.contains(w@));
                        assert(prev[a] == word_views(acc@)[a]);
                    }
                }
            }
            assert(word_views(acc@).to_set() =~= base.union(fv.take(i + 1).to_set()));
        } else {
            assert(word_views(acc@).to_set() =~= base.union(fv.take(i + 1).to_set()));
        }
        i += 1;
    }
    assert(word_views(from@).take(from.len() as int) == word_views(from@));
}

/// Word overlap of two titles: the number of distinct words they share and
/// the number of distinct words in either. Their ratio is the titles'
/// Jaccard similarity.
pub fn title_overlap(a: &str, b: &str) -> (r: (usize, usize))
    ensures
        r.0 == word_set(a@).intersect(word_set(b@)).len(),
        r.1 == word_set(a@).union(word_set(b@)).len(),
{
    let wa = token_words(a);
    let wb = token_words(b);
    let ghost sa = word_views(wa@).to_set();
    let ghost sb = word_views(wb@).to_set();
    let mut all: Vec<Vec<char>> = Vec::new();
    assert(word_views(all@).to_set() =~= Set::<Seq<char>>::empty());
    add_distinct(&mut all, &wa);
    add_distinct(&mut all, &wb);
    let ghost uv = word_views(all@);
    assert(uv.to_set() =~= sa.union(sb));
    let mut shared: Vec<Vec<char>> = Vec::new();
    let mut j: usize = 0;
    while j < all.len()
        invariant
            j <= all.len(),
            uv == word_views(all@),
            uv.no_duplicates(),
            sa == word_views(wa@).to_set(),
            sb == word_views(wb@).to_set(),
            word_views(shared@).no_duplicates(),
            word_views(shared@).to_set() == uv.take(j as int).to_set().filter(
                |x: Seq<char>| sa.contains(x) && sb.contains(x),
            ),
            shared@.len() <= j,
        decreases all.len() - j,
    {
        let w = &all[j];
        assert(uv.take(j + 1) == uv.take(j as int).push(w@));
        proof { uv.take(j as int).lemma_push_to_set_commute(w@); }
        if contains_word(&wa, w) && contains_word(&wb, w) {
            let ghost prev = word_views(shared@);
            assert(!prev.contains(w@)) by {
                if prev.contains(w@) {
                    let k = choose|k: int| 0 <= k < prev.len() && prev[k] == w@;
                    assert(prev.to_set().contains(w@));
                    assert(uv.take(j as int).to_set().contains(w@));
                    let m = choose|m: int| 0 <= m < uv.take(j as int).len() && uv.take(j as int)[m] == w@;
                    assert(uv[m] == uv[j as int]);
                }
            }
            shared.push(w.clone());
            assert(word_views(shared@) == prev.push(w@));
            proof { prev.lemma_push_to_set_commute(w@); }
            assert(word_views(shared@).no_duplicates()) by {
                let cur = word_views(shared@);
                assert forall|x: int, y: int|
                    0 <= x < cur.len() && 0 <= y < cur.len() && x != y implies cur[x] != cur[y] by {
                    if x == prev.len() as int {
                        assert(prev[y] == cur[y]);
                    } else if y == prev.len() as int {
                        assert(prev[x] == cur[x]);
                    }
                }
            }
            assert(word_views(shared@).to_set() =~= uv.take(j + 1).to_set().filter(
                |x: Seq<char>| sa.contains(x) && sb.contains(x),
            ));
        } else {
            assert(word_views(shared@).to_set() =~= uv.take(j + 1).to_set().filter(
                |x: Seq<char>| sa.contains(x) && sb.contains(x),
            ));
        }
        j += 1;
    }
    assert(uv.take(all.len() as int) == uv);
    assert(word_views(shared@).to_set() =~= sa.intersect(sb));
    proof {
        word_views(shared@).unique_seq_to_set();
        uv.unique_seq_to_set();
    }
    (shared.len(), all.len())
}


/// Title similarity threshold reached: the Jaccard similarity of the two
/// word sets (taken as 1 when both are empty) is at least `ppm` / 1,000,000.
pub open spec fn similar_titles(a: Seq<char>, b: Seq<char>, ppm: u64) -> bool {
    let shared = word_set(a).intersect(word_set(b)).len();
    let total = word_set(a).union(word_set(b)).len();
    if total == 0 {
        ppm <= 1_000_000
    } else {
        shared * 1_000_000 >= ppm * total
    }
}

/// Whether the Jaccard similarity of the titles' words is at least
/// `threshold_ppm` parts per million.
pub fn titles_similar(a: &str, b: &str, threshold_ppm: u64) -> (r: bool)
    ensures
        r == similar_titles(a@, b@, threshold_ppm),
{
    let (shared, total) = title_overlap(a, b);
    if total == 0 {
        threshold_ppm <= 1_000_000
    } else {
        let t = threshold_ppm as u128;
        let n = total as u128;
        assert(t * n <= 0xffff_ffff_ffff_ffffu128 * 0xffff_ffff_ffff_ffffu128) by (nonlinear_arith)
            requires
                t <= 0xffff_ffff_ffff_ffffu128,
                n <= 0xffff_ffff_ffff_ffffu128,
        ;
        (shared as u128) * 1_000_000 >= t * n
    }
}

/// Word overlap is symmetric, so title similarity is too.
pub proof fn law_similarity_symmetric(a: Seq<char>, b: Seq<char>, ppm: u64)
    ensures
        similar_titles(a, b, ppm) == similar_titles(b, a, ppm),
{
    assert(word_set(a).intersect(word_set(b)) =~= word_set(b).intersect(word_set(a)));
    assert(word_set(a).union(word_set(b)) =~= word_set(b).union(word_set(a)));
}

/// A title is fully similar to itself: it reaches every threshold up to 100%.
pub proof fn law_similarity_reflexive(a: Seq<char>, ppm: u64)
    requires
        ppm <= 1_000_000,
    ensures
        similar_titles(a, a, ppm),
{
    assert(word_set(a).intersect(word_set(a)) =~= word_set(a));
    assert(word_set(a).union(word_set(a)) =~= word_set(a));
    let n = word_set(a).len();
    assert(n * 1_000_000 >= ppm * n) by (nonlinear_arith)
        requires
            ppm <= 1_000_000,
    ;
}

} // verus!
