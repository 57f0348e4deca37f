//! Link augmenter: finds the URLs in user input, and rewrites each URL whose
//! content could be fetched and extracted to `"<url> (Content: <extracted>)"`
//! by exact substring replacement. Extraction condenses the fragments an HTML
//! parse yields: each fragment's whitespace is collapsed, duplicates are
//! dropped (keeping first occurrences), and the rest are joined with single
//! spaces. A failed fetch leaves its URL unmodified and never fails the
//! whole call.

use vstd::prelude::*;

use crate::text::is_space;
use crate::text::is_space_char;
use crate::text::lemma_trim_end_at;
use crate::text::lemma_trim_start_at;
use crate::text::lemma_trim_start_props;
use crate::text::lemma_views_push;
use crate::text::trim_end_spec;
use crate::text::trim_start_spec;
use crate::text::views;
use vstd::pervasive::unreached;
use vstd::string::StrSliceExecFns;
use vstd::string::StringExecFns;

verus! {

/// Whether `pat` occurs in `s` at position `i`.
pub open spec fn match_at(s: Seq<char>, pat: Seq<char>, i: int) -> bool {
    &&& 0 <= i
    &&& i + pat.len() <= s.len()
    &&& s.subrange(i, i + pat.len()) == pat
}

/// The least position at or after `i` where `pat` occurs in `s`, or -1.
pub open spec fn first_match(s: Seq<char>, pat: Seq<char>, i: int) -> int
    decreases s.len() - i,
        when 0 <= i <= s.len() && pat.len() >= 1
{
    if i + pat.len() > s.len() {
        -1
    } else if match_at(s, pat, i) {
        i
    } else {
        first_match(s, pat, i + 1)
    }
}

/// What `first_match` returns: either -1 and no occurrence at or after `i`,
/// or the position of the first occurrence at or after `i`.
pub proof fn lemma_first_match_props(s: Seq<char>, pat: Seq<char>, i: int)
    requires
        0 <= i <= s.len(),
        pat.len() >= 1,
    ensures
        first_match(s, pat, i) == -1 ==> forall|k: int| i <= k ==> !match_at(s, pat, k),
        first_match(s, pat, i) >= 0 ==> {
            &&& i <= first_match(s, pat, i)
            &&& match_at(s, pat, first_match(s, pat, i))
            &&& forall|k: int| i <= k < first_match(s, pat, i) ==> !match_at(s, pat, k)
        },
    decreases s.len() - i,
{
    if i + pat.len() > s.len() {
        assert forall|k: int| i <= k implies !match_at(s, pat, k) by {}
    } else if match_at(s, pat, i) {
    } else {
        lemma_first_match_props(s, pat, i + 1);
    }
}

/// `s` from `i` on, with every occurrence of `pat` at or after `i` replaced
/// by `repl`, leftmost first, without overlap.
pub open spec fn replace_from(s: Seq<char>, pat: Seq<char>, repl: Seq<char>, i: int) -> Seq<char>
    decreases s.len() - i,
        when 0 <= i <= s.len() && pat.len() >= 1
    via replace_from_decreases
{
    let j = first_match(s, pat, i);
    if j < 0 {
        s.skip(i)
    } else {
        s.subrange(i, j) + repl + replace_from(s, pat, repl, j + pat.len())
    }
}

#[via_fn]
proof fn replace_from_decreases(s: Seq<char>, pat: Seq<char>, repl: Seq<char>, i: int) {
    lemma_first_match_props(s, pat, i);
}

/// `s` with every occurrence of `pat` replaced by `repl`, leftmost first,
/// without overlap.
pub open spec fn replace_spec(s: Seq<char>, pat: Seq<char>, repl: Seq<char>) -> Seq<char> {
    replace_from(s, pat, repl, 0)
}

/// Whether `pat` occurs in `text` at position `i`.
#[verifier::loop_isolation(false)]
fn match_at_exec(text: &str, pat: &str, i: usize) -> (r: bool)
    requires
        i + pat@.len() <= text@.len(),
        text@.len() <= usize::MAX,
    ensures
        r == match_at(text@, pat@, i as int),
{
    let m = pat.unicode_len();
    let mut k: usize = 0;
    while k < m
        invariant
            k <= m,
            forall|t: int| 0 <= t < k ==> text@[i + t] == pat@[t],
        decreases m - k,
    {
        if content_char(text, i + k) != content_char(pat, k) {
            proof {
                assert(text@.subrange(i as int, i + pat@.len())[k as int] != pat@[k as int]);
            }
            return false;
        }
        k = k + 1;
    }
    proof {
        assert(text@.subrange(i as int, i + pat@.len()) =~= pat@);
    }
    true
}

/// The character of `s` at index `i`.
fn content_char(s: &str, i: usize) -> (c: char)
    requires
        i < s@.len(),
    ensures
        c == s@[i as int],
{
    s.get_char(i)
}

/// The least position at or after `from` where `pat` occurs in `text`.
#[verifier::loop_isolation(false)]
fn find_first(text: &str, pat: &str, from: usize) -> (r: Option<usize>)
    requires
        from <= text@.len(),
        pat@.len() >= 1,
    ensures
        match r {
            Option::Some(j) => j == first_match(text@, pat@, from as int),
            Option::None => first_match(text@, pat@, from as int) == -1,
        },
{
    let n = text.unicode_len();
    let m = pat.unicode_len();
    if m > n || from > n - m {
        proof {
            if from + m > n {
                assert(first_match(text@, pat@, from as int) == -1);
            }
        }
        return None;
    }
    let mut i: usize = from;
    while i <= n - m
        invariant
            from <= i,
            i <= n - m + 1,
            m <= n,
            first_match(text@, pat@, from as int) == first_match(text@, pat@, i as int),
        decreases n - i,
    {
        if match_at_exec(text, pat, i) {
            return Some(i);
        }
        i = i + 1;
    }
    None
}

/// `text` with every occurrence of `pat` replaced by `repl`, leftmost first,
/// without overlap (as `str::replace` rewrites).
#[verifier::loop_isolation(false)]
pub fn replace_all(text: &str, pat: &str, repl: &str) -> (r: String)
    requires
        pat@.len() >= 1,
    ensures
        r@ == replace_spec(text@, pat@, repl@),
{
    let n = text.unicode_len();
    let m = pat.unicode_len();
    let mut out = String::new();
    let mut base: usize = 0;
    proof {
        assert(out@ + replace_from(text@, pat@, repl@, 0) =~= replace_from(text@, pat@, repl@, 0));
    }
    loop
        invariant
            base <= n,
            n == text@.len(),
            m == pat@.len(),
            m >= 1,
            replace_spec(text@, pat@, repl@) == out@ + replace_from(
                text@,
                pat@,
                repl@,
                base as int,
            ),
        decreases n - base,
    {
        match find_first(text, pat, base) {
            Option::None => {
                let rest = text.substring_char(base, n);
                proof {
                    assert(replace_from(text@, pat@, repl@, base as int) == text@.skip(
                        base as int,
                    ));
                }
                out.append(rest);
                return out;
            },
            Option::Some(j) => {
                proof {
                    lemma_first_match_props(text@, pat@, base as int);
                }
                let keep = text.substring_char(base, j);
                out.append(keep);
                out.append(repl);
                proof {
                    assert(keep@ == text@.subrange(base as int, j as int));
                    assert(replace_from(text@, pat@, repl@, base as int) == text@.subrange(
                        base as int,
                        j as int,
                    ) + repl@ + replace_from(text@, pat@, repl@, j + pat@.len()));
                }
                base = j + m;
            },
        }
    }
}

/// `s` with every whitespace run of length at least 2 collapsed to one
/// space; shorter whitespace stays as it is.
pub open spec fn collapse_spec(s: Seq<char>) -> Seq<char>
    decreases s.len(),
        via collapse_spec_decreases
{
    if s.len() == 0 {
        s
    } else if s.len() >= 2 && is_space(s[0]) && is_space(s[1]) {
        seq![' '] + collapse_spec(trim_start_spec(s))
    } else {
        seq![s[0]] + collapse_spec(s.drop_first())
    }
}

#[via_fn]
proof fn collapse_spec_decreases(s: Seq<char>) {
    if s.len() >= 2 && is_space(s[0]) && is_space(s[1]) {
        lemma_trim_start_props(s);
    }
}

/// One cleaned fragment: trimmed at both ends, with every internal
/// whitespace run of length at least 2 collapsed to a single space.
pub open spec fn cleaned(s: Seq<char>) -> Seq<char> {
    collapse_spec(trim_end_spec(trim_start_spec(s)))
}

/// Cleans one text fragment as `cleaned` describes.
#[verifier::loop_isolation(false)]
#[verifier::rlimit(60)]
pub fn clean_text(s: &str) -> (r: String)
    ensures
        r@ == cleaned(s@),
{
    let n = s.unicode_len();
    let mut lo: usize = 0;
    while lo < n && is_space_char(s.get_char(lo))
        invariant
            lo <= n,
            forall|i: int| 0 <= i < lo ==> is_space(#[trigger] s@[i]),
        decreases n - lo,
    {
        lo = lo + 1;
    }
    proof {
        lemma_trim_start_at(s@, lo as int);
    }
    let mut hi: usize = n;
    while hi > lo && is_space_char(s.get_char(hi - 1))
        invariant
            lo <= hi <= n,
            forall|i: int| hi <= i < n ==> is_space(#[trigger] s@[i]),
        decreases hi - lo,
    {
        hi = hi - 1;
    }
    let ghost st = trim_start_spec(s@);
    proof {
        assert(st =~= s@.skip(lo as int));
        assert forall|i: int| hi - lo <= i < st.len() implies is_space(#[trigger] st[i]) by {
            assert(st[i] == s@[i + lo]);
        }
        if hi > lo {
            assert(st[hi - lo - 1] == s@[hi as int - 1]);
        }
        lemma_trim_end_at(st, hi - lo);
        assert(trim_end_spec(st) =~= s@.subrange(lo as int, hi as int));
    }
    let t = s.substring_char(lo, hi);
    let tn = hi - lo;
    let mut out = String::new();
    let mut i: usize = 0;
    proof {
        assert(t@.skip(0) =~= t@);
        assert(out@ + collapse_spec(t@) =~= collapse_spec(t@));
    }
    while i < tn
        invariant
            i <= tn,
            tn == t@.len(),
            cleaned(s@) == out@ + collapse_spec(t@.skip(i as int)),
        decreases tn - i,
    {
        let ghost rem = t@.skip(i as int);
        proof {
            assert(rem[0] == t@[i as int]);
        }
        let c = t.get_char(i);
        if is_space_char(c) && i + 1 < tn && is_space_char(t.get_char(i + 1)) {
            proof {
                assert(rem[1] == t@[i + 1]);
            }
            out.append(" ");
            let mut j: usize = i;
            while j < tn && is_space_char(t.get_char(j))
                invariant
                    i <= j <= tn,
                    forall|k: int| i <= k < j ==> is_space(#[trigger] t@[k]),
                decreases tn - j,
            {
                j = j + 1;
            }
            proof {
                assert forall|k: int| 0 <= k < j - i implies is_space(#[trigger] rem[k]) by {
                    assert(rem[k] == t@[k + i]);
                }
                if j < tn {
                    assert(rem[j - i] == t@[j as int]);
                }
                lemma_trim_start_at(rem, j - i);
                assert(rem.skip(j - i) =~= t@.skip(j as int));
                reveal_strlit(" ");
                assert(" "@ =~= seq![' ']);
                assert(collapse_spec(rem) == seq![' '] + collapse_spec(t@.skip(j as int)));
            }
            i = j;
        } else {
            let piece = t.substring_char(i, i + 1);
            out.append(piece);
            proof {
                assert(piece@ =~= seq![t@[i as int]]);
                assert(rem.drop_first() =~= t@.skip(i + 1));
                if rem.len() >= 2 {
                    assert(rem[1] == t@[i + 1]);
                }
                assert(collapse_spec(rem) == seq![rem[0]] + collapse_spec(t@.skip(i + 1)));
            }
            i = i + 1;
        }
    }
    proof {
        assert(t@.skip(tn as int) =~= Seq::<char>::empty());
    }
    out
}

/// `s` with every later duplicate dropped: each element keeps its first
/// position and loses the rest.
pub open spec fn dedup_spec(s: Seq<Seq<char>>) -> Seq<Seq<char>>
    decreases s.len(),
{
    if s.len() == 0 {
        s
    } else {
        let d = dedup_spec(s.drop_last());
        if s.drop_last().contains(s.last()) {
            d
        } else {
            d.push(s.last())
        }
    }
}

/// Deduplication keeps exactly the members.
pub proof fn lemma_dedup_contains(s: Seq<Seq<char>>, x: Seq<char>)
    ensures
        dedup_spec(s).contains(x) <==> s.contains(x),
    decreases s.len(),
{
    if s.len() > 0 {
        lemma_dedup_contains(s.drop_last(), x);
        let d = dedup_spec(s.drop_last());
        if s.contains(x) {
            let w = choose|w: int| 0 <= w < s.len() && s[w] == x;
            if w < s.len() - 1 {
                assert(s.drop_last()[w] == x);
                assert(s.drop_last().contains(x));
            } else {
                if !s.drop_last().contains(x) {
                    assert(d.push(s.last()).last() == x);
                    assert(d.push(s.last()).contains(x));
                }
            }
        }
        if s.drop_last().contains(x) {
            let w = choose|w: int| 0 <= w < s.drop_last().len() && s.drop_last()[w] == x;
            assert(s[w] == x);
            assert(s.contains(x));
            if !s.drop_last().contains(s.last()) {
                let v = choose|v: int| 0 <= v < d.len() && d[v] == x;
                assert(d.push(s.last())[v] == x);
                assert(d.push(s.last()).contains(x));
            }
        }
        if !s.drop_last().contains(x) && !s.drop_last().contains(s.last()) && s.last() != x {
            if d.push(s.last()).contains(x) {
                let v = choose|v: int| 0 <= v < d.len() + 1 && d.push(s.last())[v] == x;
                assert(v < d.len());
                assert(d.contains(x));
            }
        }
    }
}

/// The parts joined with one space between neighbours.
pub open spec fn join_spaced(parts: Seq<Seq<char>>) -> Seq<char>
    decreases parts.len(),
{
    if parts.len() == 0 {
        Seq::empty()
    } else if parts.len() == 1 {
        parts[0]
    } else {
        join_spaced(parts.drop_last()) + seq![' '] + parts.last()
    }
}

/// The cleaned forms of all fragments.
pub open spec fn cleaned_all(s: Seq<Seq<char>>) -> Seq<Seq<char>> {
    s.map_values(|f: Seq<char>| cleaned(f))
}

/// What extraction condenses a fragment list to: each fragment cleaned,
/// duplicates dropped (first occurrences kept), the rest joined with single
/// spaces.
pub open spec fn condensed(fragments: Seq<Seq<char>>) -> Seq<char> {
    join_spaced(dedup_spec(cleaned_all(fragments)))
}

/// Whether two strings hold the same characters.
fn str_eq(a: &String, b: &String) -> (r: bool)
    ensures
        r == (a@ == b@),
{
    a.eq(b)
}

/// Whether some string of `v` holds the characters `x` holds.
#[verifier::loop_isolation(false)]
fn holds_string(v: &Vec<String>, x: &String) -> (r: bool)
    ensures
        r == views(v@).contains(x@),
{
    let mut j: usize = 0;
    while j < v.len()
        invariant
            j <= v@.len(),
            forall|k: int| 0 <= k < j ==> views(v@)[k] != x@,
        decreases v@.len() - j,
    {
        if str_eq(&v[j], x) {
            proof {
                assert(views(v@)[j as int] == x@);
            }
            return true;
        }
        j = j + 1;
    }
    proof {
        if views(v@).contains(x@) {
            let k = choose|k: int| 0 <= k < views(v@).len() && views(v@)[k] == x@;
            assert(views(v@)[k] != x@);
        }
    }
    false
}

/// Condenses the fragments an extraction yielded, as `condensed` describes.
#[verifier::loop_isolation(false)]
pub fn condense_fragments(fragments: &Vec<String>) -> (r: String)
    ensures
        r@ == condensed(views(fragments@)),
{
    let mut kept: Vec<String> = Vec::new();
    let mut i: usize = 0;
    proof {
        assert(views(kept@) =~= dedup_spec(cleaned_all(views(fragments@).take(0))));
    }
    while i < fragments.len()
        invariant
            i <= fragments@.len(),
            views(kept@) == dedup_spec(cleaned_all(views(fragments@).take(i as int))),
        decreases fragments@.len() - i,
    {
        let c = clean_text(fragments[i].as_str());
        let ghost prefix = cleaned_all(views(fragments@).take(i as int));
        let ghost grown = cleaned_all(views(fragments@).take(i + 1));
        proof {
            assert(views(fragments@)[i as int] == fragments@[i as int]@);
            assert(grown.drop_last() =~= prefix);
            assert(grown.last() == c@);
            lemma_dedup_contains(prefix, c@);
        }
        if !holds_string(&kept, &c) {
            proof {
                lemma_views_push(kept@, c);
            }
            kept.push(c);
        }
        i = i + 1;
    }
    proof {
        assert(views(fragments@).take(fragments@.len() as int) =~= views(fragments@));
    }
    let mut out = String::new();
    let mut i2: usize = 0;
    proof {
        assert(out@ =~= join_spaced(views(kept@).take(0)));
    }
    while i2 < kept.len()
        invariant
            i2 <= kept@.len(),
            out@ == join_spaced(views(kept@).take(i2 as int)),
        decreases kept@.len() - i2,
    {
        if i2 > 0 {
            out.append(" ");
        }
        out.append(kept[i2].as_str());
        proof {
            let taken = views(kept@).take(i2 + 1);
            assert(taken.drop_last() =~= views(kept@).take(i2 as int));
            assert(taken.last() == kept@[i2 as int]@);
            reveal_strlit(" ");
            assert(" "@ =~= seq![' ']);
            if i2 == 0 {
                assert(out@ =~= taken[0]);
            }
        }
        i2 = i2 + 1;
    }
    proof {
        assert(views(kept@).take(kept@.len() as int) =~= views(kept@));
    }
    out
}

/// The length of the URL scheme at `i`: 8 for `https://`, 7 for `http://`,
/// 0 where neither stands.
pub open spec fn scheme_len_at(s: Seq<char>, i: int) -> int {
    if match_at(s, "https://"@, i) {
        8
    } else if match_at(s, "http://"@, i) {
        7
    } else {
        0
    }
}

/// The least position at or after `i` holding whitespace, or the length.
pub open spec fn next_space(s: Seq<char>, i: int) -> int
    decreases s.len() - i,
        when 0 <= i <= s.len()
{
    if i == s.len() || is_space(s[i]) {
        i
    } else {
        next_space(s, i + 1)
    }
}

/// What `next_space` returns: the first whitespace position at or after `i`.
pub proof fn lemma_next_space_props(s: Seq<char>, i: int)
    requires
        0 <= i <= s.len(),
    ensures
        i <= next_space(s, i) <= s.len(),
        forall|k: int| i <= k < next_space(s, i) ==> !is_space(#[trigger] s[k]),
        next_space(s, i) < s.len() ==> is_space(s[next_space(s, i)]),
    decreases s.len() - i,
{
    if !(i == s.len() || is_space(s[i])) {
        lemma_next_space_props(s, i + 1);
    }
}

/// A scan that stopped at the first whitespace computes `next_space`.
pub proof fn lemma_next_space_at(s: Seq<char>, i: int, j: int)
    requires
        0 <= i <= j <= s.len(),
        forall|k: int| i <= k < j ==> !is_space(#[trigger] s[k]),
        j == s.len() || is_space(s[j]),
    ensures
        next_space(s, i) == j,
    decreases j - i,
{
    if i < j {
        lemma_next_space_at(s, i + 1, j);
    }
}

/// A URL stands at `i`: an `http` or `https` scheme, and a non-whitespace
/// body of at least one character after it. The match runs to the next
/// whitespace.
pub open spec fn url_match_at(s: Seq<char>, i: int) -> bool {
    &&& 0 <= i < s.len()
    &&& scheme_len_at(s, i) > 0
    &&& next_space(s, i) - i > scheme_len_at(s, i)
}

/// The URLs found scanning left to right from `i`: at a match the whole
/// non-whitespace run is taken and the scan resumes after it, so matches
/// never overlap; everywhere else the scan moves one character on.
pub open spec fn urls_from(s: Seq<char>, i: int) -> Seq<Seq<char>>
    decreases s.len() - i,
        when 0 <= i <= s.len()
    via urls_from_decreases
{
    if i >= s.len() {
        Seq::empty()
    } else if url_match_at(s, i) {
        seq![s.subrange(i, next_space(s, i))] + urls_from(s, next_space(s, i))
    } else {
        urls_from(s, i + 1)
    }
}

#[via_fn]
proof fn urls_from_decreases(s: Seq<char>, i: int) {
    if i < s.len() && url_match_at(s, i) {
        lemma_next_space_props(s, i);
    }
}

/// All URLs of `s`, leftmost first.
pub open spec fn urls_spec(s: Seq<char>) -> Seq<Seq<char>> {
    urls_from(s, 0)
}

/// Law: every found URL is well formed. It starts with its own `http` or
/// `https` scheme, holds at least one character beyond it, and holds no
/// whitespace anywhere.
pub proof fn lemma_urls_wellformed(s: Seq<char>, i: int)
    requires
        0 <= i <= s.len(),
    ensures
        forall|k: int|
            0 <= k < urls_from(s, i).len() ==> {
                let u = #[trigger] urls_from(s, i)[k];
                &&& scheme_len_at(u, 0) > 0
                &&& u.len() > scheme_len_at(u, 0)
                &&& forall|t: int| 0 <= t < u.len() ==> !is_space(#[trigger] u[t])
            },
    decreases s.len() - i,
{
    reveal_strlit("https://");
    reveal_strlit("http://");
    if i >= s.len() {
    } else if url_match_at(s, i) {
        lemma_next_space_props(s, i);
        let ns = next_space(s, i);
        let u = s.subrange(i, ns);
        assert forall|t: int| 0 <= t < u.len() implies !is_space(#[trigger] u[t]) by {
            assert(u[t] == s[i + t]);
        }
        if match_at(s, "https://"@, i) {
            assert(u.subrange(0, "https://"@.len() as int) =~= s.subrange(
                i,
                i + "https://"@.len(),
            ));
            assert(match_at(u, "https://"@, 0));
        } else {
            assert(u.subrange(0, "http://"@.len() as int) =~= s.subrange(i, i + "http://"@.len()));
            assert(match_at(u, "http://"@, 0));
            // The shorter scheme cannot hide the longer one: a URL whose
            // scheme is `http://` is not an `https://` match of itself.
            if match_at(u, "https://"@, 0) {
                assert(u.subrange(0, "https://"@.len() as int) =~= s.subrange(
                    i,
                    i + "https://"@.len(),
                ));
                assert(match_at(s, "https://"@, i));
            }
        }
        lemma_urls_wellformed(s, ns);
        assert forall|k: int| 0 <= k < urls_from(s, i).len() implies {
            let w = #[trigger] urls_from(s, i)[k];
            &&& scheme_len_at(w, 0) > 0
            &&& w.len() > scheme_len_at(w, 0)
            &&& forall|t: int| 0 <= t < w.len() ==> !is_space(#[trigger] w[t])
        } by {
            assert(urls_from(s, i) == seq![u] + urls_from(s, ns));
            if k == 0 {
                assert((seq![u] + urls_from(s, ns))[0] == u);
            } else {
                assert((seq![u] + urls_from(s, ns))[k] == urls_from(s, ns)[k - 1]);
            }
        }
    } else {
        lemma_urls_wellformed(s, i + 1);
        assert(urls_from(s, i) == urls_from(s, i + 1));
    }
}

/// The length of the URL scheme at `i`.
fn scheme_len_exec(text: &str, i: usize) -> (sl: usize)
    requires
        i <= text@.len(),
        text@.len() <= usize::MAX,
    ensures
        sl == scheme_len_at(text@, i as int),
{
    proof {
        reveal_strlit("https://");
        reveal_strlit("http://");
    }
    let n = text.unicode_len();
    if n - i >= 8 && match_at_exec(text, "https://", i) {
        8
    } else if n - i >= 7 && match_at_exec(text, "http://", i) {
        7
    } else {
        0
    }
}

/// Finds every URL in `text`, leftmost first: each match starts at an `http`
/// or `https` scheme with a non-empty non-whitespace body and runs to the
/// next whitespace; matches never overlap.
#[verifier::loop_isolation(false)]
pub fn find_urls(text: &str) -> (r: Vec<String>)
    ensures
        views(r@) == urls_spec(text@),
        forall|k: int| 0 <= k < r@.len() ==> #[trigger] r@[k]@.len() >= 1,
{
    let n = text.unicode_len();
    let mut out: Vec<String> = Vec::new();
    let mut i: usize = 0;
    proof {
        assert(views(out@) =~= Seq::<Seq<char>>::empty());
        assert(views(out@) + urls_from(text@, 0) =~= urls_from(text@, 0));
    }
    while i < n
        invariant
            i <= n,
            urls_spec(text@) == views(out@) + urls_from(text@, i as int),
            forall|k: int| 0 <= k < out@.len() ==> #[trigger] out@[k]@.len() >= 1,
        decreases n - i,
    {
        let sl = scheme_len_exec(text, i);
        if sl > 0 {
            let mut j: usize = i;
            while j < n && !is_space_char(text.get_char(j))
                invariant
                    i <= j <= n,
                    forall|k: int| i <= k < j ==> !is_space(#[trigger] text@[k]),
                decreases n - j,
            {
                j = j + 1;
            }
            proof {
                lemma_next_space_at(text@, i as int, j as int);
            }
            if j - i > sl {
                let u = text.substring_char(i, j).to_owned();
                proof {
                    assert(url_match_at(text@, i as int));
                    lemma_views_push(out@, u);
                    assert(views(out@) + (seq![text@.subrange(i as int, j as int)] + urls_from(
                        text@,
                        j as int,
                    )) =~= views(out@).push(u@) + urls_from(text@, j as int));
                }
                out.push(u);
                i = j;
            } else {
                proof {
                    assert(!url_match_at(text@, i as int));
                }
                i = i + 1;
            }
        } else {
            proof {
                assert(!url_match_at(text@, i as int));
            }
            i = i + 1;
        }
    }
    proof {
        assert(views(out@) + urls_from(text@, n as int) =~= views(out@));
    }
    out
}

/// A refused extraction. The selector parse is fallible in the types, but
/// the fixed tag-allowlist selector group always parses, so `extract_text`
/// proves this error never comes.
#[derive(Clone, Copy, Debug, PartialEq, Eq, Structural)]
pub enum LinkError {
    Parse,
}

/// What the HTML parse of `html`, selected by the selector group `selector`,
/// yields: the text of every descendant text node of every matching element,
/// in document order.
pub uninterp spec fn fragments_of(html: Seq<char>, selector: Seq<char>) -> Seq<Seq<char>>;

/// Relies on scraper: `Selector::parse` of the selector group,
/// `Html::parse_document`, `Html::select`, and `ElementRef::text`, which
/// yields the text of the descendant text nodes of each matching element in
/// document order. `None` exactly when the selector group does not parse;
/// the fixed tag-allowlist group is a plain comma-separated list of type
/// selectors, which `Selector::parse` accepts, so for it the call always
/// yields the fragments.
#[verifier::external_body]
fn scrape_fragments(html: &str, selector: &str) -> (r: Option<Vec<String>>)
    ensures
        r matches Some(v) ==> views(v@) == fragments_of(html@, selector@),
        selector@ == "title, h1, h2, h3, h4, h5, h6, p, li"@ ==> r is Some,
{
    match scraper::Selector::parse(selector) {
        Err(_) => None,
        Ok(sel) => {
            let doc = scraper::Html::parse_document(html);
            Some(doc.select(&sel).flat_map(|e| e.text().map(|t| t.to_string())).collect())
        },
    }
}

/// Extracts the readable content of an HTML page: the text fragments of the
/// title, heading, paragraph and list-item elements, cleaned, deduplicated
/// and joined with single spaces. Succeeds on every input: HTML parsing
/// never fails, and the one fallible step parses the fixed, valid selector
/// group.
pub fn extract_text(html: &str) -> (r: Result<String, LinkError>)
    ensures
        r matches Ok(s) && s@ == condensed(
            fragments_of(html@, "title, h1, h2, h3, h4, h5, h6, p, li"@),
        ),
{
    match scrape_fragments(html, "title, h1, h2, h3, h4, h5, h6, p, li") {
        Option::None => unreached(),
        Option::Some(fragments) => Ok(condense_fragments(&fragments)),
    }
}

/// The annotation a fetched URL is rewritten to.
pub open spec fn annotation_of(url: Seq<char>, extracted: Seq<char>) -> Seq<char> {
    url + " (Content: "@ + extracted + ")"@
}

/// Rewrites every occurrence of `url` in `text` to
/// `"<url> (Content: <extracted>)"`.
pub fn annotate_url(text: &str, url: &str, extracted: &str) -> (r: String)
    requires
        url@.len() >= 1,
    ensures
        r@ == replace_spec(text@, url@, annotation_of(url@, extracted@)),
{
    let mut repl = url.to_owned();
    repl.append(" (Content: ");
    repl.append(extracted);
    repl.append(")");
    proof {
        assert(repl@ =~= annotation_of(url@, extracted@));
    }
    replace_all(text, url, repl.as_str())
}

/// The views of optional notes.
pub open spec fn opt_views(v: Seq<Option<String>>) -> Seq<Option<Seq<char>>> {
    v.map_values(
        |o: Option<String>|
            match o {
                Option::Some(s) => Option::Some(s@),
                Option::None => Option::<Seq<char>>::None,
            },
    )
}

/// `text` after the URLs from index `k` on have been processed in order:
/// a URL with a note is rewritten to its annotation everywhere it occurs,
/// a URL without one is left alone.
pub open spec fn augment_from(
    text: Seq<char>,
    urls: Seq<Seq<char>>,
    notes: Seq<Option<Seq<char>>>,
    k: int,
) -> Seq<char>
    decreases urls.len() - k,
        when 0 <= k <= urls.len() && urls.len() == notes.len()
{
    if k >= urls.len() {
        text
    } else {
        let t2 = match notes[k] {
            Option::Some(e) => replace_spec(text, urls[k], annotation_of(urls[k], e)),
            Option::None => text,
        };
        augment_from(t2, urls, notes, k + 1)
    }
}

/// Rewrites `text` for the given URLs and notes, first URL first: each URL
/// with a note is replaced everywhere by `"<url> (Content: <note>)"`; a URL
/// whose fetch failed (no note) is left unmodified. A URL that stands more
/// than once in the list is rewritten once per entry, and a later pass sees
/// the text the earlier ones made, the copies inside their annotations
/// included.
#[verifier::loop_isolation(false)]
pub fn augment_prompt(text: &str, urls: &Vec<String>, notes: &Vec<Option<String>>) -> (r: String)
    requires
        urls@.len() == notes@.len(),
        forall|k: int| 0 <= k < urls@.len() ==> #[trigger] urls@[k]@.len() >= 1,
    ensures
        r@ == augment_from(text@, views(urls@), opt_views(notes@), 0),
{
    let mut cur = text.to_owned();
    let mut i: usize = 0;
    while i < urls.len()
        invariant
            i <= urls@.len(),
            augment_from(text@, views(urls@), opt_views(notes@), 0) == augment_from(
                cur@,
                views(urls@),
                opt_views(notes@),
                i as int,
            ),
        decreases urls@.len() - i,
    {
        proof {
            assert(views(urls@)[i as int] == urls@[i as int]@);
            assert(opt_views(notes@)[i as int] == match notes@[i as int] {
                Option::Some(s) => Option::Some(s@),
                Option::None => Option::<Seq<char>>::None,
            });
        }
        match &notes[i] {
            Option::Some(e) => {
                cur = annotate_url(cur.as_str(), urls[i].as_str(), e.as_str());
            },
            Option::None => {},
        }
        i = i + 1;
    }
    cur
}

/// Whether `note` is what extraction owes for `page`: a fetched page carries
/// exactly its condensed extraction, and a failed fetch (no page) carries
/// nothing.
pub open spec fn note_matches(page: Option<String>, note: Option<String>) -> bool {
    match page {
        Option::Some(h) => note matches Option::Some(e) && e@ == condensed(
            fragments_of(h@, "title, h1, h2, h3, h4, h5, h6, p, li"@),
        ),
        Option::None => note is None,
    }
}

/// Turns fetched pages into notes: every fetched page yields the note with
/// its condensed extraction, and a URL whose fetch failed (no page) yields
/// no note.
#[verifier::loop_isolation(false)]
pub fn extract_notes(pages: &Vec<Option<String>>) -> (notes: Vec<Option<String>>)
    ensures
        notes@.len() == pages@.len(),
        forall|k: int| 0 <= k < pages@.len() ==> note_matches(pages@[k], #[trigger] notes@[k]),
{
    let mut notes: Vec<Option<String>> = Vec::new();
    let mut i: usize = 0;
    while i < pages.len()
        invariant
            i <= pages@.len(),
            notes@.len() == i,
            forall|k: int| 0 <= k < i ==> note_matches(pages@[k], #[trigger] notes@[k]),
        decreases pages@.len() - i,
    {
        match &pages[i] {
            Option::Some(h) => {
                let extracted = extract_text(h.as_str()).unwrap();
                notes.push(Some(extracted));
            },
            Option::None => {
                notes.push(None);
            },
        }
        i = i + 1;
    }
    notes
}

} // verus!
