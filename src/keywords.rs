//! The most frequent words of a text: words of four or more letters, in lower
//! case, without common stop words.

use vstd::prelude::*;

use crate::category::{lower_of, lowercase};

verus! {

/// The pattern of a candidate word.
pub const WORD_PATTERN: &'static str = "\\b[a-zA-Z]{4,}\\b";

/// The texts of the successive matches of `pattern` in `text`.
pub uninterp spec fn regex_matches(pattern: Seq<char>, text: Seq<char>) -> Seq<Seq<char>>;

pub open spec fn views(s: Seq<String>) -> Seq<Seq<char>> {
    s.map_values(|w: String| w@)
}

/// Relies on `regex::Regex::new` and `Regex::find_iter`: the texts of the
/// successive non-overlapping matches of `pattern` in `text`, or nothing when
/// the pattern does not compile.
#[verifier::external_body]
fn find_matches(pattern: &str, text: &str) -> (r: Option<Vec<String>>)
    ensures
        r matches Some(v) ==> views(v@) == regex_matches(pattern@, text@),
{
    match regex::Regex::new(pattern) {
        Ok(re) => Some(re.find_iter(text).map(|m| m.as_str().to_string()).collect()),
        Err(_) => None,
    }
}

pub open spec fn stop_words() -> Seq<Seq<char>> {
    seq![
        "the"@, "be"@, "to"@, "of"@, "and"@, "a"@, "in"@, "that"@, "have"@, "it"@, "for"@,
        "not"@, "on"@, "with"@, "he"@, "as"@, "you"@, "do"@, "at"@, "this"@, "but"@, "his"@,
        "by"@, "from"@, "they"@, "we"@,
    ]
}

pub open spec fn is_stop_word(w: Seq<char>) -> bool {
    stop_words().contains(w)
}

/// `s` without its stop words.
pub open spec fn without_stops(s: Seq<Seq<char>>) -> Seq<Seq<char>>
    decreases s.len(),
{
    if s.len() == 0 {
        Seq::empty()
    } else if is_stop_word(s.last()) {
        without_stops(s.drop_last())
    } else {
        without_stops(s.drop_last()).push(s.last())
    }
}

/// How often `w` occurs in `s`.
pub open spec fn count_in(s: Seq<Seq<char>>, w: Seq<char>) -> nat
    decreases s.len(),
{
    if s.len() == 0 {
        0
    } else {
        count_in(s.drop_last(), w) + if s.last() == w {
            1nat
        } else {
            0nat
        }
    }
}

/// `r` lists up to `n` distinct words of `ws` by falling frequency, and no
/// word left out occurs more often than one listed. Fewer than `n` are listed
/// only when every word is.
pub open spec fn is_top_ranking(r: Seq<Seq<char>>, ws: Seq<Seq<char>>, n: int) -> bool {
    &&& r.no_duplicates()
    &&& r.len() <= n
    &&& forall|i: int| 0 <= i < r.len() ==> ws.contains(#[trigger] r[i])
    &&& r.len() < n ==> forall|w: Seq<char>| ws.contains(w) ==> r.contains(w)
    &&& forall|i: int, j: int|
        0 <= i < j < r.len() ==> count_in(ws, #[trigger] r[i]) >= count_in(ws, #[trigger] r[j])
    &&& forall|w: Seq<char>|
        #[trigger] ws.contains(w) && !r.contains(w) ==> forall|i: int|
            0 <= i < r.len() ==> count_in(ws, w) <= count_in(ws, #[trigger] r[i])
}

proof fn lemma_push_contains(s: Seq<Seq<char>>, x: Seq<char>, w: Seq<char>)
    ensures
        s.push(x).contains(w) <==> s.contains(w) || w == x,
{
    if s.contains(w) {
        let k = choose|k: int| 0 <= k < s.len() && s[k] == w;
        assert(s.push(x)[k] == w);
    }
    if w == x {
        assert(s.push(x)[s.len() as int] == x);
    }
    if s.push(x).contains(w) {
        let k = choose|k: int| 0 <= k < s.push(x).len() && s.push(x)[k] == w;
        if k < s.len() {
            assert(s[k] == w);
        }
    }
}

/// Whether `w` is a stop word.
fn check_stop_word(w: &String) -> (r: bool)
    ensures
        r == is_stop_word(w@),
{
    let stops: Vec<&str> = vec![
        "the", "be", "to", "of", "and", "a", "in", "that", "have", "it", "for", "not", "on",
        "with", "he", "as", "you", "do", "at", "this", "but", "his", "by", "from", "they", "we",
    ];
    assert(stops@.map_values(|s: &str| s@) =~= stop_words());
    let mut k: usize = 0;
    while k < stops.len()
        invariant
            0 <= k <= stops.len(),
            stops@.map_values(|s: &str| s@) == stop_words(),
            forall|j: int| 0 <= j < k ==> stop_words()[j] != w@,
        decreases stops.len() - k,
    {
        if *w == stops[k].to_owned() {
            assert(stop_words()[k as int] == w@);
            return true;
        }
        assert(stop_words()[k as int] == stops@[k as int]@);
        k = k + 1;
    }
    false
}

/// The `top_n` most frequent words of `words` that are not stop words, by
/// falling frequency. Words are compared as they are: callers lower-case them
/// first.
pub fn rank_words(words: &Vec<String>, top_n: usize) -> (r: Vec<String>)
    ensures
        is_top_ranking(views(r@), without_stops(views(words@)), top_n as int),
{
    let ghost all = views(words@);
    // Distinct kept words, in order of first appearance, and their counts.
    let mut uniq: Vec<String> = Vec::new();
    let mut counts: Vec<usize> = Vec::new();
    let mut i: usize = 0;
    while i < words.len()
        invariant
            0 <= i <= words.len(),
            all == views(words@),
            uniq@.len() == counts@.len(),
            views(uniq@).no_duplicates(),
            forall|j: int|
                0 <= j < uniq@.len() ==> #[trigger] counts@[j] == count_in(
                    without_stops(all.subrange(0, i as int)),
                    uniq@[j]@,
                ) && counts@[j] <= i,
            forall|w: Seq<char>|
                without_stops(all.subrange(0, i as int)).contains(w) <==> views(uniq@).contains(w),
        decreases words.len() - i,
    {
        let ghost before = without_stops(all.subrange(0, i as int));
        assert(all.subrange(0, i + 1).drop_last() =~= all.subrange(0, i as int));
        assert(all.subrange(0, i + 1).last() == words@[i as int]@);
        let w = &words[i];
        if !check_stop_word(w) {
            let ghost after = before.push(w@);
            assert(without_stops(all.subrange(0, i + 1)) == after);
            assert(after.drop_last() =~= before);
            let mut j: usize = 0;
            let mut found = false;
            while j < uniq.len() && !found
                invariant
                    0 <= j <= uniq.len(),
                    found ==> j < uniq.len() && uniq@[j as int]@ == w@,
                    forall|k: int| 0 <= k < j ==> uniq@[k]@ != w@,
                decreases uniq.len() - j, if found { 0int } else { 1int },
            {
                if uniq[j] == *w {
                    found = true;
                } else {
                    j = j + 1;
                }
            }
            let ghost uv = views(uniq@);
            if found {
                let c = counts[j] + 1;
                counts.set(j, c);
                proof {
                    assert forall|k: int| 0 <= k < uniq@.len() implies #[trigger] counts@[k] == count_in(
                        after,
                        uniq@[k]@,
                    ) && counts@[k] <= i + 1 by {
                        if k != j {
                            assert(uv[k] == uniq@[k]@);
                            assert(uv[j as int] == uniq@[j as int]@);
                        }
                    }
                    assert forall|x: Seq<char>| after.contains(x) <==> views(uniq@).contains(x) by {
                        lemma_push_contains(before, w@, x);
                        assert(uv[j as int] == w@);
                    }
                }
            } else {
                proof {
                    assert(!uv.contains(w@)) by {
                        if uv.contains(w@) {
                            let k = choose|k: int| 0 <= k < uv.len() && uv[k] == w@;
                            assert(uniq@[k]@ == w@);
                        }
                    }
                    assert(!before.contains(w@));
                    lemma_count_absent(before, w@);
                }
                uniq.push(w.clone());
                counts.push(1);
                proof {
                    assert(views(uniq@) =~= uv.push(w@));
                    assert forall|k: int| 0 <= k < uniq@.len() implies #[trigger] counts@[k] == count_in(
                        after,
                        uniq@[k]@,
                    ) && counts@[k] <= i + 1 by {
                        if k < uv.len() {
                            assert(uv[k] == uniq@[k]@);
                            assert(uv[k] != w@);
                        }
                    }
                    assert forall|x: Seq<char>| after.contains(x) <==> views(uniq@).contains(x) by {
                        lemma_push_contains(before, w@, x);
                        lemma_push_contains(uv, w@, x);
                    }
                    assert(views(uniq@).no_duplicates()) by {
                        assert forall|a: int, b: int|
                            0 <= a < views(uniq@).len() && 0 <= b < views(uniq@).len() && a != b implies views(
                                uniq@,
                            )[a] != views(uniq@)[b] by {
                            if a < uv.len() && b < uv.len() {
                            } else if a < uv.len() {
                                assert(uv.contains(uv[a]));
                            } else {
                                assert(uv.contains(uv[b]));
                            }
                        }
                    }
                }
            }
        } else {
            assert(without_stops(all.subrange(0, i + 1)) == before);
        }
        i = i + 1;
    }
    assert(all.subrange(0, words@.len() as int) =~= all);
    let ghost ws = without_stops(all);
    select_top(&uniq, &counts, top_n, Ghost(ws))
}

proof fn lemma_count_absent(s: Seq<Seq<char>>, w: Seq<char>)
    requires
        !s.contains(w),
    ensures
        count_in(s, w) == 0,
    decreases s.len(),
{
    if s.len() > 0 {
        assert(s.last() == s[s.len() - 1]);
        assert(!s.drop_last().contains(w)) by {
            if s.drop_last().contains(w) {
                let k = choose|k: int| 0 <= k < s.drop_last().len() && s.drop_last()[k] == w;
                assert(s[k] == w);
            }
        }
        lemma_count_absent(s.drop_last(), w);
    }
}

/// Picks up to `top_n` of the counted words, each time the most frequent of
/// those left (the first of equals).
fn select_top(uniq: &Vec<String>, counts: &Vec<usize>, top_n: usize, Ghost(ws): Ghost<
    Seq<Seq<char>>,
>) -> (r: Vec<String>)
    requires
        uniq@.len() == counts@.len(),
        views(uniq@).no_duplicates(),
        forall|j: int| 0 <= j < uniq@.len() ==> #[trigger] counts@[j] == count_in(ws, uniq@[j]@),
        forall|w: Seq<char>| ws.contains(w) <==> views(uniq@).contains(w),
    ensures
        is_top_ranking(views(r@), ws, top_n as int),
{
    let m = uniq.len();
    let mut used: Vec<bool> = Vec::new();
    while used.len() < m
        invariant
            used@.len() <= m,
            forall|k: int| 0 <= k < used@.len() ==> !#[trigger] used@[k],
        decreases m - used@.len(),
    {
        used.push(false);
    }
    let mut r: Vec<String> = Vec::new();
    let ghost mut picked: Seq<int> = Seq::empty();
    let mut done = false;
    while !done && r.len() < top_n
        invariant
            m == uniq@.len(),
            m == counts@.len(),
            used@.len() == m,
            r@.len() == picked.len(),
            r@.len() <= top_n,
            forall|t: int|
                0 <= t < picked.len() ==> 0 <= #[trigger] picked[t] < m && used@[picked[t]]
                    && r@[t]@ == uniq@[picked[t]]@,
            forall|a: int, b: int| 0 <= a < b < picked.len() ==> picked[a] != picked[b],
            forall|k: int| 0 <= k < m && #[trigger] used@[k] ==> exists|t: int| 0 <= t < picked.len() && picked[t] == k,
            forall|a: int, b: int|
                0 <= a < b < picked.len() ==> counts@[#[trigger] picked[a]] >= counts@[#[trigger] picked[b]],
            forall|k: int, t: int|
                0 <= k < m && !#[trigger] used@[k] && 0 <= t < picked.len() ==> counts@[k] <= counts@[#[trigger] picked[t]],
            done ==> forall|k: int| 0 <= k < m ==> #[trigger] used@[k],
        decreases top_n - r@.len(), if done { 0int } else { 1int },
    {
        let mut best: usize = m;
        let mut k: usize = 0;
        while k < m
            invariant
                m == uniq@.len(),
                m == counts@.len(),
                used@.len() == m,
                0 <= k <= m,
                best <= m,
                best == m ==> forall|x: int| 0 <= x < k ==> #[trigger] used@[x],
                best < m ==> !used@[best as int] && forall|x: int|
                    0 <= x < k && !#[trigger] used@[x] ==> counts@[x] <= counts@[best as int],
            decreases m - k,
        {
            if !used[k] && (best == m || counts[k] > counts[best]) {
                best = k;
            }
            k = k + 1;
        }
        if best == m {
            done = true;
        } else {
            let ghost old_used = used@;
            let ghost old_picked = picked;
            used.set(best, true);
            r.push(uniq[best].clone());
            proof {
                picked = picked.push(best as int);
                assert forall|x: int| 0 <= x < m && #[trigger] used@[x] implies exists|t: int|
                    0 <= t < picked.len() && picked[t] == x by {
                    if x != best {
                        assert(old_used[x]);
                        assert(exists|t: int| 0 <= t < old_picked.len() && old_picked[t] == x);
                        let t = choose|t: int| 0 <= t < old_picked.len() && old_picked[t] == x;
                        assert(picked[t] == x);
                    } else {
                        assert(picked[picked.len() - 1] == x);
                    }
                }
                assert forall|a: int, b: int| 0 <= a < b < picked.len() implies picked[a] != picked[b] by {
                    if b == picked.len() - 1 {
                        assert(old_used[picked[a]]);
                    }
                }
            }
        }
    }
    proof {
        let rv = views(r@);
        assert forall|a: int, b: int| 0 <= a < rv.len() && 0 <= b < rv.len() && a != b implies rv[a] != rv[b] by {
            assert(rv[a] == r@[a]@);
            assert(rv[b] == r@[b]@);
            assert(views(uniq@)[picked[a]] == uniq@[picked[a]]@);
            assert(views(uniq@)[picked[b]] == uniq@[picked[b]]@);
        }
        assert forall|i: int| 0 <= i < rv.len() implies ws.contains(#[trigger] rv[i]) by {
            assert(views(uniq@)[picked[i]] == uniq@[picked[i]]@);
            assert(views(uniq@).contains(rv[i]));
        }
        assert forall|w: Seq<char>| ws.contains(w) && !rv.contains(w) implies forall|i: int|
            0 <= i < rv.len() ==> count_in(ws, w) <= count_in(ws, #[trigger] rv[i]) by {
            let k = choose|k: int| 0 <= k < views(uniq@).len() && views(uniq@)[k] == w;
            assert(uniq@[k]@ == w);
            if used@[k] {
                let t = choose|t: int| 0 <= t < picked.len() && picked[t] == k;
                assert(rv[t] == w);
            }
            assert forall|i: int| 0 <= i < rv.len() implies count_in(ws, w) <= count_in(ws, #[trigger] rv[i]) by {
                assert(counts@[k] <= counts@[picked[i]]);
            }
        }
        assert forall|i: int, j: int| 0 <= i < j < rv.len() implies count_in(ws, #[trigger] rv[i]) >= count_in(
            ws,
            #[trigger] rv[j],
        ) by {
            assert(counts@[picked[i]] >= counts@[picked[j]]);
        }
        if rv.len() < top_n {
            assert forall|w: Seq<char>| ws.contains(w) implies rv.contains(w) by {
                let k = choose|k: int| 0 <= k < views(uniq@).len() && views(uniq@)[k] == w;
                assert(used@[k]);
                let t = choose|t: int| 0 <= t < picked.len() && picked[t] == k;
                assert(rv[t] == w);
            }
        }
    }
    r
}

pub open spec fn lowered(s: Seq<Seq<char>>) -> Seq<Seq<char>> {
    s.map_values(|w: Seq<char>| lower_of(w))
}

/// Each word in lower case.
fn lowercase_all(words: &Vec<String>) -> (r: Vec<String>)
    ensures
        views(r@) == lowered(views(words@)),
{
    let mut out: Vec<String> = Vec::new();
    let mut i: usize = 0;
    while i < words.len()
        invariant
            0 <= i <= words.len(),
            views(out@) == lowered(views(words@.subrange(0, i as int))),
        decreases words.len() - i,
    {
        let ghost prev = out@;
        let low = lowercase(words[i].as_str());
        out.push(low);
        assert(views(out@) =~= views(prev).push(lower_of(words@[i as int]@)));
        assert(views(words@.subrange(0, i + 1)) =~= views(words@.subrange(0, i as int)).push(
            words@[i as int]@,
        ));
        assert(lowered(views(words@.subrange(0, i + 1))) =~= lowered(
            views(words@.subrange(0, i as int)),
        ).push(lower_of(words@[i as int]@)));
        i = i + 1;
    }
    assert(words@.subrange(0, words@.len() as int) =~= words@);
    out
}

/// The `top_n` most frequent words of `text` (runs of four or more ASCII
/// letters between word boundaries), in lower case and without stop words.
/// When the word pattern is refused by the matcher, no words are found.
pub fn extract_keywords(text: &str, top_n: usize) -> (r: Vec<String>)
    ensures
        is_top_ranking(
            views(r@),
            without_stops(lowered(regex_matches(WORD_PATTERN@, text@))),
            top_n as int,
        ) || r@.len() == 0,
{
    match find_matches(WORD_PATTERN, text) {
        Some(found) => {
            let lower = lowercase_all(&found);
            rank_words(&lower, top_n)
        },
        None => Vec::new(),
    }
}

} // verus!
