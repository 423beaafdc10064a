//! Wake-word phrase matching: deciding whether a transcript opens with the
//! configured wake phrase, tolerating casing, punctuation, a word split in
//! two, and a small edit distance, and handing back the command spoken
//! after the phrase.
use vstd::prelude::*;

use crate::text::{
    ws_state,
    is_ascii_alnum, is_whitespace, is_ws, join, join_chars, keep_where, seqs, slice_chars,
    split_whitespace, split_ws, chars_of, string_of, extend_chars,
};

verus! {

/// The largest edit distance, between the wake phrase and the start of a
/// transcript (both normalized and run together), that still matches.
pub const MAX_EDIT_DISTANCE: usize = 2;

/// How many transcript words beyond the wake phrase's own word count are
/// tried, so that a phrase word heard as two still lines up.
pub const EXTRA_WORDS_FOR_SPLIT: usize = 1;

/// A successful wake-phrase match.
#[derive(Debug, Clone, PartialEq, Eq)]
pub struct WakeMatch {
    /// The rest of the utterance after the wake phrase, or `None` when the
    /// utterance was only the phrase.
    pub command: Option<String>,
}

/// Matches transcripts against a configured wake phrase.
#[derive(Debug)]
pub struct WakeWordMatcher {
    wake_words: Vec<String>,
}

// ---------------------------------------------------------------------
// Normalizing and edit distance
// ---------------------------------------------------------------------
/// ASCII lower case of `c`; any other character unchanged.
pub open spec fn lower(c: char) -> char {
    if 'A' <= c <= 'Z' {
        ((c as u32) + 32) as char
    } else {
        c
    }
}

/// `w` lowercased with everything but ASCII letters and digits dropped.
pub open spec fn norm(w: Seq<char>) -> Seq<char> {
    keep_where(w, |c: char| is_ascii_alnum(c)).map_values(|c: char| lower(c))
}

/// ASCII upper case of `c`; any other character unchanged.
pub open spec fn upper(c: char) -> char {
    if 'a' <= c <= 'z' {
        ((c as u32) - 32) as char
    } else {
        c
    }
}

proof fn lemma_norm_map(w: Seq<char>, f: spec_fn(char) -> char)
    requires
        forall|c: char| #[trigger] is_ascii_alnum(f(c)) == is_ascii_alnum(c),
        forall|c: char| #[trigger] lower(f(c)) == lower(c),
    ensures
        norm(w.map_values(f)) == norm(w),
    decreases w.len(),
{
    if w.len() > 0 {
        let m = w.map_values(f);
        assert(m.drop_last() =~= w.drop_last().map_values(f));
        assert(m.last() == f(w.last()));
        lemma_norm_map(w.drop_last(), f);
        let p = |c: char| is_ascii_alnum(c);
        let g = |c: char| lower(c);
        if p(w.last()) {
            assert(keep_where(m, p) == keep_where(m.drop_last(), p).push(m.last()));
            assert(keep_where(m, p).map_values(g) =~= keep_where(m.drop_last(), p).map_values(g).push(g(m.last())));
            assert(keep_where(w, p).map_values(g) =~= keep_where(w.drop_last(), p).map_values(g).push(g(w.last())));
        } else {
            assert(keep_where(m, p) == keep_where(m.drop_last(), p));
        }
    }
}

proof fn lemma_keep_alnum_twice(w: Seq<char>)
    ensures
        keep_where(keep_where(w, |c: char| is_ascii_alnum(c)), |c: char| is_ascii_alnum(c))
            == keep_where(w, |c: char| is_ascii_alnum(c)),
    decreases w.len(),
{
    let p = |c: char| is_ascii_alnum(c);
    if w.len() > 0 {
        lemma_keep_alnum_twice(w.drop_last());
        if p(w.last()) {
            let k = keep_where(w, p);
            assert(k.drop_last() =~= keep_where(w.drop_last(), p));
        }
    }
}

/// Casing and punctuation never affect matching: a word normalizes the
/// same whether its ASCII letters are lowercased or uppercased first, and
/// whether everything but ASCII letters and digits is dropped first.
pub proof fn lemma_norm_ignores_case_and_punctuation(w: Seq<char>)
    ensures
        norm(w.map_values(|c: char| lower(c))) == norm(w),
        norm(w.map_values(|c: char| upper(c))) == norm(w),
        norm(keep_where(w, |c: char| is_ascii_alnum(c))) == norm(w),
{
    assert forall|c: char| #[trigger] is_ascii_alnum(lower(c)) == is_ascii_alnum(c) && lower(lower(c)) == lower(c) by {
        if 'A' <= c <= 'Z' {
            assert((lower(c) as u32) == (c as u32) + 32);
        }
    }
    assert forall|c: char| #[trigger] is_ascii_alnum(upper(c)) == is_ascii_alnum(c) && lower(upper(c)) == lower(c) by {
        if 'a' <= c <= 'z' {
            assert((upper(c) as u32) + 32 == (c as u32));
        }
    }
    lemma_norm_map(w, |c: char| lower(c));
    lemma_norm_map(w, |c: char| upper(c));
    lemma_keep_alnum_twice(w);
}

/// Levenshtein edit distance between `a` and `b`, in characters.
pub open spec fn lev(a: Seq<char>, b: Seq<char>) -> nat
    decreases a.len() + b.len(),
{
    if a.len() == 0 {
        b.len()
    } else if b.len() == 0 {
        a.len()
    } else {
        let del = lev(a.drop_last(), b) + 1;
        let ins = lev(a, b.drop_last()) + 1;
        let sub = lev(a.drop_last(), b.drop_last()) + if a.last() == b.last() {
            0nat
        } else {
            1nat
        };
        min3(del, ins, sub)
    }
}

pub open spec fn min3(x: nat, y: nat, z: nat) -> nat {
    let m = if x <= y {
        x
    } else {
        y
    };
    if m <= z {
        m
    } else {
        z
    }
}

fn lower_char(c: char) -> (r: char)
    ensures
        r == lower(c),
{
    if 'A' <= c && c <= 'Z' {
        let b = c as u8;
        let l = b + 32;
        l as char
    } else {
        c
    }
}

/// Lowercase `word` and drop everything but ASCII letters and digits.
pub fn normalize_word(word: &[char]) -> (r: Vec<char>)
    ensures
        r@ == norm(word@),
{
    let ghost p = |c: char| is_ascii_alnum(c);
    let ghost f = |c: char| lower(c);
    let mut r: Vec<char> = Vec::new();
    let mut i: usize = 0;
    while i < word.len()
        invariant
            i <= word@.len(),
            p == (|c: char| is_ascii_alnum(c)),
            f == (|c: char| lower(c)),
            r@ == keep_where(word@.take(i as int), p).map_values(f),
        decreases word.len() - i,
    {
        assert(word@.take(i + 1).drop_last() =~= word@.take(i as int));
        let c = word[i];
        if ('0' <= c && c <= '9') || ('a' <= c && c <= 'z') || ('A' <= c && c <= 'Z') {
            let ghost before = keep_where(word@.take(i as int), p);
            r.push(lower_char(c));
            assert(keep_where(word@.take(i + 1), p) == before.push(c));
            assert(r@ =~= before.push(c).map_values(f));
        }
        i = i + 1;
    }
    assert(word@.take(word@.len() as int) =~= word@);
    r
}

/// The edit distance is at most the longer length.
pub proof fn lemma_lev_bound(a: Seq<char>, b: Seq<char>)
    ensures
        lev(a, b) <= if a.len() >= b.len() {
            a.len()
        } else {
            b.len()
        },
    decreases a.len() + b.len(),
{
    if a.len() > 0 && b.len() > 0 {
        lemma_lev_bound(a.drop_last(), b.drop_last());
    }
}

/// A word is no distance from itself.
pub proof fn lemma_lev_self(a: Seq<char>)
    ensures
        lev(a, a) == 0,
    decreases a.len(),
{
    if a.len() > 0 {
        lemma_lev_self(a.drop_last());
        lemma_lev_bound(a.drop_last(), a);
        lemma_lev_bound(a, a.drop_last());
    }
}

/// Levenshtein edit distance between two character sequences.
pub fn levenshtein(a: &[char], b: &[char]) -> (d: usize)
    requires
        a@.len() < usize::MAX,
        b@.len() < usize::MAX,
    ensures
        d == lev(a@, b@),
{
    let m = b.len();
    let mut prev: Vec<usize> = Vec::new();
    let mut j: usize = 0;
    while j <= m
        invariant
            j <= m + 1,
            m == b@.len(),
            m < usize::MAX,
            prev@.len() == j,
            forall|k: int| 0 <= k < j ==> prev@[k] == lev(seq![], b@.take(k)),
        decreases m + 1 - j,
    {
        prev.push(j);
        j = j + 1;
    }
    assert(a@.take(0) =~= seq![]);
    let mut i: usize = 1;
    while i <= a.len()
        invariant
            1 <= i <= a@.len() + 1,
            m == b@.len(),
            m < usize::MAX,
            a@.len() < usize::MAX,
            prev@.len() == m + 1,
            forall|k: int| 0 <= k <= m ==> prev@[k] == lev(a@.take(i - 1), b@.take(k)),
        decreases a.len() + 1 - i,
    {
        let ghost ai = a@.take(i as int);
        assert(ai.drop_last() =~= a@.take(i - 1));
        let mut curr: Vec<usize> = Vec::new();
        curr.push(i);
        let mut j: usize = 1;
        while j <= m
            invariant
                1 <= i <= a@.len(),
                1 <= j <= m + 1,
                m == b@.len(),
                m < usize::MAX,
                a@.len() < usize::MAX,
                ai == a@.take(i as int),
                ai.drop_last() == a@.take(i - 1),
                prev@.len() == m + 1,
                forall|k: int| 0 <= k <= m ==> prev@[k] == lev(a@.take(i - 1), b@.take(k)),
                curr@.len() == j,
                forall|k: int| 0 <= k < j ==> curr@[k] == lev(ai, b@.take(k)),
            decreases m + 1 - j,
        {
            let ghost bj = b@.take(j as int);
            assert(bj.drop_last() =~= b@.take(j - 1));
            assert(ai.last() == a@[i - 1]);
            assert(bj.last() == b@[j - 1]);
            proof {
                lemma_lev_bound(a@.take(i - 1), bj);
                lemma_lev_bound(ai, b@.take(j - 1));
                lemma_lev_bound(a@.take(i - 1), b@.take(j - 1));
            }
            let cost: usize = if a[i - 1] == b[j - 1] {
                0
            } else {
                1
            };
            let del = prev[j] + 1;
            let ins = curr[j - 1] + 1;
            let sub = prev[j - 1] + cost;
            let m1 = if del <= ins {
                del
            } else {
                ins
            };
            let v = if m1 <= sub {
                m1
            } else {
                sub
            };
            curr.push(v);
            j = j + 1;
        }
        prev = curr;
        i = i + 1;
    }
    assert(a@.take(a@.len() as int) =~= a@);
    assert(b@.take(m as int) =~= b@);
    prev[m]
}

// ---------------------------------------------------------------------
// Running words together
// ---------------------------------------------------------------------
/// The words of `ws` concatenated with nothing between them.
pub open spec fn run_together(ws: Seq<Seq<char>>) -> Seq<char>
    decreases ws.len(),
{
    if ws.len() == 0 {
        seq![]
    } else {
        run_together(ws.drop_last()) + ws.last()
    }
}

/// Each word of `ws` normalized.
pub open spec fn norm_all(ws: Seq<Seq<char>>) -> Seq<Seq<char>> {
    ws.map_values(|w: Seq<char>| norm(w))
}

/// The words of `ws` that are not empty.
pub open spec fn non_empty(ws: Seq<Seq<char>>) -> Seq<Seq<char>>
    decreases ws.len(),
{
    if ws.len() == 0 {
        seq![]
    } else if ws.last().len() > 0 {
        non_empty(ws.drop_last()).push(ws.last())
    } else {
        non_empty(ws.drop_last())
    }
}

/// The wake words of a phrase: its whitespace-separated words normalized,
/// those left empty dropped.
pub open spec fn wake_words_of(phrase: Seq<char>) -> Seq<Seq<char>> {
    non_empty(norm_all(split_ws(phrase)))
}

proof fn lemma_keep_len(s: Seq<char>, p: spec_fn(char) -> bool)
    ensures
        keep_where(s, p).len() <= s.len(),
    decreases s.len(),
{
    if s.len() > 0 {
        lemma_keep_len(s.drop_last(), p);
    }
}

proof fn lemma_norm_all_len(ws: Seq<Seq<char>>)
    ensures
        run_together(norm_all(ws)).len() <= run_together(ws).len(),
    decreases ws.len(),
{
    if ws.len() > 0 {
        lemma_norm_all_len(ws.drop_last());
        assert(norm_all(ws).drop_last() =~= norm_all(ws.drop_last()));
        lemma_keep_len(ws.last(), |c: char| is_ascii_alnum(c));
    }
}

proof fn lemma_take_len(ws: Seq<Seq<char>>, k: int)
    requires
        0 <= k <= ws.len(),
    ensures
        run_together(ws.take(k)).len() <= run_together(ws).len(),
    decreases ws.len(),
{
    if k < ws.len() {
        assert(ws.drop_last().take(k) =~= ws.take(k));
        lemma_take_len(ws.drop_last(), k);
    } else {
        assert(ws.take(k) =~= ws);
    }
}

proof fn lemma_non_empty_len(ws: Seq<Seq<char>>)
    ensures
        run_together(non_empty(ws)).len() <= run_together(ws).len(),
    decreases ws.len(),
{
    if ws.len() > 0 {
        lemma_non_empty_len(ws.drop_last());
        let prev = non_empty(ws.drop_last());
        assert(prev.push(ws.last()).drop_last() =~= prev);
    }
}

proof fn lemma_non_empty_words(ws: Seq<Seq<char>>)
    ensures
        forall|i: int| 0 <= i < non_empty(ws).len() ==> (#[trigger] non_empty(ws)[i]).len() > 0,
    decreases ws.len(),
{
    if ws.len() > 0 {
        lemma_non_empty_words(ws.drop_last());
        let prev = non_empty(ws.drop_last());
        if ws.last().len() > 0 {
            assert forall|i: int| 0 <= i < non_empty(ws).len() implies (#[trigger] non_empty(ws)[i]).len() > 0 by {
                if i < prev.len() {
                    assert(non_empty(ws)[i] == prev[i]);
                }
            }
        }
    }
}

proof fn lemma_count_le_total(ws: Seq<Seq<char>>)
    requires
        forall|i: int| 0 <= i < ws.len() ==> (#[trigger] ws[i]).len() > 0,
    ensures
        ws.len() <= run_together(ws).len(),
    decreases ws.len(),
{
    if ws.len() > 0 {
        assert forall|i: int| 0 <= i < ws.drop_last().len() implies (#[trigger] ws.drop_last()[i]).len() > 0 by {
            assert(ws.drop_last()[i] == ws[i]);
        }
        lemma_count_le_total(ws.drop_last());
        assert(ws[ws.len() - 1].len() > 0);
    }
}

proof fn lemma_ws_state_len(s: Seq<char>)
    ensures
        run_together(ws_state(s).0).len() + ws_state(s).1.len() <= s.len(),
    decreases s.len(),
{
    if s.len() > 0 {
        lemma_ws_state_len(s.drop_last());
        let prev = ws_state(s.drop_last());
        assert(prev.0.push(prev.1).drop_last() =~= prev.0);
    }
}

proof fn lemma_split_len(s: Seq<char>)
    ensures
        run_together(split_ws(s)).len() <= s.len(),
{
    lemma_ws_state_len(s);
    let st = ws_state(s);
    assert(st.0.push(st.1).drop_last() =~= st.0);
}

proof fn lemma_best_upto_range(words: Seq<Seq<char>>, wake: Seq<char>, n: int)
    requires
        n >= 1,
    ensures
        1 <= best_upto(words, wake, n).0 <= n,
    decreases n,
{
    if n > 1 {
        lemma_best_upto_range(words, wake, n - 1);
    }
}

// ---------------------------------------------------------------------
// Matching
// ---------------------------------------------------------------------
/// How far the first `count` words of `words`, normalized and run
/// together, are from the run-together wake phrase.
pub open spec fn prefix_distance(words: Seq<Seq<char>>, wake: Seq<char>, count: int) -> nat {
    lev(run_together(norm_all(words.take(count))), wake)
}

/// Among word counts `1..=n`, the first with the smallest distance, and
/// that distance.
pub open spec fn best_upto(words: Seq<Seq<char>>, wake: Seq<char>, n: int) -> (int, nat)
    decreases n,
{
    if n <= 1 {
        (1, prefix_distance(words, wake, 1))
    } else {
        let b = best_upto(words, wake, n - 1);
        let d = prefix_distance(words, wake, n);
        if d < b.1 {
            (n, d)
        } else {
            b
        }
    }
}

/// The best prefix is the shortest one closest to the wake phrase: among
/// word counts `1..=n` its distance is the smallest, and every shorter
/// count is strictly farther.
pub proof fn lemma_best_is_shortest_closest(words: Seq<Seq<char>>, wake: Seq<char>, n: int)
    requires
        n >= 1,
    ensures
        1 <= best_upto(words, wake, n).0 <= n,
        best_upto(words, wake, n).1 == prefix_distance(words, wake, best_upto(words, wake, n).0),
        forall|k: int| 1 <= k <= n ==> best_upto(words, wake, n).1 <= #[trigger] prefix_distance(words, wake, k),
        forall|k: int| 1 <= k < best_upto(words, wake, n).0 ==> best_upto(words, wake, n).1 < #[trigger] prefix_distance(words, wake, k),
    decreases n,
{
    if n > 1 {
        lemma_best_is_shortest_closest(words, wake, n - 1);
    }
}

/// The best prefix of `words` of at most `max_words` words, or `None`
/// when there are no words.
pub open spec fn best_prefix_of(words: Seq<Seq<char>>, wake: Seq<char>, max_words: int) -> Option<(int, nat)> {
    let limit = if max_words <= words.len() {
        max_words
    } else {
        words.len() as int
    };
    if limit < 1 {
        None
    } else {
        Some(best_upto(words, wake, limit))
    }
}

/// Every character of `s` is whitespace.
pub open spec fn all_ws(s: Seq<char>) -> bool {
    forall|i: int| 0 <= i < s.len() ==> is_ws(s[i])
}

/// What matching `transcript` against `wake_words` gives: `None` when
/// there are no wake words, no transcript words, or the best prefix is
/// more than `MAX_EDIT_DISTANCE` away; else a match carrying the words
/// after that prefix joined by spaces, `None` when nothing but whitespace
/// is left.
pub open spec fn wake_result(wake_words: Seq<Seq<char>>, transcript: Seq<char>) -> Option<Option<Seq<char>>> {
    if wake_words.len() == 0 {
        None
    } else {
        let words = split_ws(transcript);
        match best_prefix_of(words, run_together(wake_words), wake_words.len() + EXTRA_WORDS_FOR_SPLIT) {
            None => None,
            Some(b) => if b.1 > MAX_EDIT_DISTANCE {
                None
            } else {
                let rem = join(words.subrange(b.0, words.len() as int), seq![' ']);
                Some(
                    if all_ws(rem) {
                        None
                    } else {
                        Some(rem)
                    },
                )
            },
        }
    }
}

/// The matcher's view of a match: its command, if any.
pub open spec fn match_view(m: WakeMatch) -> Option<Seq<char>> {
    match m.command {
        Some(c) => Some(c@),
        None => None,
    }
}

/// The character vectors' concatenation.
fn concat_words(ws: &Vec<Vec<char>>) -> (r: Vec<char>)
    ensures
        r@ == run_together(seqs(ws@)),
{
    let mut r: Vec<char> = Vec::new();
    let mut i: usize = 0;
    while i < ws.len()
        invariant
            i <= ws@.len(),
            r@ == run_together(seqs(ws@).take(i as int)),
        decreases ws.len() - i,
    {
        assert(seqs(ws@).take(i + 1).drop_last() =~= seqs(ws@).take(i as int));
        extend_chars(&mut r, ws[i].as_slice());
        i = i + 1;
    }
    assert(seqs(ws@).take(ws@.len() as int) =~= seqs(ws@));
    r
}

/// Try consuming `1..=max_words` leading words, normalizing and running
/// each prefix together, and measuring its edit distance to `wake`.
/// Gives the word count and distance of the first closest prefix, or
/// `None` when there are no words.
pub fn best_prefix(words: &Vec<Vec<char>>, wake: &[char], max_words: usize) -> (r: Option<(usize, usize)>)
    requires
        run_together(seqs(words@)).len() < usize::MAX,
        wake@.len() < usize::MAX,
    ensures
        match r {
            Some((c, d)) => best_prefix_of(seqs(words@), wake@, max_words as int) == Some((c as int, d as nat)),
            None => best_prefix_of(seqs(words@), wake@, max_words as int) is None,
        },
{
    let limit = if max_words <= words.len() {
        max_words
    } else {
        words.len()
    };
    if limit < 1 {
        return None;
    }
    let ghost ws = seqs(words@);
    let mut concat = normalize_word(words[0].as_slice());
    proof {
        assert(norm_all(ws.take(1)) =~= seq![norm(ws[0])]);
        let one: Seq<Seq<char>> = seq![norm(ws[0])];
        assert(one.drop_last() =~= Seq::<Seq<char>>::empty());
        assert(run_together(one.drop_last()) == Seq::<char>::empty());
        assert(run_together(one) == run_together(one.drop_last()) + one.last());
        assert(Seq::<char>::empty() + norm(ws[0]) =~= norm(ws[0]));
        assert(run_together(norm_all(ws.take(1))) == norm(ws[0]));
        lemma_norm_all_len(ws.take(1));
        lemma_take_len(ws, 1);
    }
    let mut best_count: usize = 1;
    let mut best_dist = levenshtein(concat.as_slice(), wake);
    let mut count: usize = 1;
    while count < limit
        invariant
            1 <= count <= limit <= ws.len(),
            ws == seqs(words@),
            run_together(ws).len() < usize::MAX,
            wake@.len() < usize::MAX,
            concat@ == run_together(norm_all(ws.take(count as int))),
            (best_count as int, best_dist as nat) == best_upto(ws, wake@, count as int),
        decreases limit - count,
    {
        let next = normalize_word(words[count].as_slice());
        extend_chars(&mut concat, next.as_slice());
        proof {
            let k = count + 1;
            assert(ws.take(k).drop_last() =~= ws.take(count as int));
            assert(norm_all(ws.take(k)).drop_last() =~= norm_all(ws.take(count as int)));
            lemma_norm_all_len(ws.take(k));
            lemma_take_len(ws, k);
        }
        let d = levenshtein(concat.as_slice(), wake);
        count = count + 1;
        if d < best_dist {
            best_count = count;
            best_dist = d;
        }
    }
    Some((best_count, best_dist))
}

impl WakeWordMatcher {
    /// The normalized wake words, in order.
    pub closed spec fn words(self) -> Seq<Seq<char>> {
        self.wake_words@.map_values(|w: String| w@)
    }

    /// No wake word is empty, and the words run together fit in memory's
    /// index range.
    pub closed spec fn wf(self) -> bool {
        &&& run_together(self.words()).len() < usize::MAX
        &&& forall|i: int| 0 <= i < self.words().len() ==> (#[trigger] self.words()[i]).len() > 0
    }

    /// Build a matcher for `wake_phrase` (such as "hey deepseek").
    pub fn new(wake_phrase: &str) -> (m: Self)
        requires
            wake_phrase@.len() < usize::MAX,
        ensures
            m.words() == wake_words_of(wake_phrase@),
            m.wf(),
    {
        let cs = chars_of(wake_phrase);
        let split = split_whitespace(cs.as_slice());
        let ghost normed = norm_all(seqs(split@));
        let mut wake_words: Vec<String> = Vec::new();
        let mut i: usize = 0;
        while i < split.len()
            invariant
                i <= split@.len(),
                normed == norm_all(seqs(split@)),
                wake_words@.map_values(|w: String| w@) == non_empty(normed.take(i as int)),
            decreases split.len() - i,
        {
            assert(normed.take(i + 1).drop_last() =~= normed.take(i as int));
            let w = normalize_word(split[i].as_slice());
            if w.len() > 0 {
                let ghost before = wake_words@.map_values(|w: String| w@);
                wake_words.push(string_of(w.as_slice()));
                assert(wake_words@.map_values(|w: String| w@) =~= before.push(w@));
            }
            i = i + 1;
        }
        assert(normed.take(split@.len() as int) =~= normed);
        proof {
            lemma_non_empty_len(normed);
            lemma_non_empty_words(normed);
            lemma_norm_all_len(seqs(split@));
            lemma_split_len(cs@);
        }
        WakeWordMatcher { wake_words }
    }

    /// Check `transcript` for the wake phrase at its start: the match, with
    /// any command spoken after the phrase, or `None` for ordinary speech.
    pub fn match_utterance(&self, transcript: &str) -> (r: Option<WakeMatch>)
        requires
            self.wf(),
            transcript@.len() < usize::MAX,
        ensures
            match r {
                Some(m) => wake_result(self.words(), transcript@) == Some(match_view(m)),
                None => wake_result(self.words(), transcript@) is None,
            },
    {
        if self.wake_words.len() == 0 {
            return None;
        }
        let cs = chars_of(transcript);
        let words = split_whitespace(cs.as_slice());
        let mut wake_parts: Vec<Vec<char>> = Vec::new();
        let mut i: usize = 0;
        while i < self.wake_words.len()
            invariant
                i <= self.wake_words@.len(),
                seqs(wake_parts@) == self.words().take(i as int),
            decreases self.wake_words.len() - i,
        {
            let ghost before = seqs(wake_parts@);
            wake_parts.push(chars_of(self.wake_words[i].as_str()));
            assert(seqs(wake_parts@) =~= before.push(self.words()[i as int]));
            assert(self.words().take(i + 1) =~= self.words().take(i as int).push(self.words()[i as int]));
            i = i + 1;
        }
        assert(self.words().take(self.wake_words@.len() as int) =~= self.words());
        let wake = concat_words(&wake_parts);
        proof {
            lemma_split_len(cs@);
            lemma_count_le_total(self.words());
        }
        let max_words = self.wake_words.len() + EXTRA_WORDS_FOR_SPLIT;
        let (count, distance) = match best_prefix(&words, wake.as_slice(), max_words) {
            Some(b) => b,
            None => {
                return None;
            },
        };
        if distance > MAX_EDIT_DISTANCE {
            return None;
        }
        proof {
            let limit = if max_words <= words@.len() {
                max_words as int
            } else {
                words@.len() as int
            };
            lemma_best_upto_range(seqs(words@), wake@, limit);
        }
        let mut rest: Vec<Vec<char>> = Vec::new();
        let mut k: usize = count;
        while k < words.len()
            invariant
                count <= k <= words@.len(),
                seqs(rest@) == seqs(words@).subrange(count as int, k as int),
            decreases words.len() - k,
        {
            let ghost before = seqs(rest@);
            rest.push(slice_chars(words[k].as_slice(), 0, words[k].len()));
            assert(words@[k as int]@.subrange(0, words@[k as int]@.len() as int) =~= words@[k as int]@);
            assert(seqs(rest@) =~= before.push(seqs(words@)[k as int]));
            k = k + 1;
        }
        let sep = [' '];
        assert(sep@ =~= seq![' ']);
        let remainder = join_chars(&rest, &sep);
        let mut blank = true;
        let mut j: usize = 0;
        while j < remainder.len()
            invariant
                j <= remainder@.len(),
                blank == (forall|t: int| 0 <= t < j ==> is_ws(remainder@[t])),
            decreases remainder.len() - j,
        {
            if !is_whitespace(remainder[j]) {
                blank = false;
            }
            j = j + 1;
        }
        let command = if blank {
            None
        } else {
            Some(string_of(remainder.as_slice()))
        };
        Some(WakeMatch { command })
    }
}

} // verus!
