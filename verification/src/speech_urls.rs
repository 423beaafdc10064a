//! No bare URL is ever spoken. The speech filter drops every word that
//! looks like a URL; collapsing whitespace keeps the surviving words as
//! they are, and the length cap only cuts the tail and marks the cut with
//! `...`. A cut word is a prefix of a surviving word, and a prefix of a
//! word that does not look like a URL, with dots after it, does not look
//! like one either.
use vstd::prelude::*;

use crate::seqs::{first_where, last_where, lemma_first_where, lemma_first_where_unique, lemma_last_where, lemma_last_where_unique};
use crate::speech::{
    capped, is_url_like, is_url_punct, non_url_words, speakable, trim_url_punct, without_bare_urls,
    without_fences, without_inline_code, without_links, without_markup, MAX_SPOKEN_CHARS,
};
use crate::text::{collapse_ws, has_prefix_at, is_ws, join, split_ws, ws_state};

verus! {

/// `w` is a word: not empty, and without whitespace.
pub open spec fn is_word(w: Seq<char>) -> bool {
    w.len() > 0 && forall|i: int| 0 <= i < w.len() ==> !is_ws(#[trigger] w[i])
}

/// Every entry of `ws` is a word.
pub open spec fn all_words(ws: Seq<Seq<char>>) -> bool {
    forall|k: int| 0 <= k < ws.len() ==> is_word(#[trigger] ws[k])
}

/// No character of `w` is whitespace.
pub open spec fn ws_free(w: Seq<char>) -> bool {
    forall|i: int| 0 <= i < w.len() ==> !is_ws(#[trigger] w[i])
}

/// Reading whitespace-free characters only extends the word being read.
proof fn lemma_ws_state_append(s: Seq<char>, w: Seq<char>)
    requires
        ws_free(w),
    ensures
        ws_state(s + w) == (ws_state(s).0, ws_state(s).1 + w),
    decreases w.len(),
{
    if w.len() == 0 {
        assert(s + w =~= s);
        assert(ws_state(s).1 + w =~= ws_state(s).1);
    } else {
        let wd = w.drop_last();
        assert(ws_free(wd)) by {
            assert forall|i: int| 0 <= i < wd.len() implies !is_ws(#[trigger] wd[i]) by {
                assert(wd[i] == w[i]);
            }
        }
        lemma_ws_state_append(s, wd);
        assert((s + w).drop_last() =~= s + wd);
        assert((s + w).last() == w.last());
        assert(!is_ws(w[w.len() - 1]));
        assert((ws_state(s).1 + wd).push(w.last()) =~= ws_state(s).1 + w);
    }
}

/// Reading a space closes the word being read, if any.
proof fn lemma_ws_state_space(s: Seq<char>)
    ensures
        ws_state(s.push(' ')) == (
            if ws_state(s).1.len() > 0 { ws_state(s).0.push(ws_state(s).1) } else { ws_state(s).0 },
            Seq::<char>::empty(),
        ),
{
    assert(s.push(' ').drop_last() =~= s);
    assert(is_ws(' ')) by {
        assert((' ' as u32) == 0x20);
    }
}

/// Reading words joined by single spaces: every word but the last is
/// complete, and the last is being read.
proof fn lemma_ws_state_join(ws: Seq<Seq<char>>)
    requires
        ws.len() > 0,
        all_words(ws),
    ensures
        ws_state(join(ws, seq![' '])) == (ws.drop_last(), ws.last()),
    decreases ws.len(),
{
    let w = ws.last();
    assert(is_word(ws[ws.len() - 1]));
    if ws.len() == 1 {
        lemma_ws_state_append(Seq::<char>::empty(), ws[0]);
        assert(Seq::<char>::empty() + ws[0] =~= ws[0]);
        assert(ws.drop_last() =~= Seq::<Seq<char>>::empty());
        assert(ws_state(Seq::<char>::empty()) == (Seq::<Seq<char>>::empty(), Seq::<char>::empty()));
    } else {
        let dl = ws.drop_last();
        assert(all_words(dl)) by {
            assert forall|k: int| 0 <= k < dl.len() implies is_word(#[trigger] dl[k]) by {
                assert(dl[k] == ws[k]);
            }
        }
        lemma_ws_state_join(dl);
        let j = join(dl, seq![' ']);
        assert(is_word(dl[dl.len() - 1]));
        lemma_ws_state_space(j);
        assert(dl.drop_last().push(dl.last()) =~= dl);
        assert(j + seq![' '] =~= j.push(' '));
        lemma_ws_state_append(j.push(' '), w);
        assert(j.push(' ') + w =~= j + seq![' '] + w);
        assert(Seq::<char>::empty() + w =~= w);
    }
}

/// Splitting words joined by single spaces gives the words back.
proof fn lemma_split_join(ws: Seq<Seq<char>>)
    requires
        all_words(ws),
    ensures
        split_ws(join(ws, seq![' '])) == ws,
{
    if ws.len() == 0 {
        assert(ws_state(Seq::<char>::empty()) == (Seq::<Seq<char>>::empty(), Seq::<char>::empty()));
        assert(split_ws(join(ws, seq![' '])) =~= ws);
    } else {
        lemma_ws_state_join(ws);
        assert(is_word(ws[ws.len() - 1]));
        assert(ws.drop_last().push(ws.last()) =~= ws);
    }
}

/// Reading any text leaves only words complete and a whitespace-free word
/// being read.
proof fn lemma_ws_state_words(s: Seq<char>)
    ensures
        all_words(ws_state(s).0),
        ws_free(ws_state(s).1),
    decreases s.len(),
{
    if s.len() > 0 {
        lemma_ws_state_words(s.drop_last());
        let prev = ws_state(s.drop_last());
        let c = s.last();
        if is_ws(c) {
            if prev.1.len() > 0 {
                assert forall|k: int| 0 <= k < prev.0.push(prev.1).len() implies is_word(#[trigger] prev.0.push(prev.1)[k]) by {
                    if k < prev.0.len() {
                        assert(prev.0.push(prev.1)[k] == prev.0[k]);
                    }
                }
            }
        } else {
            assert forall|i: int| 0 <= i < prev.1.push(c).len() implies !is_ws(#[trigger] prev.1.push(c)[i]) by {
                if i < prev.1.len() {
                    assert(prev.1.push(c)[i] == prev.1[i]);
                }
            }
        }
    }
}

/// `split_ws` yields words.
pub(crate) proof fn lemma_split_words(s: Seq<char>)
    ensures
        all_words(split_ws(s)),
{
    lemma_ws_state_words(s);
    let st = ws_state(s);
    if st.1.len() > 0 {
        assert forall|k: int| 0 <= k < st.0.push(st.1).len() implies is_word(#[trigger] st.0.push(st.1)[k]) by {
            if k < st.0.len() {
                assert(st.0.push(st.1)[k] == st.0[k]);
            }
        }
    }
}

/// Every word in `ws` that does not look like a URL.
pub open spec fn no_url_word(ws: Seq<Seq<char>>) -> bool {
    forall|k: int| 0 <= k < ws.len() ==> !is_url_like(#[trigger] ws[k])
}

/// Dropping the URL-like words keeps words, and only those that do not
/// look like URLs.
proof fn lemma_non_url_words(ws: Seq<Seq<char>>)
    requires
        all_words(ws),
    ensures
        all_words(non_url_words(ws)),
        no_url_word(non_url_words(ws)),
    decreases ws.len(),
{
    if ws.len() > 0 {
        let dl = ws.drop_last();
        assert(all_words(dl)) by {
            assert forall|k: int| 0 <= k < dl.len() implies is_word(#[trigger] dl[k]) by {
                assert(dl[k] == ws[k]);
            }
        }
        lemma_non_url_words(dl);
        let prev = non_url_words(dl);
        if !is_url_like(ws.last()) {
            assert(is_word(ws[ws.len() - 1]));
            assert forall|k: int| 0 <= k < prev.push(ws.last()).len() implies is_word(#[trigger] prev.push(ws.last())[k]) && !is_url_like(prev.push(ws.last())[k]) by {
                if k < prev.len() {
                    assert(prev.push(ws.last())[k] == prev[k]);
                }
            }
        }
    }
}

/// Reading a prefix of words joined by single spaces: the words before
/// some `j` are complete, and a prefix of word `j` is being read.
proof fn lemma_ws_state_join_prefix(ws: Seq<Seq<char>>, n: int) -> (jm: (int, int))
    requires
        ws.len() > 0,
        all_words(ws),
        0 <= n <= join(ws, seq![' ']).len(),
    ensures
        0 <= jm.0 < ws.len(),
        0 <= jm.1 <= ws[jm.0].len(),
        ws_state(join(ws, seq![' ']).take(n)) == (ws.take(jm.0), ws[jm.0].take(jm.1)),
    decreases ws.len(),
{
    let w = ws.last();
    assert(is_word(ws[ws.len() - 1]));
    if ws.len() == 1 {
        let t = ws[0].take(n);
        assert(ws_free(t)) by {
            assert forall|i: int| 0 <= i < t.len() implies !is_ws(#[trigger] t[i]) by {
                assert(t[i] == ws[0][i]);
            }
        }
        lemma_ws_state_append(Seq::<char>::empty(), t);
        assert(Seq::<char>::empty() + t =~= t);
        assert(ws_state(Seq::<char>::empty()) == (Seq::<Seq<char>>::empty(), Seq::<char>::empty()));
        assert(ws.take(0) =~= Seq::<Seq<char>>::empty());
        (0, n)
    } else {
        let dl = ws.drop_last();
        assert(all_words(dl)) by {
            assert forall|k: int| 0 <= k < dl.len() implies is_word(#[trigger] dl[k]) by {
                assert(dl[k] == ws[k]);
            }
        }
        let j = join(dl, seq![' ']);
        let full = join(ws, seq![' ']);
        assert(full == j + seq![' '] + w);
        if n <= j.len() {
            let r = lemma_ws_state_join_prefix(dl, n);
            assert(full.take(n) =~= j.take(n));
            assert(dl.take(r.0) =~= ws.take(r.0));
            assert(dl[r.0] == ws[r.0]);
            r
        } else {
            let m = n - j.len() - 1;
            let t = w.take(m);
            assert(ws_free(t)) by {
                assert forall|i: int| 0 <= i < t.len() implies !is_ws(#[trigger] t[i]) by {
                    assert(t[i] == w[i]);
                }
            }
            lemma_ws_state_join(dl);
            assert(is_word(dl[dl.len() - 1]));
            lemma_ws_state_space(j);
            assert(dl.drop_last().push(dl.last()) =~= dl);
            lemma_ws_state_append(j.push(' '), t);
            assert(full.take(n) =~= j.push(' ') + t);
            assert(Seq::<char>::empty() + t =~= t);
            assert(ws.take(ws.len() - 1) =~= dl);
            (ws.len() - 1, m)
        }
    }
}

/// Dots after a read prefix extend the word being read, which then ends
/// the text.
proof fn lemma_split_with_dots(p: Seq<char>)
    ensures
        split_ws(p + "..."@) == ws_state(p).0.push(ws_state(p).1 + "..."@),
{
    reveal_strlit("...");
    let d = "..."@;
    assert(ws_free(d)) by {
        assert forall|i: int| 0 <= i < d.len() implies !is_ws(#[trigger] d[i]) by {
            assert(d[i] == '.');
        }
    }
    lemma_ws_state_append(p, d);
}

/// A prefix of a text begins with what the text's own prefix begins with.
proof fn lemma_prefix_of_prefix(short: Seq<char>, long: Seq<char>, pre: Seq<char>)
    requires
        short.len() <= long.len(),
        short == long.take(short.len() as int),
        has_prefix_at(short, 0, pre),
    ensures
        has_prefix_at(long, 0, pre),
{
    assert(long.subrange(0, pre.len() as int) =~= short.subrange(0, pre.len() as int));
}

/// A prefix of a word that does not look like a URL still does not once
/// dots are put after it: the wrapping punctuation trimmed from it leaves
/// a prefix of what is left of the word.
proof fn lemma_cut_word_is_no_url(w: Seq<char>, m: int)
    requires
        !is_url_like(w),
        0 <= m <= w.len(),
    ensures
        !is_url_like(w.take(m) + "..."@),
{
    reveal_strlit("...");
    reveal_strlit("http://");
    reveal_strlit("https://");
    reveal_strlit("www.");
    let q = |c: char| !is_url_punct(c);
    let cur = w.take(m);
    let x = cur + "..."@;
    assert(forall|i: int| cur.len() <= i < x.len() ==> x[i] == '.');
    lemma_first_where(cur, q);
    let a = first_where(cur, q);
    if a < 0 {
        lemma_first_where_unique(x, q, -1);
        assert(trim_url_punct(x) =~= Seq::<char>::empty());
    } else {
        lemma_last_where(cur, q);
        let b = last_where(cur, q);
        assert(a <= b);
        lemma_first_where_unique(x, q, a);
        lemma_last_where_unique(x, q, b);
        assert forall|j: int| 0 <= j < a implies !q(#[trigger] w[j]) by {
            assert(w[j] == cur[j]);
        }
        lemma_first_where_unique(w, q, a);
        lemma_last_where(w, q);
        let bb = last_where(w, q);
        assert(q(w[b]));
        assert(b <= bb);
        let tx = trim_url_punct(x);
        let tw = trim_url_punct(w);
        assert(tx =~= x.subrange(a, b + 1));
        assert(tw =~= w.subrange(a, bb + 1));
        assert(tx =~= tw.take(tx.len() as int));
        if has_prefix_at(tx, 0, "http://"@) {
            lemma_prefix_of_prefix(tx, tw, "http://"@);
        }
        if has_prefix_at(tx, 0, "https://"@) {
            lemma_prefix_of_prefix(tx, tw, "https://"@);
        }
        if has_prefix_at(tx, 0, "www."@) {
            lemma_prefix_of_prefix(tx, tw, "www."@);
        }
    }
}

/// No bare URL is ever spoken: no word of a spoken reply looks like a
/// URL, not even once the length cap has cut the reply short.
pub proof fn lemma_spoken_text_has_no_bare_urls(text: Seq<char>)
    ensures
        no_url_word(split_ws(speakable(text))),
{
    reveal_strlit("...");
    let m = without_markup(without_links(without_inline_code(without_fences(text))));
    lemma_split_words(m);
    lemma_non_url_words(split_ws(m));
    let ws = non_url_words(split_ws(m));
    let u = join(ws, seq![' ']);
    assert(u == without_bare_urls(m));
    lemma_split_join(ws);
    assert(collapse_ws(u) == u);
    let max = MAX_SPOKEN_CHARS as nat;
    assert(speakable(text) == capped(u, max));
    if u.len() > max {
        assert(ws.len() > 0);
        let sp = |c: char| c == ' ';
        let t = u.take(max as int);
        let k = last_where(t, sp);
        lemma_last_where(t, sp);
        let n = if k > 0 { k } else { max as int };
        if k > 0 {
            assert(t.take(k) =~= u.take(k));
        }
        assert(capped(u, max) == u.take(n) + "..."@);
        let jm = lemma_ws_state_join_prefix(ws, n);
        lemma_split_with_dots(u.take(n));
        lemma_cut_word_is_no_url(ws[jm.0], jm.1);
        let out = ws.take(jm.0).push(ws[jm.0].take(jm.1) + "..."@);
        assert(split_ws(speakable(text)) == out);
        assert forall|i: int| 0 <= i < out.len() implies !is_url_like(#[trigger] out[i]) by {
            if i < jm.0 {
                assert(out[i] == ws[i]);
            }
        }
    }
}

} // verus!
