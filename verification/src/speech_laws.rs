//! What the speech filter guarantees of everything it speaks. Each pass
//! only drops characters, keeps them, or adds separators and an ellipsis,
//! so a character kind that one pass removes stays removed through the
//! rest: no backtick (of a fence or an inline code span) and no markup
//! character is ever spoken. What is spoken is one line, spaced singly.
//! And plain prose passes through every pass unchanged.
use vstd::prelude::*;

use crate::seqs::{last_where, lemma_last_where};
use crate::speech::{
    capped, fence_scan, is_fence, is_markup_char, is_rule, is_url_like, line_markup_stripped,
    lead_digits, non_url_words, speakable, stripped_lines, without_bare_urls, without_bullet,
    without_fences, without_inline_code, without_links, without_markup, without_number,
    MAX_SPOKEN_CHARS,
};
use crate::text::{
    has_prefix_at, is_digit, is_ws, collapse_ws, index_of, join, keep_where, lead_char, lead_ws, lemma_index_of, lines, lines_state, split_ws, strip_cr,
    trim_start, trim_start_char, ws_state,
};

verus! {

/// No character of `s` satisfies `p`.
pub open spec fn none_of(s: Seq<char>, p: spec_fn(char) -> bool) -> bool {
    forall|i: int| 0 <= i < s.len() ==> !p(#[trigger] s[i])
}

/// No sequence of `ss` holds a character satisfying `p`.
pub open spec fn all_none_of(ss: Seq<Seq<char>>, p: spec_fn(char) -> bool) -> bool {
    forall|k: int| 0 <= k < ss.len() ==> none_of(#[trigger] ss[k], p)
}

pub(crate) proof fn lemma_none_of_subrange(s: Seq<char>, p: spec_fn(char) -> bool, i: int, j: int)
    requires
        none_of(s, p),
        0 <= i <= j <= s.len(),
    ensures
        none_of(s.subrange(i, j), p),
{
    assert forall|k: int| 0 <= k < j - i implies !p(#[trigger] s.subrange(i, j)[k]) by {
        assert(s.subrange(i, j)[k] == s[i + k]);
    }
}

pub(crate) proof fn lemma_none_of_concat(a: Seq<char>, b: Seq<char>, p: spec_fn(char) -> bool)
    requires
        none_of(a, p),
        none_of(b, p),
    ensures
        none_of(a + b, p),
{
    assert forall|k: int| 0 <= k < (a + b).len() implies !p(#[trigger] (a + b)[k]) by {
        if k < a.len() {
            assert((a + b)[k] == a[k]);
        } else {
            assert((a + b)[k] == b[k - a.len()]);
        }
    }
}

pub(crate) proof fn lemma_none_of_join(parts: Seq<Seq<char>>, sep: Seq<char>, p: spec_fn(char) -> bool)
    requires
        all_none_of(parts, p),
        none_of(sep, p),
    ensures
        none_of(join(parts, sep), p),
    decreases parts.len(),
{
    if parts.len() == 1 {
        assert(none_of(parts[0], p));
    } else if parts.len() > 1 {
        let init = parts.drop_last();
        assert forall|k: int| 0 <= k < init.len() implies none_of(#[trigger] init[k], p) by {
            assert(init[k] == parts[k]);
        }
        lemma_none_of_join(init, sep, p);
        assert(none_of(parts.last(), p));
        lemma_none_of_concat(join(init, sep), sep, p);
        lemma_none_of_concat(join(init, sep) + sep, parts.last(), p);
    }
}

proof fn lemma_none_of_keep_where(s: Seq<char>, keep: spec_fn(char) -> bool, p: spec_fn(char) -> bool)
    requires
        none_of(s, p) || (forall|c: char| #[trigger] keep(c) ==> !p(c)),
    ensures
        none_of(keep_where(s, keep), p),
    decreases s.len(),
{
    if s.len() > 0 {
        if none_of(s, p) {
            lemma_none_of_subrange(s, p, 0, s.len() - 1);
            assert(s.drop_last() =~= s.subrange(0, s.len() - 1));
        }
        lemma_none_of_keep_where(s.drop_last(), keep, p);
        if keep(s.last()) {
            assert(!p(s.last())) by {
                if none_of(s, p) {
                    assert(s.last() == s[s.len() - 1]);
                }
            }
            lemma_none_of_concat(keep_where(s.drop_last(), keep), seq![s.last()], p);
        }
    }
}

proof fn lemma_none_of_lines_state(s: Seq<char>, p: spec_fn(char) -> bool)
    requires
        none_of(s, p),
    ensures
        all_none_of(lines_state(s).0, p),
        none_of(lines_state(s).1, p),
    decreases s.len(),
{
    if s.len() > 0 {
        lemma_none_of_subrange(s, p, 0, s.len() - 1);
        assert(s.drop_last() =~= s.subrange(0, s.len() - 1));
        lemma_none_of_lines_state(s.drop_last(), p);
        let prev = lines_state(s.drop_last());
        let c = s.last();
        assert(!p(c)) by {
            assert(c == s[s.len() - 1]);
        }
        if c == '\n' {
            let l = strip_cr(prev.1);
            if prev.1.len() > 0 && prev.1.last() == '\r' {
                lemma_none_of_subrange(prev.1, p, 0, prev.1.len() - 1);
                assert(prev.1.drop_last() =~= prev.1.subrange(0, prev.1.len() - 1));
            }
            assert forall|k: int| 0 <= k < prev.0.push(l).len() implies none_of(#[trigger] prev.0.push(l)[k], p) by {
                if k < prev.0.len() {
                    assert(prev.0.push(l)[k] == prev.0[k]);
                }
            }
        } else {
            lemma_none_of_concat(prev.1, seq![c], p);
        }
    }
}

proof fn lemma_none_of_lines(s: Seq<char>, p: spec_fn(char) -> bool)
    requires
        none_of(s, p),
    ensures
        all_none_of(lines(s), p),
{
    lemma_none_of_lines_state(s, p);
    let st = lines_state(s);
    if st.1.len() > 0 {
        assert forall|k: int| 0 <= k < st.0.push(st.1).len() implies none_of(#[trigger] st.0.push(st.1)[k], p) by {
            if k < st.0.len() {
                assert(st.0.push(st.1)[k] == st.0[k]);
            }
        }
    }
}

proof fn lemma_none_of_ws_state(s: Seq<char>, p: spec_fn(char) -> bool)
    requires
        none_of(s, p),
    ensures
        all_none_of(ws_state(s).0, p),
        none_of(ws_state(s).1, p),
    decreases s.len(),
{
    if s.len() > 0 {
        lemma_none_of_subrange(s, p, 0, s.len() - 1);
        assert(s.drop_last() =~= s.subrange(0, s.len() - 1));
        lemma_none_of_ws_state(s.drop_last(), p);
        let prev = ws_state(s.drop_last());
        let c = s.last();
        assert(!p(c)) by {
            assert(c == s[s.len() - 1]);
        }
        assert forall|k: int| 0 <= k < prev.0.push(prev.1).len() implies none_of(#[trigger] prev.0.push(prev.1)[k], p) by {
            if k < prev.0.len() {
                assert(prev.0.push(prev.1)[k] == prev.0[k]);
            }
        }
        lemma_none_of_concat(prev.1, seq![c], p);
    }
}

proof fn lemma_none_of_split_ws(s: Seq<char>, p: spec_fn(char) -> bool)
    requires
        none_of(s, p),
    ensures
        all_none_of(split_ws(s), p),
{
    lemma_none_of_ws_state(s, p);
    let st = ws_state(s);
    assert forall|k: int| 0 <= k < st.0.push(st.1).len() implies none_of(#[trigger] st.0.push(st.1)[k], p) by {
        if k < st.0.len() {
            assert(st.0.push(st.1)[k] == st.0[k]);
        }
    }
}

proof fn lemma_none_of_collapse(s: Seq<char>, p: spec_fn(char) -> bool)
    requires
        none_of(s, p),
        !p(' '),
    ensures
        none_of(collapse_ws(s), p),
{
    lemma_none_of_split_ws(s, p);
    lemma_none_of_join(split_ws(s), seq![' '], p);
}

proof fn lemma_none_of_non_url_words(ws: Seq<Seq<char>>, p: spec_fn(char) -> bool)
    requires
        all_none_of(ws, p),
    ensures
        all_none_of(non_url_words(ws), p),
    decreases ws.len(),
{
    if ws.len() > 0 {
        let init = ws.drop_last();
        assert forall|k: int| 0 <= k < init.len() implies none_of(#[trigger] init[k], p) by {
            assert(init[k] == ws[k]);
        }
        lemma_none_of_non_url_words(init, p);
        let r = non_url_words(init);
        assert(none_of(ws.last(), p));
        assert forall|k: int| 0 <= k < r.push(ws.last()).len() implies none_of(#[trigger] r.push(ws.last())[k], p) by {
            if k < r.len() {
                assert(r.push(ws.last())[k] == r[k]);
            }
        }
    }
}

proof fn lemma_none_of_capped(s: Seq<char>, max: nat, p: spec_fn(char) -> bool)
    requires
        none_of(s, p),
        !p('.'),
    ensures
        none_of(capped(s, max), p),
{
    reveal_strlit("...");
    if s.len() > max {
        let t = s.take(max as int);
        lemma_none_of_subrange(s, p, 0, max as int);
        assert(t =~= s.subrange(0, max as int));
        let k = last_where(t, |c: char| c == ' ');
        lemma_last_where(t, |c: char| c == ' ');
        assert(none_of("..."@, p));
        if k > 0 {
            lemma_none_of_subrange(t, p, 0, k);
            assert(t.take(k) =~= t.subrange(0, k));
            lemma_none_of_concat(t.take(k), "..."@, p);
        } else {
            lemma_none_of_concat(t, "..."@, p);
        }
    }
}

/// A stripped line keeps no character of a kind the line lacked, and
/// never a markup character.
proof fn lemma_none_of_line_stripped(line: Seq<char>, p: spec_fn(char) -> bool)
    requires
        none_of(line, p) || (forall|c: char| !is_markup_char(c) ==> !#[trigger] p(c)),
    ensures
        line_markup_stripped(line) matches Some(x) ==> none_of(x, p),
{
    let t = trim_start(line);
    if line_markup_stripped(line) is Some {
        let h = trim_start(trim_start_char(t, '#'));
        let q = trim_start(trim_start_char(h, '>'));
        if none_of(line, p) {
            crate::text::lemma_lead_ws(line);
            lemma_none_of_subrange(line, p, crate::text::lead_ws(line) as int, line.len() as int);
            crate::text::lemma_lead_char(t, '#');
            lemma_none_of_subrange(t, p, crate::text::lead_char(t, '#') as int, t.len() as int);
            let t2 = trim_start_char(t, '#');
            crate::text::lemma_lead_ws(t2);
            lemma_none_of_subrange(t2, p, crate::text::lead_ws(t2) as int, t2.len() as int);
            crate::text::lemma_lead_char(h, '>');
            lemma_none_of_subrange(h, p, crate::text::lead_char(h, '>') as int, h.len() as int);
            let h2 = trim_start_char(h, '>');
            crate::text::lemma_lead_ws(h2);
            lemma_none_of_subrange(h2, p, crate::text::lead_ws(h2) as int, h2.len() as int);
            lemma_none_of_bullet(q, p);
        }
        lemma_none_of_keep_where(without_bullet(q), |c: char| !is_markup_char(c), p);
    }
}

proof fn lemma_none_of_bullet(q: Seq<char>, p: spec_fn(char) -> bool)
    requires
        none_of(q, p),
    ensures
        none_of(without_bullet(q), p),
{
    if crate::text::has_prefix_at(q, 0, seq!['-', ' ']) || crate::text::has_prefix_at(q, 0, seq!['*', ' '])
        || crate::text::has_prefix_at(q, 0, seq!['+', ' ']) {
        lemma_none_of_subrange(q, p, 2, q.len() as int);
    } else {
        let d = crate::speech::lead_digits(q) as int;
        crate::speech::lemma_lead_digits(q);
        if !(d == 0 || d == q.len()) {
            let after = q.subrange(d, q.len() as int);
            lemma_none_of_subrange(q, p, d, q.len() as int);
            if after.len() >= 2 {
                lemma_none_of_subrange(after, p, 2, after.len() as int);
            }
        }
    }
}

proof fn lemma_none_of_stripped_lines(ls: Seq<Seq<char>>, p: spec_fn(char) -> bool)
    requires
        all_none_of(ls, p) || (forall|c: char| !is_markup_char(c) ==> !#[trigger] p(c)),
    ensures
        all_none_of(stripped_lines(ls), p),
    decreases ls.len(),
{
    if ls.len() > 0 {
        let init = ls.drop_last();
        if all_none_of(ls, p) {
            assert forall|k: int| 0 <= k < init.len() implies none_of(#[trigger] init[k], p) by {
                assert(init[k] == ls[k]);
            }
            assert(none_of(ls[ls.len() - 1], p));
        }
        lemma_none_of_stripped_lines(init, p);
        lemma_none_of_line_stripped(ls.last(), p);
        let r = stripped_lines(init);
        match line_markup_stripped(ls.last()) {
            Some(x) => {
                assert forall|k: int| 0 <= k < r.push(x).len() implies none_of(#[trigger] r.push(x)[k], p) by {
                    if k < r.len() {
                        assert(r.push(x)[k] == r[k]);
                    }
                }
            },
            None => {},
        }
    }
}

proof fn lemma_none_of_markup(s: Seq<char>, p: spec_fn(char) -> bool)
    requires
        none_of(s, p) || (forall|c: char| !is_markup_char(c) ==> !#[trigger] p(c)),
        !p(' '),
    ensures
        none_of(without_markup(s), p),
{
    if none_of(s, p) {
        lemma_none_of_lines(s, p);
    }
    lemma_none_of_stripped_lines(lines(s), p);
    lemma_none_of_join(stripped_lines(lines(s)), seq![' '], p);
}

proof fn lemma_none_of_fence_scan(ls: Seq<Seq<char>>, p: spec_fn(char) -> bool)
    requires
        all_none_of(ls, p),
    ensures
        all_none_of(fence_scan(ls).0, p),
    decreases ls.len(),
{
    if ls.len() > 0 {
        let init = ls.drop_last();
        assert forall|k: int| 0 <= k < init.len() implies none_of(#[trigger] init[k], p) by {
            assert(init[k] == ls[k]);
        }
        lemma_none_of_fence_scan(init, p);
        let prev = fence_scan(init);
        assert(none_of(ls[ls.len() - 1], p));
        assert forall|k: int| 0 <= k < prev.0.push(ls.last()).len() implies none_of(#[trigger] prev.0.push(ls.last())[k], p) by {
            if k < prev.0.len() {
                assert(prev.0.push(ls.last())[k] == prev.0[k]);
            }
        }
    }
}

/// The inline-code pass leaves no backtick at all.
proof fn lemma_inline_code_drops_backticks(s: Seq<char>)
    ensures
        none_of(without_inline_code(s), |c: char| c == '`'),
    decreases s.len(),
{
    let p = |c: char| c == '`';
    let k = index_of(s, '`');
    lemma_index_of(s, '`');
    if k < 0 {
    } else {
        let after = s.subrange(k + 1, s.len() as int);
        let e = index_of(after, '`');
        lemma_index_of(after, '`');
        assert(none_of(s.take(k), p)) by {
            assert forall|j: int| 0 <= j < k implies !p(#[trigger] s.take(k)[j]) by {
                assert(s.take(k)[j] == s[j]);
            }
        }
        if e < 0 {
            lemma_none_of_concat(s.take(k), after, p);
        } else {
            let rest = after.subrange(e + 1, after.len() as int);
            lemma_inline_code_drops_backticks(rest);
            lemma_none_of_concat(s.take(k), without_inline_code(rest), p);
        }
    }
}

/// The link pass adds no character but brackets the input had.
proof fn lemma_none_of_links(s: Seq<char>, p: spec_fn(char) -> bool)
    requires
        none_of(s, p),
        !p('['),
        !p(']'),
    ensures
        none_of(without_links(s), p),
    decreases s.len(),
{
    reveal(without_links);
    let k = index_of(s, '[');
    lemma_index_of(s, '[');
    if k >= 0 {
        let rest = s.subrange(k + 1, s.len() as int);
        lemma_none_of_subrange(s, p, k + 1, s.len() as int);
        lemma_none_of_subrange(s, p, 0, k);
        assert(s.take(k) =~= s.subrange(0, k));
        let le = index_of(rest, ']');
        lemma_index_of(rest, ']');
        if le < 0 {
            lemma_none_of_concat(s.take(k), seq!['['], p);
            lemma_none_of_concat(s.take(k) + seq!['['], rest, p);
        } else {
            let label = rest.take(le);
            lemma_none_of_subrange(rest, p, 0, le);
            assert(label =~= rest.subrange(0, le));
            let after = rest.subrange(le + 1, rest.len() as int);
            lemma_none_of_subrange(rest, p, le + 1, rest.len() as int);
            if after.len() > 0 && after[0] == '(' && index_of(after.drop_first(), ')') >= 0 {
                lemma_index_of(after.drop_first(), ')');
                let u = index_of(after.drop_first(), ')');
                let tail = after.drop_first().subrange(u + 1, after.len() - 1);
                lemma_none_of_subrange(after, p, 1, after.len() as int);
                assert(after.drop_first() =~= after.subrange(1, after.len() as int));
                lemma_none_of_subrange(after.drop_first(), p, u + 1, after.len() - 1);
                lemma_none_of_links(tail, p);
                lemma_none_of_concat(s.take(k), label, p);
                lemma_none_of_concat(s.take(k) + label, without_links(tail), p);
            } else {
                lemma_none_of_links(after, p);
                lemma_none_of_concat(s.take(k), seq!['['], p);
                lemma_none_of_concat(s.take(k) + seq!['['], label, p);
                lemma_none_of_concat(s.take(k) + seq!['['] + label, seq![']'], p);
                lemma_none_of_concat(s.take(k) + seq!['['] + label + seq![']'], without_links(after), p);
            }
        }
    }
}

/// From the markup pass on, a kind of character that is not a space or a
/// dot and that the markup pass's input lacked is never spoken.
proof fn lemma_none_of_tail_passes(d: Seq<char>, p: spec_fn(char) -> bool)
    requires
        none_of(d, p) || (forall|c: char| !is_markup_char(c) ==> !#[trigger] p(c)),
        !p(' '),
        !p('.'),
    ensures
        none_of(
            capped(collapse_ws(crate::speech::without_bare_urls(without_markup(d))), MAX_SPOKEN_CHARS as nat),
            p,
        ),
{
    lemma_none_of_markup(d, p);
    let m = without_markup(d);
    lemma_none_of_split_ws(m, p);
    lemma_none_of_non_url_words(split_ws(m), p);
    lemma_none_of_join(non_url_words(split_ws(m)), seq![' '], p);
    let u = crate::speech::without_bare_urls(m);
    lemma_none_of_collapse(u, p);
    lemma_none_of_capped(collapse_ws(u), MAX_SPOKEN_CHARS as nat, p);
}

/// No backtick is ever spoken: not one of a code fence, not one of an
/// inline code span, not a stray one.
pub proof fn lemma_spoken_text_has_no_backticks(text: Seq<char>)
    ensures
        forall|i: int| 0 <= i < speakable(text).len() ==> speakable(text)[i] != '`',
{
    let p = |c: char| c == '`';
    let a = without_fences(text);
    let b = without_inline_code(a);
    lemma_inline_code_drops_backticks(a);
    lemma_none_of_links(b, p);
    lemma_none_of_tail_passes(without_links(b), p);
    assert forall|i: int| 0 <= i < speakable(text).len() implies speakable(text)[i] != '`' by {
        assert(!p(speakable(text)[i]));
    }
}

/// No markup character (`*`, `_`, `~`, `#`, `|`) is ever spoken.
pub proof fn lemma_spoken_text_has_no_markup(text: Seq<char>)
    ensures
        forall|i: int| 0 <= i < speakable(text).len() ==> !is_markup_char(#[trigger] speakable(text)[i]),
{
    let p = |c: char| is_markup_char(c);
    let d = without_links(without_inline_code(without_fences(text)));
    assert(forall|c: char| !is_markup_char(c) ==> !#[trigger] p(c));
    lemma_none_of_tail_passes(d, p);
    assert forall|i: int| 0 <= i < speakable(text).len() implies !is_markup_char(#[trigger] speakable(text)[i]) by {
        assert(!p(speakable(text)[i]));
    }
}


/// A word: not empty, and without whitespace.
pub open spec fn is_word(w: Seq<char>) -> bool {
    &&& w.len() > 0
    &&& forall|i: int| 0 <= i < w.len() ==> !is_ws(#[trigger] w[i])
}

/// Text on one line, spaced singly: its only whitespace is single spaces
/// between other characters, and neither end is a space.
pub open spec fn single_spaced_line(s: Seq<char>) -> bool {
    &&& forall|i: int| 0 <= i < s.len() && is_ws(#[trigger] s[i]) ==> s[i] == ' '
    &&& s.len() > 0 ==> s[0] != ' ' && s.last() != ' '
    &&& forall|i: int| 0 <= i < s.len() - 1 && #[trigger] s[i] == ' ' ==> s[i + 1] != ' '
}

proof fn lemma_ws_state_words(s: Seq<char>)
    ensures
        forall|k: int| 0 <= k < ws_state(s).0.len() ==> is_word(#[trigger] ws_state(s).0[k]),
        forall|i: int| 0 <= i < ws_state(s).1.len() ==> !is_ws(#[trigger] ws_state(s).1[i]),
    decreases s.len(),
{
    if s.len() > 0 {
        lemma_ws_state_words(s.drop_last());
        let prev = ws_state(s.drop_last());
        if !is_ws(s.last()) {
            assert forall|i: int| 0 <= i < ws_state(s).1.len() implies !is_ws(#[trigger] ws_state(s).1[i]) by {
                if i < prev.1.len() {
                    assert(ws_state(s).1[i] == prev.1[i]);
                }
            }
        } else if prev.1.len() > 0 {
            assert forall|k: int| 0 <= k < ws_state(s).0.len() implies is_word(#[trigger] ws_state(s).0[k]) by {
                if k < prev.0.len() {
                    assert(ws_state(s).0[k] == prev.0[k]);
                }
            }
        }
    }
}

proof fn lemma_split_ws_words(s: Seq<char>)
    ensures
        forall|k: int| 0 <= k < split_ws(s).len() ==> is_word(#[trigger] split_ws(s)[k]),
{
    lemma_ws_state_words(s);
    let st = ws_state(s);
    if st.1.len() > 0 {
        assert forall|k: int| 0 <= k < split_ws(s).len() implies is_word(#[trigger] split_ws(s)[k]) by {
            if k < st.0.len() {
                assert(split_ws(s)[k] == st.0[k]);
            }
        }
    }
}

proof fn lemma_join_words(parts: Seq<Seq<char>>)
    requires
        forall|k: int| 0 <= k < parts.len() ==> is_word(#[trigger] parts[k]),
    ensures
        single_spaced_line(join(parts, seq![' '])),
        parts.len() > 0 ==> join(parts, seq![' ']).len() > 0,
    decreases parts.len(),
{
    if parts.len() == 1 {
        assert(is_word(parts[0]));
    } else if parts.len() > 1 {
        let init = parts.drop_last();
        assert forall|k: int| 0 <= k < init.len() implies is_word(#[trigger] init[k]) by {
            assert(init[k] == parts[k]);
        }
        lemma_join_words(init);
        let a = join(init, seq![' ']);
        let w = parts.last();
        assert(is_word(w));
        let r = join(parts, seq![' ']);
        assert(r == a + seq![' '] + w);
        assert forall|i: int| 0 <= i < r.len() && is_ws(#[trigger] r[i]) implies r[i] == ' ' by {
            if i < a.len() {
                assert(r[i] == a[i]);
            } else if i > a.len() {
                assert(r[i] == w[i - a.len() - 1]);
            }
        }
        assert(r[0] == a[0]);
        assert(r.last() == w.last());
        assert(!is_ws(w[w.len() - 1]));
        assert forall|i: int| 0 <= i < r.len() - 1 && #[trigger] r[i] == ' ' implies r[i + 1] != ' ' by {
            if i < a.len() - 1 {
                assert(r[i] == a[i] && r[i + 1] == a[i + 1]);
            } else if i == a.len() - 1 {
                assert(r[i] == a.last());
            } else if i == a.len() {
                assert(r[i + 1] == w[0]);
                assert(!is_ws(w[0]));
            } else {
                assert(r[i] == w[i - a.len() - 1]);
                assert(!is_ws(w[i - a.len() - 1]));
            }
        }
    }
}

proof fn lemma_capped_line(text: Seq<char>, max: nat)
    requires
        single_spaced_line(text),
        max > 0,
    ensures
        single_spaced_line(capped(text, max)),
{
    reveal_strlit("...");
    if text.len() > max {
        let t = text.take(max as int);
        let p = |c: char| c == ' ';
        lemma_last_where(t, p);
        let k = last_where(t, p);
        let e = "..."@;
        assert(e == seq!['.', '.', '.']);
        let body = if k > 0 { t.take(k) } else { t };
        assert(body.len() > 0);
        assert(body[0] == text[0]);
        assert(body.last() != ' ') by {
            if k > 0 {
                assert(t[k] == ' ');
                assert(body.last() == text[k - 1]);
                assert(text[k] == ' ');
            } else {
                assert(k == -1 || t[0] == ' ');
                assert(body.last() == t[t.len() - 1]);
                assert(!p(t[t.len() - 1]));
            }
        }
        let r = capped(text, max);
        assert(r == body + e);
        assert forall|i: int| 0 <= i < r.len() && is_ws(#[trigger] r[i]) implies r[i] == ' ' by {
            if i < body.len() {
                assert(r[i] == body[i] && body[i] == text[i]);
            } else {
                assert(r[i] == e[i - body.len()]);
            }
        }
        assert(r[0] == body[0]);
        assert(r.last() == '.');
        assert forall|i: int| 0 <= i < r.len() - 1 && #[trigger] r[i] == ' ' implies r[i + 1] != ' ' by {
            if i < body.len() - 1 {
                assert(r[i] == text[i] && r[i + 1] == text[i + 1]);
            } else if i == body.len() - 1 {
                assert(r[i] == body.last());
            } else {
                assert(r[i] == e[i - body.len()]);
            }
        }
    }
}

/// What is spoken is one line, spaced singly: no newline or other
/// whitespace but single spaces between words, and no space at either
/// end.
pub proof fn lemma_spoken_text_is_one_single_spaced_line(text: Seq<char>)
    ensures
        single_spaced_line(speakable(text)),
        forall|i: int| 0 <= i < speakable(text).len() ==> speakable(text)[i] != '\n',
{
    let u = crate::speech::without_bare_urls(
        without_markup(without_links(without_inline_code(without_fences(text)))),
    );
    lemma_split_ws_words(u);
    lemma_join_words(split_ws(u));
    lemma_capped_line(collapse_ws(u), MAX_SPOKEN_CHARS as nat);
    assert forall|i: int| 0 <= i < speakable(text).len() implies speakable(text)[i] != '\n' by {
        if speakable(text)[i] == '\n' {
            assert(is_ws(speakable(text)[i]));
        }
    }
}


/// Reading a line spaced singly, up to any point: the words so far,
/// joined by spaces, give back what was read, with the word being read
/// last, or with one space after when a space was read last.
proof fn lemma_ws_state_of_line(s: Seq<char>)
    requires
        forall|i: int| 0 <= i < s.len() && is_ws(#[trigger] s[i]) ==> s[i] == ' ',
        s.len() > 0 ==> s[0] != ' ',
        forall|i: int| 0 <= i < s.len() - 1 && #[trigger] s[i] == ' ' ==> s[i + 1] != ' ',
    ensures
        s.len() > 0 && s.last() != ' ' ==> ws_state(s).1.len() > 0
            && join(ws_state(s).0.push(ws_state(s).1), seq![' ']) == s,
        s.len() > 0 && s.last() == ' ' ==> ws_state(s).1.len() == 0 && ws_state(s).0.len() > 0
            && join(ws_state(s).0, seq![' ']) + seq![' '] == s,
        s.len() == 0 ==> ws_state(s).0.len() == 0 && ws_state(s).1.len() == 0,
    decreases s.len(),
{
    if s.len() > 0 {
        let d = s.drop_last();
        assert forall|i: int| 0 <= i < d.len() && is_ws(#[trigger] d[i]) implies d[i] == ' ' by {
            assert(d[i] == s[i]);
        }
        assert forall|i: int| 0 <= i < d.len() - 1 && #[trigger] d[i] == ' ' implies d[i + 1] != ' ' by {
            assert(d[i] == s[i] && d[i + 1] == s[i + 1]);
        }
        lemma_ws_state_of_line(d);
        let prev = ws_state(d);
        let c = s.last();
        assert(d.push(c) =~= s);
        if c == ' ' {
            assert(d.len() > 0);
            assert(d.last() == s[s.len() - 2]);
            assert(d.last() != ' ');
            assert(ws_state(s).0 == prev.0.push(prev.1));
        } else {
            assert(!is_ws(c));
            let w = prev.1.push(c);
            assert(ws_state(s) == (prev.0, w));
            if d.len() == 0 {
                assert(w =~= s);
            } else if d.last() != ' ' {
                let a = prev.0.push(prev.1);
                let b = prev.0.push(w);
                if prev.0.len() == 0 {
                    assert(join(a, seq![' ']) == prev.1);
                    assert(join(b, seq![' ']) == w);
                } else {
                    assert(a.drop_last() =~= prev.0);
                    assert(b.drop_last() =~= prev.0);
                    assert(join(a, seq![' ']) == join(prev.0, seq![' ']) + seq![' '] + prev.1);
                    assert(join(b, seq![' ']) == join(prev.0, seq![' ']) + seq![' '] + w);
                }
                assert(join(b, seq![' ']) =~= join(a, seq![' ']).push(c));
            } else {
                assert(prev.1.len() == 0);
                assert(w =~= seq![c]);
                let b = prev.0.push(w);
                assert(b.drop_last() =~= prev.0);
                assert(join(b, seq![' ']) == join(prev.0, seq![' ']) + seq![' '] + w);
                assert(join(b, seq![' ']) =~= s);
            }
        }
    }
}

/// A line spaced singly is its words joined by single spaces.
proof fn lemma_line_is_its_words(t: Seq<char>)
    requires
        single_spaced_line(t),
    ensures
        join(split_ws(t), seq![' ']) == t,
{
    lemma_ws_state_of_line(t);
    if t.len() == 0 {
        assert(split_ws(t).len() == 0);
    }
}

proof fn lemma_lines_of_one_line(s: Seq<char>)
    requires
        forall|i: int| 0 <= i < s.len() ==> s[i] != '\n',
    ensures
        lines_state(s) == (Seq::<Seq<char>>::empty(), s),
    decreases s.len(),
{
    if s.len() > 0 {
        let d = s.drop_last();
        assert forall|i: int| 0 <= i < d.len() implies d[i] != '\n' by {
            assert(d[i] == s[i]);
        }
        lemma_lines_of_one_line(d);
        assert(s.last() != '\n');
        assert(d.push(s.last()) =~= s);
    }
}

proof fn lemma_keep_all(s: Seq<char>, p: spec_fn(char) -> bool)
    requires
        forall|i: int| 0 <= i < s.len() ==> p(#[trigger] s[i]),
    ensures
        keep_where(s, p) == s,
    decreases s.len(),
{
    if s.len() > 0 {
        let d = s.drop_last();
        assert forall|i: int| 0 <= i < d.len() implies p(#[trigger] d[i]) by {
            assert(d[i] == s[i]);
        }
        lemma_keep_all(d, p);
        assert(p(s[s.len() - 1]));
        assert(d.push(s.last()) =~= s);
    }
}

proof fn lemma_keep_first(s: Seq<char>, p: spec_fn(char) -> bool)
    requires
        s.len() > 0,
        p(s[0]),
    ensures
        keep_where(s, p).len() > 0,
        keep_where(s, p)[0] == s[0],
    decreases s.len(),
{
    if s.len() > 1 {
        let d = s.drop_last();
        assert(d[0] == s[0]);
        lemma_keep_first(d, p);
        let k = keep_where(d, p);
        if p(s.last()) {
            assert(keep_where(s, p) == k.push(s.last()));
            assert(k.push(s.last())[0] == k[0]);
        }
    } else {
        assert(s.drop_last().len() == 0);
        assert(keep_where(s, p) == keep_where(s.drop_last(), p).push(s.last()));
    }
}

proof fn lemma_all_kept_words(ws: Seq<Seq<char>>)
    requires
        forall|k: int| 0 <= k < ws.len() ==> !is_url_like(#[trigger] ws[k]),
    ensures
        non_url_words(ws) == ws,
    decreases ws.len(),
{
    if ws.len() > 0 {
        let d = ws.drop_last();
        assert forall|k: int| 0 <= k < d.len() implies !is_url_like(#[trigger] d[k]) by {
            assert(d[k] == ws[k]);
        }
        lemma_all_kept_words(d);
        assert(!is_url_like(ws[ws.len() - 1]));
        assert(d.push(ws.last()) =~= ws);
    }
}


/// Plain prose: one non-empty line spaced singly, of at most
/// `MAX_SPOKEN_CHARS` characters, with no backtick, bracket or markup
/// character, not opening like a list item, a quote or a number, and
/// with no word that looks like a URL.
pub open spec fn plain_prose(t: Seq<char>) -> bool {
    &&& single_spaced_line(t)
    &&& 0 < t.len() <= MAX_SPOKEN_CHARS
    &&& forall|i: int| 0 <= i < t.len() ==> #[trigger] t[i] != '`' && t[i] != '[' && !is_markup_char(t[i])
    &&& t[0] != '-' && t[0] != '+' && t[0] != '>' && !is_digit(t[0])
    &&& forall|k: int| 0 <= k < split_ws(t).len() ==> !is_url_like(#[trigger] split_ws(t)[k])
}

proof fn lemma_prose_line_parts(t: Seq<char>)
    requires
        plain_prose(t),
    ensures
        lines(t) == seq![t],
        trim_start(t) == t,
        !is_ws(t[0]),
{
    assert forall|i: int| 0 <= i < t.len() implies t[i] != '\n' by {
        if t[i] == '\n' {
            assert(is_ws(t[i]));
        }
    }
    lemma_lines_of_one_line(t);
    assert(t[0] != ' ');
    assert(!is_ws(t[0]));
    assert(lead_ws(t) == 0);
    assert(t.subrange(0, t.len() as int) =~= t);
    assert(seq![t].len() == 1);
    assert(Seq::<Seq<char>>::empty().push(t) =~= seq![t]);
}

/// Plain prose is spoken as it is: every pass of the speech filter
/// leaves it unchanged.
pub proof fn lemma_plain_prose_is_spoken_unchanged(t: Seq<char>)
    requires
        plain_prose(t),
    ensures
        speakable(t) == t,
{
    lemma_prose_line_parts(t);
    // Fences: the one line is no fence.
    assert(!is_fence(t)) by {
        if has_prefix_at(t, 0, seq!['`', '`', '`']) {
            assert(t.subrange(0, 3)[0] == t[0]);
        }
        if has_prefix_at(t, 0, seq!['~', '~', '~']) {
            assert(t.subrange(0, 3)[0] == t[0]);
            assert(is_markup_char(t[0]));
        }
    }
    let one = seq![t];
    assert(one.drop_last() =~= Seq::<Seq<char>>::empty());
    assert(one.last() == t);
    assert(fence_scan(one.drop_last()) == (Seq::<Seq<char>>::empty(), false));
    assert(fence_scan(one) == (Seq::<Seq<char>>::empty().push(t), false));
    assert(Seq::<Seq<char>>::empty().push(t) =~= one);
    assert(join(one, seq!['\n']) == t);
    assert(without_fences(t) == t);
    // Inline code and links: nothing to find.
    lemma_index_of(t, '`');
    assert(without_inline_code(t) == t);
    lemma_index_of(t, '[');
    assert(without_links(t) == t) by {
        reveal(without_links);
    }
    // Markup: the line is no rule, opens with nothing to strip, and
    // holds no markup character.
    let nws = |c: char| !is_ws(c);
    lemma_keep_first(t, nws);
    assert(!is_rule(t)) by {
        let st = keep_where(t, nws);
        assert(st[0] == t[0]);
        assert(t[0] != '*' && t[0] != '_') by {
            assert(!is_markup_char(t[0]));
        }
    }
    assert(lead_char(t, '#') == 0) by {
        assert(!is_markup_char(t[0]));
    }
    assert(lead_char(t, '>') == 0);
    assert(trim_start_char(t, '#') == t);
    assert(trim_start_char(t, '>') == t);
    assert(!has_prefix_at(t, 0, seq!['-', ' '])) by {
        if has_prefix_at(t, 0, seq!['-', ' ']) {
            assert(t.subrange(0, 2)[0] == t[0]);
        }
    }
    assert(!has_prefix_at(t, 0, seq!['*', ' '])) by {
        if has_prefix_at(t, 0, seq!['*', ' ']) {
            assert(t.subrange(0, 2)[0] == t[0]);
            assert(is_markup_char(t[0]));
        }
    }
    assert(!has_prefix_at(t, 0, seq!['+', ' '])) by {
        if has_prefix_at(t, 0, seq!['+', ' ']) {
            assert(t.subrange(0, 2)[0] == t[0]);
        }
    }
    assert(lead_digits(t) == 0);
    assert(without_number(t) == t);
    assert(without_bullet(t) == t);
    let keep = |c: char| !is_markup_char(c);
    assert forall|i: int| 0 <= i < t.len() implies keep(#[trigger] t[i]) by {
        assert(t[i] != '`');
    }
    lemma_keep_all(t, keep);
    assert(line_markup_stripped(t) == Some(t));
    assert(stripped_lines(one.drop_last()) == Seq::<Seq<char>>::empty());
    assert(stripped_lines(one) == Seq::<Seq<char>>::empty().push(t));
    assert(join(one, seq![' ']) == t);
    assert(without_markup(t) == t);
    // Bare URLs and whitespace: the words are kept and rejoined as they were.
    lemma_all_kept_words(split_ws(t));
    lemma_line_is_its_words(t);
    assert(without_bare_urls(t) == t);
    assert(collapse_ws(t) == t);
    assert(capped(t, MAX_SPOKEN_CHARS as nat) == t);
}


/// Reading a fence's opening line, when no fence is open, and then any
/// lines that do not begin (after leading whitespace) with three
/// backticks or three tildes: a fence is open, and nothing more is kept.
proof fn lemma_inside_fence(pre: Seq<Seq<char>>, open: Seq<char>, mid: Seq<Seq<char>>)
    requires
        !fence_scan(pre).1,
        has_prefix_at(trim_start(open), 0, seq!['`', '`', '`']) || has_prefix_at(trim_start(open), 0, seq!['~', '~', '~']),
        forall|i: int| 0 <= i < mid.len() ==> !has_prefix_at(trim_start(#[trigger] mid[i]), 0, seq!['`', '`', '`'])
            && !has_prefix_at(trim_start(mid[i]), 0, seq!['~', '~', '~']),
    ensures
        fence_scan(pre.push(open) + mid) == (fence_scan(pre).0, true),
    decreases mid.len(),
{
    if mid.len() == 0 {
        assert(pre.push(open) + mid =~= pre.push(open));
        assert(pre.push(open).drop_last() =~= pre);
    } else {
        let d = mid.drop_last();
        assert forall|i: int| 0 <= i < d.len() implies !has_prefix_at(trim_start(#[trigger] d[i]), 0, seq!['`', '`', '`'])
            && !has_prefix_at(trim_start(d[i]), 0, seq!['~', '~', '~']) by {
            assert(d[i] == mid[i]);
        }
        lemma_inside_fence(pre, open, d);
        let all = pre.push(open) + mid;
        assert(all.drop_last() =~= pre.push(open) + d);
        assert(all.last() == mid[mid.len() - 1]);
    }
}

/// A fenced code block, from a line beginning (after leading whitespace)
/// with three backticks or three tildes to the next such line, fence
/// lines included, is dropped whole: the lines kept are those of the text
/// without it. So nothing inside a `~~~` or a ``` fence is ever spoken.
pub proof fn lemma_fenced_block_is_dropped(
    pre: Seq<Seq<char>>,
    open: Seq<char>,
    mid: Seq<Seq<char>>,
    close: Seq<char>,
    post: Seq<Seq<char>>,
)
    requires
        !fence_scan(pre).1,
        has_prefix_at(trim_start(open), 0, seq!['`', '`', '`']) || has_prefix_at(trim_start(open), 0, seq!['~', '~', '~']),
        has_prefix_at(trim_start(close), 0, seq!['`', '`', '`']) || has_prefix_at(trim_start(close), 0, seq!['~', '~', '~']),
        forall|i: int| 0 <= i < mid.len() ==> !has_prefix_at(trim_start(#[trigger] mid[i]), 0, seq!['`', '`', '`'])
            && !has_prefix_at(trim_start(mid[i]), 0, seq!['~', '~', '~']),
    ensures
        fence_scan(pre.push(open) + mid.push(close) + post) == fence_scan(pre + post),
    decreases post.len(),
{
    if post.len() == 0 {
        lemma_inside_fence(pre, open, mid);
        let all = pre.push(open) + mid.push(close) + post;
        assert(all.drop_last() =~= pre.push(open) + mid);
        assert(all.last() == close);
        assert(pre + post =~= pre);
    } else {
        let d = post.drop_last();
        lemma_fenced_block_is_dropped(pre, open, mid, close, d);
        let all = pre.push(open) + mid.push(close) + post;
        assert(all.drop_last() =~= pre.push(open) + mid.push(close) + d);
        assert((pre + post).drop_last() =~= pre + d);
        assert(all.last() == (pre + post).last());
    }
}

/// A reply with a fenced block reads as the text of its other lines
/// alone, and is spoken exactly as a reply `rest` made of those lines
/// would be.
pub proof fn lemma_fenced_block_is_not_spoken(
    text: Seq<char>,
    rest: Seq<char>,
    pre: Seq<Seq<char>>,
    open: Seq<char>,
    mid: Seq<Seq<char>>,
    close: Seq<char>,
    post: Seq<Seq<char>>,
)
    requires
        lines(text) == pre.push(open) + mid.push(close) + post,
        lines(rest) == pre + post,
        !fence_scan(pre).1,
        has_prefix_at(trim_start(open), 0, seq!['`', '`', '`']) || has_prefix_at(trim_start(open), 0, seq!['~', '~', '~']),
        has_prefix_at(trim_start(close), 0, seq!['`', '`', '`']) || has_prefix_at(trim_start(close), 0, seq!['~', '~', '~']),
        forall|i: int| 0 <= i < mid.len() ==> !has_prefix_at(trim_start(#[trigger] mid[i]), 0, seq!['`', '`', '`'])
            && !has_prefix_at(trim_start(mid[i]), 0, seq!['~', '~', '~']),
    ensures
        without_fences(text) == join(fence_scan(pre + post).0, seq!['\n']),
        without_fences(text) == without_fences(rest),
        speakable(text) == speakable(rest),
{
    lemma_fenced_block_is_dropped(pre, open, mid, close, post);
}

} // verus!
