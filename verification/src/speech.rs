//! Turning an agent reply into plain text worth reading aloud: fenced and
//! inline code dropped, markdown links reduced to their labels, markup
//! stripped, bare URLs dropped, whitespace collapsed, and the length capped
//! on a word boundary. Each pass has a spec function stating what it
//! computes over the reply's characters.
use vstd::prelude::*;

use crate::seqs::{first_where, last_where, lemma_first_where_unique, lemma_last_where_unique};
use crate::text::{
    keep_where,
    chars_of, collapse_whitespace, collapse_ws, extend_chars, find_char_from, has_prefix_at,
    index_of, is_digit, is_whitespace, is_ws, join, join_chars, lemma_index_of, lines,
    push_str_chars, seqs, slice_chars, split_lines, split_whitespace, split_ws, starts_with_at,
    string_of, trim_start, trim_start_chars, trim_start_char, trim_start_matching,
};

verus! {

/// The most characters a spoken reply keeps before it is cut.
pub const MAX_SPOKEN_CHARS: usize = 500;

// ---------------------------------------------------------------------
// Fenced code blocks
// ---------------------------------------------------------------------
/// A line that opens or closes a fenced code block: after leading
/// whitespace it begins with three backticks or three tildes.
pub open spec fn is_fence(line: Seq<char>) -> bool {
    ||| has_prefix_at(trim_start(line), 0, seq!['`', '`', '`'])
    ||| has_prefix_at(trim_start(line), 0, seq!['~', '~', '~'])
}

/// Reading `ls` top to bottom: the lines kept so far, and whether a fence
/// is open. A fence line flips the flag and is never kept; any other line
/// is kept only outside a fence.
pub open spec fn fence_scan(ls: Seq<Seq<char>>) -> (Seq<Seq<char>>, bool)
    decreases ls.len(),
{
    if ls.len() == 0 {
        (seq![], false)
    } else {
        let prev = fence_scan(ls.drop_last());
        let l = ls.last();
        if is_fence(l) {
            (prev.0, !prev.1)
        } else if !prev.1 {
            (prev.0.push(l), prev.1)
        } else {
            prev
        }
    }
}

/// `text` without its fenced code blocks, fence lines included; an
/// unterminated fence runs to the end. The kept lines are joined by `\n`.
pub open spec fn without_fences(text: Seq<char>) -> Seq<char> {
    join(fence_scan(lines(text)).0, seq!['\n'])
}

fn is_fence_line(line: &[char]) -> (b: bool)
    ensures
        b == is_fence(line@),
{
    let t = trim_start_chars(line);
    let ticks = ['`', '`', '`'];
    let tildes = ['~', '~', '~'];
    assert(ticks@ =~= seq!['`', '`', '`']);
    assert(tildes@ =~= seq!['~', '~', '~']);
    starts_with_at(t.as_slice(), 0, &ticks) || starts_with_at(t.as_slice(), 0, &tildes)
}

/// Drop every fenced code block, fence lines included.
pub fn strip_fenced_code_blocks(text: &[char]) -> (r: Vec<char>)
    ensures
        r@ == without_fences(text@),
{
    let ls = split_lines(text);
    let mut kept: Vec<Vec<char>> = Vec::new();
    let mut in_fence = false;
    let mut i: usize = 0;
    while i < ls.len()
        invariant
            i <= ls@.len(),
            seqs(ls@) == lines(text@),
            (seqs(kept@), in_fence) == fence_scan(seqs(ls@).take(i as int)),
        decreases ls.len() - i,
    {
        let ghost all = seqs(ls@);
        assert(all.take(i + 1).drop_last() =~= all.take(i as int));
        assert(all.take(i + 1).last() == all[i as int]);
        if is_fence_line(ls[i].as_slice()) {
            in_fence = !in_fence;
        } else if !in_fence {
            let ghost before = seqs(kept@);
            kept.push(slice_chars(ls[i].as_slice(), 0, ls[i].len()));
            assert(ls@[i as int]@.subrange(0, ls@[i as int]@.len() as int) =~= ls@[i as int]@);
            assert(seqs(kept@) =~= before.push(all[i as int]));
        }
        i = i + 1;
    }
    assert(seqs(ls@).take(ls@.len() as int) =~= seqs(ls@));
    let sep = ['\n'];
    assert(sep@ =~= seq!['\n']);
    join_chars(&kept, &sep)
}

// ---------------------------------------------------------------------
// Inline code
// ---------------------------------------------------------------------
/// `s` without its backtick spans, backticks and content both. A backtick
/// with no partner after it is dropped and the text after it kept.
pub open spec fn without_inline_code(s: Seq<char>) -> Seq<char>
    decreases s.len(),
{
    let k = index_of(s, '`');
    if k < 0 {
        s
    } else {
        proof {
            lemma_index_of(s, '`');
        }
        let after = s.subrange(k + 1, s.len() as int);
        let e = index_of(after, '`');
        if e < 0 {
            s.take(k) + after
        } else {
            proof {
                lemma_index_of(after, '`');
            }
            s.take(k) + without_inline_code(after.subrange(e + 1, after.len() as int))
        }
    }
}

/// Drop inline backtick spans, backticks and content both.
pub fn strip_inline_code(text: &[char]) -> (r: Vec<char>)
    ensures
        r@ == without_inline_code(text@),
{
    let ghost whole = text@;
    let mut out: Vec<char> = Vec::new();
    let mut pos: usize = 0;
    let n = text.len();
    assert(text@.subrange(0, text@.len() as int) =~= text@);
    loop
        invariant_except_break
            out@ + without_inline_code(text@.subrange(pos as int, text@.len() as int))
                == without_inline_code(whole),
        invariant
            pos <= text@.len(),
            n == text@.len(),
            whole == text@,
        ensures
            out@ == without_inline_code(whole),
        decreases text@.len() - pos,
    {
        let ghost rest = text@.subrange(pos as int, text@.len() as int);
        let ghost before = out@;
        proof {
            lemma_index_of(rest, '`');
        }
        match find_char_from(text, pos, '`') {
            None => {
                let tail = slice_chars(text, pos, text.len());
                extend_chars(&mut out, tail.as_slice());
                break;
            },
            Some(k) => {
                let head = slice_chars(text, pos, k);
                extend_chars(&mut out, head.as_slice());
                let ghost after = rest.subrange(k - pos + 1, rest.len() as int);
                assert(after =~= text@.subrange(k + 1, text@.len() as int));
                assert(rest.take(k - pos) =~= head@);
                proof {
                    lemma_index_of(after, '`');
                }
                assert(k < n);
                match find_char_from(text, k + 1, '`') {
                    None => {
                        let tail = slice_chars(text, k + 1, text.len());
                        extend_chars(&mut out, tail.as_slice());
                        assert(out@ =~= before + (rest.take(k - pos) + after));
                        break;
                    },
                    Some(e) => {
                        assert(after.subrange(e - k, after.len() as int) =~= text@.subrange(
                            e + 1,
                            text@.len() as int,
                        ));
                        assert(before + without_inline_code(rest) =~= out@
                            + without_inline_code(text@.subrange(e + 1, text@.len() as int)));
                        pos = e + 1;
                    },
                }
            },
        }
    }
    out
}

// ---------------------------------------------------------------------
// Markdown links
// ---------------------------------------------------------------------
/// `s` with every `[label](url)` replaced by `label`. A bracket with no
/// closing `]` after it keeps the rest of the text as is; a bracketed
/// label not followed by a complete `(url)` keeps its brackets.
#[verifier::opaque]
pub open spec fn without_links(s: Seq<char>) -> Seq<char>
    decreases s.len(),
{
    let k = index_of(s, '[');
    if k < 0 {
        s
    } else {
        proof {
            lemma_index_of(s, '[');
        }
        let rest = s.subrange(k + 1, s.len() as int);
        let le = index_of(rest, ']');
        if le < 0 {
            s.take(k) + seq!['['] + rest
        } else {
            proof {
                lemma_index_of(rest, ']');
            }
            let label = rest.take(le);
            let after = rest.subrange(le + 1, rest.len() as int);
            if after.len() > 0 && after[0] == '(' && index_of(after.drop_first(), ')') >= 0 {
                proof {
                    lemma_index_of(after.drop_first(), ')');
                }
                let u = index_of(after.drop_first(), ')');
                s.take(k) + label + without_links(
                    after.drop_first().subrange(u + 1, after.len() - 1),
                )
            } else {
                s.take(k) + seq!['['] + label + seq![']'] + without_links(after)
            }
        }
    }
}

proof fn lemma_links_open(t: Seq<char>, pos: int, k: int)
    requires
        0 <= pos <= k < t.len(),
        k - pos == index_of(t.subrange(pos, t.len() as int), '['),
        index_of(t.subrange(k + 1, t.len() as int), ']') == -1,
    ensures
        without_links(t.subrange(pos, t.len() as int)) == t.subrange(pos, k) + seq!['[']
            + t.subrange(k + 1, t.len() as int),
{
    reveal(without_links);
    let s = t.subrange(pos, t.len() as int);
    assert(s.subrange(k - pos + 1, s.len() as int) =~= t.subrange(k + 1, t.len() as int));
    assert(s.take(k - pos) =~= t.subrange(pos, k));
}

proof fn lemma_links_linked(t: Seq<char>, pos: int, k: int, le: int, u: int)
    requires
        0 <= pos <= k < le,
        le + 1 < u < t.len(),
        k - pos == index_of(t.subrange(pos, t.len() as int), '['),
        le - k - 1 == index_of(t.subrange(k + 1, t.len() as int), ']'),
        t[le + 1] == '(',
        u - le - 2 == index_of(t.subrange(le + 2, t.len() as int), ')'),
    ensures
        without_links(t.subrange(pos, t.len() as int)) == t.subrange(pos, k) + t.subrange(k + 1, le)
            + without_links(t.subrange(u + 1, t.len() as int)),
{
    reveal(without_links);
    let s = t.subrange(pos, t.len() as int);
    let rest = s.subrange(k - pos + 1, s.len() as int);
    assert(rest =~= t.subrange(k + 1, t.len() as int));
    let after = rest.subrange(le - k, rest.len() as int);
    assert(after =~= t.subrange(le + 1, t.len() as int));
    assert(after.drop_first() =~= t.subrange(le + 2, t.len() as int));
    assert(after.drop_first().subrange(u - le - 1, after.len() - 1) =~= t.subrange(
        u + 1,
        t.len() as int,
    ));
    assert(s.take(k - pos) =~= t.subrange(pos, k));
    assert(rest.take(le - k - 1) =~= t.subrange(k + 1, le));
}

proof fn lemma_links_unlinked(t: Seq<char>, pos: int, k: int, le: int)
    requires
        0 <= pos <= k < le < t.len(),
        k - pos == index_of(t.subrange(pos, t.len() as int), '['),
        le - k - 1 == index_of(t.subrange(k + 1, t.len() as int), ']'),
        !(le + 1 < t.len() && t[le + 1] == '(' && index_of(t.subrange(le + 2, t.len() as int), ')')
            >= 0),
    ensures
        without_links(t.subrange(pos, t.len() as int)) == t.subrange(pos, k) + seq!['[']
            + t.subrange(k + 1, le) + seq![']'] + without_links(t.subrange(le + 1, t.len() as int)),
{
    reveal(without_links);
    let s = t.subrange(pos, t.len() as int);
    let rest = s.subrange(k - pos + 1, s.len() as int);
    assert(rest =~= t.subrange(k + 1, t.len() as int));
    let after = rest.subrange(le - k, rest.len() as int);
    assert(after =~= t.subrange(le + 1, t.len() as int));
    if le + 1 < t.len() {
        assert(after.drop_first() =~= t.subrange(le + 2, t.len() as int));
    }
    assert(s.take(k - pos) =~= t.subrange(pos, k));
    assert(rest.take(le - k - 1) =~= t.subrange(k + 1, le));
}

/// Replace `[label](url)` with just `label`.
pub fn strip_markdown_links(text: &[char]) -> (r: Vec<char>)
    ensures
        r@ == without_links(text@),
{
    let ghost whole = text@;
    let mut out: Vec<char> = Vec::new();
    let mut pos: usize = 0;
    let n = text.len();
    assert(text@.subrange(0, text@.len() as int) =~= text@);
    loop
        invariant_except_break
            out@ + without_links(text@.subrange(pos as int, text@.len() as int)) == without_links(
                whole,
            ),
        invariant
            pos <= text@.len(),
            n == text@.len(),
            whole == text@,
        ensures
            out@ == without_links(whole),
        decreases text@.len() - pos,
    {
        let ghost before = out@;
        match find_char_from(text, pos, '[') {
            None => {
                let tail = slice_chars(text, pos, n);
                extend_chars(&mut out, tail.as_slice());
                proof {
                    reveal(without_links);
                }
                break;
            },
            Some(k) => {
                let head = slice_chars(text, pos, k);
                extend_chars(&mut out, head.as_slice());
                assert(k < n);
                match find_char_from(text, k + 1, ']') {
                    None => {
                        out.push('[');
                        let tail = slice_chars(text, k + 1, n);
                        extend_chars(&mut out, tail.as_slice());
                        proof {
                            lemma_links_open(text@, pos as int, k as int);
                            assert(out@ =~= before + (head@ + seq!['['] + tail@));
                        }
                        break;
                    },
                    Some(le) => {
                        let label = slice_chars(text, k + 1, le);
                        let mut linked = false;
                        if le + 1 < n && text[le + 1] == '(' {
                            match find_char_from(text, le + 2, ')') {
                                Some(u) => {
                                    extend_chars(&mut out, label.as_slice());
                                    proof {
                                        lemma_links_linked(
                                            text@,
                                            pos as int,
                                            k as int,
                                            le as int,
                                            u as int,
                                        );
                                        assert(out@ =~= before + head@ + label@);
                                    }
                                    pos = u + 1;
                                    linked = true;
                                },
                                None => {},
                            }
                        }
                        if !linked {
                            out.push('[');
                            extend_chars(&mut out, label.as_slice());
                            out.push(']');
                            proof {
                                lemma_links_unlinked(text@, pos as int, k as int, le as int);
                                assert(out@ =~= before + head@ + seq!['['] + label@ + seq![']']);
                            }
                            pos = le + 1;
                        }
                    },
                }
            },
        }
    }
    out
}

// ---------------------------------------------------------------------
// Markup
// ---------------------------------------------------------------------
/// Emphasis, heading and table characters, dropped from spoken text.
pub open spec fn is_markup_char(c: char) -> bool {
    c == '*' || c == '_' || c == '~' || c == '#' || c == '|'
}

/// Every character of `s` is `c`.
pub open spec fn all_are(s: Seq<char>, c: char) -> bool {
    forall|i: int| 0 <= i < s.len() ==> s[i] == c
}

/// A markdown horizontal rule: ignoring whitespace, three or more `-`,
/// three or more `*`, or three or more `_`, and nothing else.
pub open spec fn is_rule(t: Seq<char>) -> bool {
    let st = keep_where(t, |c: char| !is_ws(c));
    st.len() >= 3 && (all_are(st, '-') || all_are(st, '*') || all_are(st, '_'))
}

/// The number of leading ASCII digits of `s`.
pub open spec fn lead_digits(s: Seq<char>) -> nat
    decreases s.len(),
{
    if s.len() > 0 && is_digit(s[0]) {
        1 + lead_digits(s.drop_first())
    } else {
        0
    }
}

/// `s` without a leading `N. ` or `N) ` numbered-list marker. A run of
/// digits that is the whole of `s` is no marker.
pub open spec fn without_number(s: Seq<char>) -> Seq<char> {
    let d = lead_digits(s) as int;
    if d == 0 || d == s.len() {
        s
    } else {
        let after = s.subrange(d, s.len() as int);
        if has_prefix_at(after, 0, seq!['.', ' ']) || has_prefix_at(after, 0, seq![')', ' ']) {
            after.subrange(2, after.len() as int)
        } else {
            s
        }
    }
}

/// `s` without a leading list bullet: `- `, `* `, `+ `, or a numbered
/// marker.
pub open spec fn without_bullet(s: Seq<char>) -> Seq<char> {
    if has_prefix_at(s, 0, seq!['-', ' ']) || has_prefix_at(s, 0, seq!['*', ' '])
        || has_prefix_at(s, 0, seq!['+', ' ']) {
        s.subrange(2, s.len() as int)
    } else {
        without_number(s)
    }
}

/// One line with its markup stripped: `None` for a horizontal rule, else
/// the line after leading whitespace, heading `#`s, blockquote `>`s and a
/// list bullet are removed, with every markup character dropped.
pub open spec fn line_markup_stripped(line: Seq<char>) -> Option<Seq<char>> {
    let t = trim_start(line);
    if is_rule(t) {
        None
    } else {
        let h = trim_start(trim_start_char(t, '#'));
        let q = trim_start(trim_start_char(h, '>'));
        Some(keep_where(without_bullet(q), |c: char| !is_markup_char(c)))
    }
}

/// The stripped lines of `ls` that are not horizontal rules.
pub open spec fn stripped_lines(ls: Seq<Seq<char>>) -> Seq<Seq<char>>
    decreases ls.len(),
{
    if ls.len() == 0 {
        seq![]
    } else {
        match line_markup_stripped(ls.last()) {
            Some(x) => stripped_lines(ls.drop_last()).push(x),
            None => stripped_lines(ls.drop_last()),
        }
    }
}

/// `text` with markdown markup stripped line by line, the surviving lines
/// joined by single spaces.
pub open spec fn without_markup(text: Seq<char>) -> Seq<char> {
    join(stripped_lines(lines(text)), seq![' '])
}

fn keep_non_markup(s: &[char]) -> (r: Vec<char>)
    ensures
        r@ == keep_where(s@, |c: char| !is_markup_char(c)),
{
    let ghost p = |c: char| !is_markup_char(c);
    let mut r: Vec<char> = Vec::new();
    let mut i: usize = 0;
    while i < s.len()
        invariant
            i <= s@.len(),
            p == (|c: char| !is_markup_char(c)),
            r@ == keep_where(s@.take(i as int), p),
        decreases s.len() - i,
    {
        assert(s@.take(i + 1).drop_last() =~= s@.take(i as int));
        let c = s[i];
        if !(c == '*' || c == '_' || c == '~' || c == '#' || c == '|') {
            r.push(c);
        }
        i = i + 1;
    }
    assert(s@.take(s@.len() as int) =~= s@);
    r
}

fn keep_non_ws(s: &[char]) -> (r: Vec<char>)
    ensures
        r@ == keep_where(s@, |c: char| !is_ws(c)),
{
    let ghost p = |c: char| !is_ws(c);
    let mut r: Vec<char> = Vec::new();
    let mut i: usize = 0;
    while i < s.len()
        invariant
            i <= s@.len(),
            p == (|c: char| !is_ws(c)),
            r@ == keep_where(s@.take(i as int), p),
        decreases s.len() - i,
    {
        assert(s@.take(i + 1).drop_last() =~= s@.take(i as int));
        let c = s[i];
        if !is_whitespace(c) {
            r.push(c);
        }
        i = i + 1;
    }
    assert(s@.take(s@.len() as int) =~= s@);
    r
}

fn all_equal(s: &[char], c: char) -> (b: bool)
    ensures
        b == all_are(s@, c),
{
    let mut i: usize = 0;
    while i < s.len()
        invariant
            i <= s@.len(),
            forall|j: int| 0 <= j < i ==> s@[j] == c,
        decreases s.len() - i,
    {
        if s[i] != c {
            return false;
        }
        i = i + 1;
    }
    true
}

/// Whether `trimmed` is a markdown horizontal rule.
pub fn is_horizontal_rule(trimmed: &[char]) -> (b: bool)
    ensures
        b == is_rule(trimmed@),
{
    let st = keep_non_ws(trimmed);
    st.len() >= 3 && (all_equal(st.as_slice(), '-') || all_equal(st.as_slice(), '*')
        || all_equal(st.as_slice(), '_'))
}

/// The leading digits are digits, and the character after them is not.
pub proof fn lemma_lead_digits(s: Seq<char>)
    ensures
        lead_digits(s) <= s.len(),
        forall|j: int| 0 <= j < lead_digits(s) ==> is_digit(s[j]),
        lead_digits(s) < s.len() ==> !is_digit(s[lead_digits(s) as int]),
    decreases s.len(),
{
    if s.len() > 0 && is_digit(s[0]) {
        lemma_lead_digits(s.drop_first());
        assert forall|j: int| 0 <= j < lead_digits(s) implies is_digit(s[j]) by {
            if j > 0 {
                assert(s[j] == s.drop_first()[j - 1]);
            }
        }
        if lead_digits(s) < s.len() {
            assert(s[lead_digits(s) as int] == s.drop_first()[lead_digits(s) - 1]);
        }
    }
}

proof fn lemma_lead_digits_unique(s: Seq<char>, k: int)
    requires
        0 <= k <= s.len(),
        forall|j: int| 0 <= j < k ==> is_digit(s[j]),
        k < s.len() ==> !is_digit(s[k]),
    ensures
        lead_digits(s) == k,
    decreases s.len(),
{
    if k > 0 {
        assert(is_digit(s[0]));
        assert forall|j: int| 0 <= j < k - 1 implies is_digit(s.drop_first()[j]) by {
            assert(s.drop_first()[j] == s[j + 1]);
        }
        if k - 1 < s.len() - 1 {
            assert(s.drop_first()[k - 1] == s[k]);
        }
        lemma_lead_digits_unique(s.drop_first(), k - 1);
    }
}

/// Strip a leading `N.` or `N)` numbered list marker followed by a space.
pub fn strip_numbered_bullet(text: &[char]) -> (r: Vec<char>)
    ensures
        r@ == without_number(text@),
{
    let mut d: usize = 0;
    while d < text.len() && '0' <= text[d] && text[d] <= '9'
        invariant
            d <= text@.len(),
            forall|j: int| 0 <= j < d ==> is_digit(text@[j]),
        decreases text.len() - d,
    {
        d = d + 1;
    }
    proof {
        lemma_lead_digits_unique(text@, d as int);
    }
    if d == 0 || d == text.len() {
        return slice_chars(text, 0, text.len());
    }
    let dot = ['.', ' '];
    let paren = [')', ' '];
    assert(dot@ =~= seq!['.', ' ']);
    assert(paren@ =~= seq![')', ' ']);
    let ghost after = text@.subrange(d as int, text@.len() as int);
    if starts_with_at(text, d, &dot) || starts_with_at(text, d, &paren) {
        proof {
            assert(has_prefix_at(after, 0, seq!['.', ' ']) == has_prefix_at(text@, d as int, seq!['.', ' '])) by {
                if d + 2 <= text@.len() {
                    assert(after.subrange(0, 2) =~= text@.subrange(d as int, d + 2));
                }
            }
            assert(has_prefix_at(after, 0, seq![')', ' ']) == has_prefix_at(text@, d as int, seq![')', ' '])) by {
                if d + 2 <= text@.len() {
                    assert(after.subrange(0, 2) =~= text@.subrange(d as int, d + 2));
                }
            }
            assert(after.subrange(2, after.len() as int) =~= text@.subrange(d + 2, text@.len() as int));
        }
        slice_chars(text, d + 2, text.len())
    } else {
        proof {
            if d + 2 <= text@.len() {
                assert(after.subrange(0, 2) =~= text@.subrange(d as int, d + 2));
            }
        }
        slice_chars(text, 0, text.len())
    }
}

/// Strip a leading list bullet: `-`, `*`, `+` followed by a space, or a
/// numbered marker like `1.` or `2)` followed by a space.
pub fn strip_leading_bullet(text: &[char]) -> (r: Vec<char>)
    ensures
        r@ == without_bullet(text@),
{
    let dash = ['-', ' '];
    let star = ['*', ' '];
    let plus = ['+', ' '];
    assert(dash@ =~= seq!['-', ' ']);
    assert(star@ =~= seq!['*', ' ']);
    assert(plus@ =~= seq!['+', ' ']);
    if starts_with_at(text, 0, &dash) || starts_with_at(text, 0, &star) || starts_with_at(
        text,
        0,
        &plus,
    ) {
        slice_chars(text, 2, text.len())
    } else {
        strip_numbered_bullet(text)
    }
}

/// Strip markdown markup from a single line; `None` for a horizontal rule.
pub fn strip_line_markup(line: &[char]) -> (r: Option<Vec<char>>)
    ensures
        match r {
            Some(v) => line_markup_stripped(line@) == Some(v@),
            None => line_markup_stripped(line@) is None,
        },
{
    let t = trim_start_chars(line);
    if is_horizontal_rule(t.as_slice()) {
        return None;
    }
    let h0 = trim_start_matching(t.as_slice(), '#');
    let h = trim_start_chars(h0.as_slice());
    let q0 = trim_start_matching(h.as_slice(), '>');
    let q = trim_start_chars(q0.as_slice());
    let b = strip_leading_bullet(q.as_slice());
    Some(keep_non_markup(b.as_slice()))
}

/// Strip markdown markup line by line, dropping horizontal-rule lines and
/// joining the rest with single spaces.
pub fn strip_markdown_markup(text: &[char]) -> (r: Vec<char>)
    ensures
        r@ == without_markup(text@),
{
    let ls = split_lines(text);
    let mut kept: Vec<Vec<char>> = Vec::new();
    let mut i: usize = 0;
    while i < ls.len()
        invariant
            i <= ls@.len(),
            seqs(ls@) == lines(text@),
            seqs(kept@) == stripped_lines(seqs(ls@).take(i as int)),
        decreases ls.len() - i,
    {
        let ghost all = seqs(ls@);
        assert(all.take(i + 1).drop_last() =~= all.take(i as int));
        assert(all.take(i + 1).last() == all[i as int]);
        match strip_line_markup(ls[i].as_slice()) {
            Some(x) => {
                let ghost before = seqs(kept@);
                let ghost xv = x@;
                kept.push(x);
                assert(seqs(kept@) =~= before.push(xv));
            },
            None => {},
        }
        i = i + 1;
    }
    assert(seqs(ls@).take(ls@.len() as int) =~= seqs(ls@));
    let sep = [' '];
    assert(sep@ =~= seq![' ']);
    join_chars(&kept, &sep)
}

// ---------------------------------------------------------------------
// Bare URLs
// ---------------------------------------------------------------------
/// Punctuation that may wrap a URL in prose: brackets, quotes, and
/// sentence punctuation.
pub open spec fn is_url_punct(c: char) -> bool {
    c == '(' || c == '[' || c == '{' || c == '"' || c == '\'' || c == '.' || c == ','
        || c == '!' || c == '?' || c == ';' || c == ':' || c == ')' || c == ']' || c == '}'
}

/// `w` with wrapping punctuation trimmed from both ends.
pub open spec fn trim_url_punct(w: Seq<char>) -> Seq<char> {
    let a = first_where(w, |c: char| !is_url_punct(c));
    if a < 0 {
        seq![]
    } else {
        w.subrange(a, last_where(w, |c: char| !is_url_punct(c)) + 1)
    }
}

/// A word that, once wrapping punctuation is ignored, begins `http://`,
/// `https://` or `www.`.
pub open spec fn is_url_like(w: Seq<char>) -> bool {
    let t = trim_url_punct(w);
    ||| has_prefix_at(t, 0, "http://"@)
    ||| has_prefix_at(t, 0, "https://"@)
    ||| has_prefix_at(t, 0, "www."@)
}

/// The words of `ws` that do not look like URLs.
pub open spec fn non_url_words(ws: Seq<Seq<char>>) -> Seq<Seq<char>>
    decreases ws.len(),
{
    if ws.len() == 0 {
        seq![]
    } else if is_url_like(ws.last()) {
        non_url_words(ws.drop_last())
    } else {
        non_url_words(ws.drop_last()).push(ws.last())
    }
}

/// `text`'s whitespace-separated words, those that look like URLs dropped,
/// joined by single spaces.
pub open spec fn without_bare_urls(text: Seq<char>) -> Seq<char> {
    join(non_url_words(split_ws(text)), seq![' '])
}

fn url_punct(c: char) -> (b: bool)
    ensures
        b == is_url_punct(c),
{
    c == '(' || c == '[' || c == '{' || c == '"' || c == '\'' || c == '.' || c == ',' || c == '!'
        || c == '?' || c == ';' || c == ':' || c == ')' || c == ']' || c == '}'
}

/// Whether `word` looks like a URL once common leading and trailing
/// punctuation around it is ignored.
pub fn looks_like_url(word: &[char]) -> (b: bool)
    ensures
        b == is_url_like(word@),
{
    let ghost p = |c: char| !is_url_punct(c);
    let mut a: usize = 0;
    while a < word.len() && url_punct(word[a])
        invariant
            a <= word@.len(),
            p == (|c: char| !is_url_punct(c)),
            forall|j: int| 0 <= j < a ==> !p(#[trigger] word@[j]),
        decreases word.len() - a,
    {
        a = a + 1;
    }
    let t: Vec<char> = if a == word.len() {
        proof {
            lemma_first_where_unique(word@, p, -1);
        }
        Vec::new()
    } else {
        proof {
            lemma_first_where_unique(word@, p, a as int);
        }
        let mut z: usize = word.len();
        while z > a + 1 && url_punct(word[z - 1])
            invariant
                a < z <= word@.len(),
                p == (|c: char| !is_url_punct(c)),
                p(word@[a as int]),
                forall|j: int| z <= j < word@.len() ==> !p(#[trigger] word@[j]),
            decreases z,
        {
            z = z - 1;
        }
        proof {
            lemma_last_where_unique(word@, p, z - 1);
        }
        slice_chars(word, a, z)
    };
    assert(t@ =~= trim_url_punct(word@));
    let http = chars_of("http://");
    let https = chars_of("https://");
    let www = chars_of("www.");
    starts_with_at(t.as_slice(), 0, http.as_slice()) || starts_with_at(t.as_slice(), 0, https.as_slice())
        || starts_with_at(t.as_slice(), 0, www.as_slice())
}

/// Drop bare `http(s)://` and `www.` URLs, word by word, joining the
/// surviving words with single spaces.
pub fn strip_bare_urls(text: &[char]) -> (r: Vec<char>)
    ensures
        r@ == without_bare_urls(text@),
{
    let words = split_whitespace(text);
    let mut kept: Vec<Vec<char>> = Vec::new();
    let mut i: usize = 0;
    while i < words.len()
        invariant
            i <= words@.len(),
            seqs(words@) == split_ws(text@),
            seqs(kept@) == non_url_words(seqs(words@).take(i as int)),
        decreases words.len() - i,
    {
        let ghost all = seqs(words@);
        assert(all.take(i + 1).drop_last() =~= all.take(i as int));
        assert(all.take(i + 1).last() == all[i as int]);
        if !looks_like_url(words[i].as_slice()) {
            let ghost before = seqs(kept@);
            kept.push(slice_chars(words[i].as_slice(), 0, words[i].len()));
            assert(words@[i as int]@.subrange(0, words@[i as int]@.len() as int) =~= words@[i as int]@);
            assert(seqs(kept@) =~= before.push(all[i as int]));
        }
        i = i + 1;
    }
    assert(seqs(words@).take(words@.len() as int) =~= seqs(words@));
    let sep = [' '];
    assert(sep@ =~= seq![' ']);
    join_chars(&kept, &sep)
}

// ---------------------------------------------------------------------
// Length cap and the whole pipeline
// ---------------------------------------------------------------------
/// `text` capped at `max` characters: unchanged when short enough, else
/// cut to its first `max` characters, then back to the last space among
/// them when that space is not the first character, and marked `...`.
pub open spec fn capped(text: Seq<char>, max: nat) -> Seq<char> {
    if text.len() <= max {
        text
    } else {
        let t = text.take(max as int);
        let k = last_where(t, |c: char| c == ' ');
        if k > 0 {
            t.take(k) + "..."@
        } else {
            t + "..."@
        }
    }
}

/// Cap `text` at `max_chars` characters, cutting on a word boundary and
/// appending `...` when a cut happened.
pub fn truncate_for_speech(text: &[char], max_chars: usize) -> (r: Vec<char>)
    ensures
        r@ == capped(text@, max_chars as nat),
{
    if text.len() <= max_chars {
        return slice_chars(text, 0, text.len());
    }
    let t = slice_chars(text, 0, max_chars);
    assert(t@ =~= text@.take(max_chars as int));
    let ghost p = |c: char| c == ' ';
    let mut k: usize = t.len();
    while k > 0 && t[k - 1] != ' '
        invariant
            k <= t@.len(),
            p == (|c: char| c == ' '),
            forall|j: int| k <= j < t@.len() ==> !p(#[trigger] t@[j]),
        decreases k,
    {
        k = k - 1;
    }
    let ghost last = k - 1;
    proof {
        lemma_last_where_unique(t@, p, last);
    }
    let mut out = if k > 1 {
        slice_chars(t.as_slice(), 0, k - 1)
    } else {
        t
    };
    push_str_chars(&mut out, "...");
    out
}

/// Spoken text never runs past `max` characters and an ellipsis.
pub proof fn lemma_capped_len(text: Seq<char>, max: nat)
    ensures
        capped(text, max).len() <= max + 3,
{
    reveal_strlit("...");
    if text.len() > max {
        let t = text.take(max as int);
        let p = |c: char| c == ' ';
        crate::seqs::lemma_last_where(t, p);
    }
}

/// A spoken reply is at most `MAX_SPOKEN_CHARS` characters plus the
/// three of an ellipsis.
pub proof fn lemma_speakable_len(text: Seq<char>)
    ensures
        speakable(text).len() <= MAX_SPOKEN_CHARS + 3,
{
    lemma_capped_len(
        collapse_ws(
            without_bare_urls(
                without_markup(without_links(without_inline_code(without_fences(text)))),
            ),
        ),
        MAX_SPOKEN_CHARS as nat,
    );
}

/// The full pass from a reply to text worth speaking.
pub open spec fn speakable(text: Seq<char>) -> Seq<char> {
    capped(
        collapse_ws(
            without_bare_urls(
                without_markup(without_links(without_inline_code(without_fences(text)))),
            ),
        ),
        MAX_SPOKEN_CHARS as nat,
    )
}

/// Turn model output into plain text worth speaking: fenced code blocks,
/// inline code spans and URLs dropped, link labels kept, markup stripped,
/// whitespace collapsed and the length capped.
pub fn filter_for_speech(text: &str) -> (r: String)
    ensures
        r@ == speakable(text@),
{
    let cs = chars_of(text);
    let a = strip_fenced_code_blocks(cs.as_slice());
    let b = strip_inline_code(a.as_slice());
    let c = strip_markdown_links(b.as_slice());
    let d = strip_markdown_markup(c.as_slice());
    let e = strip_bare_urls(d.as_slice());
    let f = collapse_whitespace(e.as_slice());
    let g = truncate_for_speech(f.as_slice(), MAX_SPOKEN_CHARS);
    string_of(g.as_slice())
}

} // verus!
