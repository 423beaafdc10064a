//! Character-level text helpers shared by the rest of the crate: Unicode
//! whitespace, word splitting, line splitting, joining, and conversion
//! between `str`/`String` and `Vec<char>`. Each helper has a spec function
//! that says what it computes, and the executable version is proved
//! against it.
use vstd::prelude::*;

verus! {

/// The Unicode `White_Space` characters, the set `char::is_whitespace`
/// recognises.
pub open spec fn is_ws(c: char) -> bool {
    let u = c as u32;
    ||| 0x09 <= u <= 0x0D
    ||| u == 0x20
    ||| u == 0x85
    ||| u == 0xA0
    ||| u == 0x1680
    ||| 0x2000 <= u <= 0x200A
    ||| u == 0x2028
    ||| u == 0x2029
    ||| u == 0x202F
    ||| u == 0x205F
    ||| u == 0x3000
}

/// Whether `c` is Unicode whitespace.
pub fn is_whitespace(c: char) -> (b: bool)
    ensures
        b == is_ws(c),
{
    let u = c as u32;
    (0x09 <= u && u <= 0x0D) || u == 0x20 || u == 0x85 || u == 0xA0 || u == 0x1680 || (0x2000
        <= u && u <= 0x200A) || u == 0x2028 || u == 0x2029 || u == 0x202F || u == 0x205F || u
        == 0x3000
}

pub open spec fn is_digit(c: char) -> bool {
    '0' <= c <= '9'
}

pub open spec fn is_ascii_alnum(c: char) -> bool {
    ||| '0' <= c <= '9'
    ||| 'a' <= c <= 'z'
    ||| 'A' <= c <= 'Z'
}

/// The characters of `s`, in order.
pub fn chars_of(s: &str) -> (v: Vec<char>)
    ensures
        v@ == s@,
{
    let mut v: Vec<char> = Vec::new();
    for c in it: s.chars()
        invariant
            v@ == it.seq().take(it.index() as int),
    {
        v.push(c);
    }
    v
}

/// Appends one character to a `String`.
#[verifier::external_body]
fn push_char(s: &mut String, c: char)
    ensures
        final(s)@ == old(s)@.push(c),
{
    s.push(c);
}

/// A `String` holding exactly the characters of `v`.
pub fn string_of(v: &[char]) -> (s: String)
    ensures
        s@ == v@,
{
    let mut s = String::new();
    let mut i: usize = 0;
    while i < v.len()
        invariant
            i <= v.len(),
            s@ == v@.take(i as int),
        decreases v.len() - i,
    {
        push_char(&mut s, v[i]);
        assert(v@.take(i as int).push(v@[i as int]) =~= v@.take(i + 1));
        i = i + 1;
    }
    assert(v@.take(v@.len() as int) =~= v@);
    s
}

/// Appends every character of `src` to `dst`.
pub fn extend_chars(dst: &mut Vec<char>, src: &[char])
    ensures
        final(dst)@ == old(dst)@ + src@,
{
    let mut i: usize = 0;
    while i < src.len()
        invariant
            i <= src.len(),
            dst@ == old(dst)@ + src@.take(i as int),
        decreases src.len() - i,
    {
        dst.push(src[i]);
        assert(old(dst)@ + src@.take(i as int).push(src@[i as int]) =~= old(dst)@ + src@.take(
            i + 1,
        ));
        i = i + 1;
    }
    assert(src@.take(src@.len() as int) =~= src@);
}

/// The characters of `s` for which `p` holds, in order.
pub open spec fn keep_where(s: Seq<char>, p: spec_fn(char) -> bool) -> Seq<char>
    decreases s.len(),
{
    if s.len() == 0 {
        seq![]
    } else if p(s.last()) {
        keep_where(s.drop_last(), p).push(s.last())
    } else {
        keep_where(s.drop_last(), p)
    }
}

/// The length in bytes of the UTF-8 encoding of `s`, as `str::len`
/// reports it.
pub open spec fn byte_len(s: Seq<char>) -> nat {
    (vstd::utf8::encode_utf8(s).len() as usize) as nat
}

/// Appends every character of `s` to `dst`.
pub fn push_str_chars(dst: &mut Vec<char>, s: &str)
    ensures
        final(dst)@ == old(dst)@ + s@,
{
    let cs = chars_of(s);
    extend_chars(dst, cs.as_slice());
}

/// A copy of `v[from..to]`.
pub fn slice_chars(v: &[char], from: usize, to: usize) -> (r: Vec<char>)
    requires
        from <= to <= v@.len(),
    ensures
        r@ == v@.subrange(from as int, to as int),
{
    let mut r: Vec<char> = Vec::new();
    let mut i = from;
    while i < to
        invariant
            from <= i <= to <= v@.len(),
            r@ == v@.subrange(from as int, i as int),
        decreases to - i,
    {
        r.push(v[i]);
        assert(v@.subrange(from as int, i as int).push(v@[i as int]) =~= v@.subrange(
            from as int,
            i + 1,
        ));
        i = i + 1;
    }
    r
}

/// Whether `s[at..]` begins with `prefix`.
pub open spec fn has_prefix_at(s: Seq<char>, at: int, prefix: Seq<char>) -> bool {
    &&& 0 <= at
    &&& at + prefix.len() <= s.len()
    &&& s.subrange(at, at + prefix.len()) == prefix
}

/// Whether `s[at..]` begins with `prefix`.
pub fn starts_with_at(s: &[char], at: usize, prefix: &[char]) -> (b: bool)
    requires
        at <= s@.len(),
    ensures
        b == has_prefix_at(s@, at as int, prefix@),
{
    if prefix.len() > s.len() - at {
        assert(!has_prefix_at(s@, at as int, prefix@));
        return false;
    }
    let mut i: usize = 0;
    while i < prefix.len()
        invariant
            at + prefix@.len() <= s@.len(),
            s@.len() == s.len(),
            i <= prefix@.len(),
            forall|j: int| 0 <= j < i ==> s@[at + j] == prefix@[j],
        decreases prefix.len() - i,
    {
        if s[at + i] != prefix[i] {
            assert(s@.subrange(at as int, at + prefix@.len())[i as int] != prefix@[i as int]);
            return false;
        }
        i = i + 1;
    }
    assert(s@.subrange(at as int, at + prefix@.len()) =~= prefix@);
    true
}

/// Whether `s` contains `c`.
pub fn contains_char(s: &[char], c: char) -> (b: bool)
    ensures
        b == s@.contains(c),
{
    let mut i: usize = 0;
    while i < s.len()
        invariant
            i <= s@.len(),
            forall|j: int| 0 <= j < i ==> s@[j] != c,
        decreases s.len() - i,
    {
        if s[i] == c {
            return true;
        }
        i = i + 1;
    }
    false
}

/// The index of the first `c` in `s`, or -1 when there is none.
pub open spec fn index_of(s: Seq<char>, c: char) -> int
    decreases s.len(),
{
    if s.len() == 0 {
        -1
    } else if s[0] == c {
        0
    } else {
        let r = index_of(s.drop_first(), c);
        if r < 0 {
            -1
        } else {
            r + 1
        }
    }
}

pub proof fn lemma_index_of(s: Seq<char>, c: char)
    ensures
        -1 <= index_of(s, c) < s.len(),
        index_of(s, c) == -1 <==> !s.contains(c),
        index_of(s, c) >= 0 ==> s[index_of(s, c)] == c,
        forall|j: int| 0 <= j < index_of(s, c) ==> s[j] != c,
        index_of(s, c) == -1 ==> forall|j: int| 0 <= j < s.len() ==> s[j] != c,
    decreases s.len(),
{
    if s.len() > 0 {
        lemma_index_of(s.drop_first(), c);
        if s[0] != c {
            assert forall|j: int| 0 < j < s.len() implies s[j] == s.drop_first()[j - 1] by {}
            if index_of(s.drop_first(), c) == -1 {
                assert forall|j: int| 0 <= j < s.len() implies s[j] != c by {
                    if j > 0 {
                        assert(s[j] == s.drop_first()[j - 1]);
                    }
                }
            } else {
                assert(s.drop_first().contains(c));
                let k = index_of(s.drop_first(), c);
                assert(s[k + 1] == c);
            }
        } else {
            assert(s.contains(c)) by {
                assert(s[0] == c);
            }
        }
    }
}

/// Any index with the defining property of `index_of` is `index_of`.
pub proof fn lemma_index_of_unique(s: Seq<char>, c: char, k: int)
    requires
        0 <= k < s.len(),
        s[k] == c,
        forall|j: int| 0 <= j < k ==> s[j] != c,
    ensures
        index_of(s, c) == k,
{
    lemma_index_of(s, c);
    assert(s.contains(c));
}

/// The index of the first `c` in `s[from..]`, relative to `from`, or `None`.
pub fn find_char_from(s: &[char], from: usize, c: char) -> (r: Option<usize>)
    requires
        from <= s@.len(),
    ensures
        match r {
            Some(k) => from <= k < s@.len() && k - from == index_of(
                s@.subrange(from as int, s@.len() as int),
                c,
            ),
            None => index_of(s@.subrange(from as int, s@.len() as int), c) == -1,
        },
{
    let ghost rest = s@.subrange(from as int, s@.len() as int);
    proof {
        lemma_index_of(rest, c);
    }
    let mut i = from;
    while i < s.len()
        invariant
            from <= i <= s@.len(),
            rest == s@.subrange(from as int, s@.len() as int),
            forall|j: int| from <= j < i ==> s@[j] != c,
        decreases s.len() - i,
    {
        if s[i] == c {
            proof {
                assert(rest[i - from] == c);
                assert forall|j: int| 0 <= j < i - from implies rest[j] != c by {
                    assert(rest[j] == s@[j + from]);
                }
                lemma_index_of_unique(rest, c, i - from);
            }
            return Some(i);
        }
        i = i + 1;
    }
    proof {
        assert forall|j: int| 0 <= j < rest.len() implies rest[j] != c by {
            assert(rest[j] == s@[j + from]);
        }
        if index_of(rest, c) >= 0 {
            let k = index_of(rest, c);
            assert(rest[k] == c);
        }
    }
    None
}

/// The character sequences held by a vector of character vectors.
pub open spec fn seqs(v: Seq<Vec<char>>) -> Seq<Seq<char>> {
    v.map_values(|w: Vec<char>| w@)
}

// ---------------------------------------------------------------------
// Word splitting
// ---------------------------------------------------------------------
/// Left-to-right tokenizer state after reading `s`: the words completed so
/// far and the word currently being read.
pub open spec fn ws_state(s: Seq<char>) -> (Seq<Seq<char>>, Seq<char>)
    decreases s.len(),
{
    if s.len() == 0 {
        (seq![], seq![])
    } else {
        let prev = ws_state(s.drop_last());
        let c = s.last();
        if is_ws(c) {
            if prev.1.len() > 0 {
                (prev.0.push(prev.1), seq![])
            } else {
                (prev.0, seq![])
            }
        } else {
            (prev.0, prev.1.push(c))
        }
    }
}

/// The maximal runs of non-whitespace characters of `s`, in order: what
/// `str::split_whitespace` yields.
pub open spec fn split_ws(s: Seq<char>) -> Seq<Seq<char>> {
    let st = ws_state(s);
    if st.1.len() > 0 {
        st.0.push(st.1)
    } else {
        st.0
    }
}

/// `parts` joined with `sep` between each pair, as `[T]::join` does.
pub open spec fn join(parts: Seq<Seq<char>>, sep: Seq<char>) -> Seq<char>
    decreases parts.len(),
{
    if parts.len() == 0 {
        seq![]
    } else if parts.len() == 1 {
        parts[0]
    } else {
        join(parts.drop_last(), sep) + sep + parts.last()
    }
}

/// `str::split_whitespace`, as character vectors.
pub fn split_whitespace(s: &[char]) -> (words: Vec<Vec<char>>)
    ensures
        seqs(words@) == split_ws(s@),
{
    let mut words: Vec<Vec<char>> = Vec::new();
    let mut cur: Vec<char> = Vec::new();
    let mut i: usize = 0;
    while i < s.len()
        invariant
            i <= s@.len(),
            (seqs(words@), cur@) == ws_state(s@.take(i as int)),
        decreases s.len() - i,
    {
        assert(s@.take(i + 1).drop_last() =~= s@.take(i as int));
        let c = s[i];
        if is_whitespace(c) {
            if cur.len() > 0 {
                let w = cur;
                words.push(w);
                cur = Vec::new();
                assert(seqs(words@) =~= ws_state(s@.take(i as int)).0.push(
                    ws_state(s@.take(i as int)).1,
                ));
            }
        } else {
            cur.push(c);
        }
        i = i + 1;
    }
    assert(s@.take(s@.len() as int) =~= s@);
    if cur.len() > 0 {
        let ghost before = seqs(words@);
        words.push(cur);
        assert(seqs(words@) =~= before.push(ws_state(s@).1));
    }
    words
}

/// `parts` joined with `sep`.
pub fn join_chars(parts: &Vec<Vec<char>>, sep: &[char]) -> (r: Vec<char>)
    ensures
        r@ == join(seqs(parts@), sep@),
{
    let mut r: Vec<char> = Vec::new();
    let mut i: usize = 0;
    while i < parts.len()
        invariant
            i <= parts@.len(),
            r@ == join(seqs(parts@).take(i as int), sep@),
        decreases parts.len() - i,
    {
        let ghost dv = seqs(parts@);
        assert(dv.take(i + 1).drop_last() =~= dv.take(i as int));
        if i > 0 {
            extend_chars(&mut r, sep);
        } else {
            assert(dv.take(1) =~= seq![dv[0]]);
        }
        extend_chars(&mut r, parts[i].as_slice());
        i = i + 1;
    }
    assert(seqs(parts@).take(parts@.len() as int) =~= seqs(parts@));
    r
}

/// `split_whitespace` then `join(" ")`: every whitespace run becomes one
/// space, and the ends are trimmed.
pub open spec fn collapse_ws(s: Seq<char>) -> Seq<char> {
    join(split_ws(s), seq![' '])
}

/// Collapse whitespace runs to single spaces and trim both ends.
pub fn collapse_whitespace(s: &[char]) -> (r: Vec<char>)
    ensures
        r@ == collapse_ws(s@),
{
    let words = split_whitespace(s);
    let sep = [' '];
    let r = join_chars(&words, &sep);
    assert(sep@ =~= seq![' ']);
    r
}

// ---------------------------------------------------------------------
// Line splitting
// ---------------------------------------------------------------------
/// A line read up to a `\n` loses one trailing `\r`.
pub open spec fn strip_cr(line: Seq<char>) -> Seq<char> {
    if line.len() > 0 && line.last() == '\r' {
        line.drop_last()
    } else {
        line
    }
}

/// Line reader state after reading `s`: lines completed so far and the
/// unterminated line being read.
pub open spec fn lines_state(s: Seq<char>) -> (Seq<Seq<char>>, Seq<char>)
    decreases s.len(),
{
    if s.len() == 0 {
        (seq![], seq![])
    } else {
        let prev = lines_state(s.drop_last());
        let c = s.last();
        if c == '\n' {
            (prev.0.push(strip_cr(prev.1)), seq![])
        } else {
            (prev.0, prev.1.push(c))
        }
    }
}

/// What `str::lines` yields: split at `\n`, a `\r` right before the `\n`
/// dropped, and no empty line after a final line ending.
pub open spec fn lines(s: Seq<char>) -> Seq<Seq<char>> {
    let st = lines_state(s);
    if st.1.len() > 0 {
        st.0.push(st.1)
    } else {
        st.0
    }
}

/// `str::lines`, as character vectors.
pub fn split_lines(s: &[char]) -> (ls: Vec<Vec<char>>)
    ensures
        seqs(ls@) == lines(s@),
{
    let mut ls: Vec<Vec<char>> = Vec::new();
    let mut cur: Vec<char> = Vec::new();
    let mut i: usize = 0;
    while i < s.len()
        invariant
            i <= s@.len(),
            (seqs(ls@), cur@) == lines_state(s@.take(i as int)),
        decreases s.len() - i,
    {
        assert(s@.take(i + 1).drop_last() =~= s@.take(i as int));
        let c = s[i];
        if c == '\n' {
            let ghost before = seqs(ls@);
            let ghost cur_v = cur@;
            if cur.len() > 0 && cur[cur.len() - 1] == '\r' {
                cur.pop();
            }
            let line = cur;
            ls.push(line);
            cur = Vec::new();
            assert(seqs(ls@) =~= before.push(strip_cr(cur_v)));
        } else {
            cur.push(c);
        }
        i = i + 1;
    }
    assert(s@.take(s@.len() as int) =~= s@);
    if cur.len() > 0 {
        let ghost before = seqs(ls@);
        ls.push(cur);
        assert(seqs(ls@) =~= before.push(lines_state(s@).1));
    }
    ls
}

// ---------------------------------------------------------------------
// Trimming
// ---------------------------------------------------------------------
/// The number of leading characters of `s` satisfying whitespace.
pub open spec fn lead_ws(s: Seq<char>) -> nat
    decreases s.len(),
{
    if s.len() > 0 && is_ws(s[0]) {
        1 + lead_ws(s.drop_first())
    } else {
        0
    }
}

/// `str::trim_start`.
pub open spec fn trim_start(s: Seq<char>) -> Seq<char> {
    s.subrange(lead_ws(s) as int, s.len() as int)
}

/// The number of leading characters of `s` equal to `c`.
pub open spec fn lead_char(s: Seq<char>, c: char) -> nat
    decreases s.len(),
{
    if s.len() > 0 && s[0] == c {
        1 + lead_char(s.drop_first(), c)
    } else {
        0
    }
}

/// `str::trim_start_matches` with a single character.
pub open spec fn trim_start_char(s: Seq<char>, c: char) -> Seq<char> {
    s.subrange(lead_char(s, c) as int, s.len() as int)
}

pub proof fn lemma_lead_ws(s: Seq<char>)
    ensures
        lead_ws(s) <= s.len(),
        forall|j: int| 0 <= j < lead_ws(s) ==> is_ws(s[j]),
        lead_ws(s) < s.len() ==> !is_ws(s[lead_ws(s) as int]),
    decreases s.len(),
{
    if s.len() > 0 && is_ws(s[0]) {
        lemma_lead_ws(s.drop_first());
        assert forall|j: int| 0 <= j < lead_ws(s) implies is_ws(s[j]) by {
            if j > 0 {
                assert(s[j] == s.drop_first()[j - 1]);
            }
        }
    }
}

pub proof fn lemma_lead_ws_unique(s: Seq<char>, k: int)
    requires
        0 <= k <= s.len(),
        forall|j: int| 0 <= j < k ==> is_ws(s[j]),
        k < s.len() ==> !is_ws(s[k]),
    ensures
        lead_ws(s) == k,
    decreases s.len(),
{
    if k > 0 {
        assert(is_ws(s[0]));
        assert forall|j: int| 0 <= j < k - 1 implies is_ws(s.drop_first()[j]) by {
            assert(s.drop_first()[j] == s[j + 1]);
        }
        if k - 1 < s.len() - 1 {
            assert(s.drop_first()[k - 1] == s[k]);
        }
        lemma_lead_ws_unique(s.drop_first(), k - 1);
    }
}

pub proof fn lemma_lead_char(s: Seq<char>, c: char)
    ensures
        lead_char(s, c) <= s.len(),
        forall|j: int| 0 <= j < lead_char(s, c) ==> s[j] == c,
        lead_char(s, c) < s.len() ==> s[lead_char(s, c) as int] != c,
    decreases s.len(),
{
    if s.len() > 0 && s[0] == c {
        lemma_lead_char(s.drop_first(), c);
        assert forall|j: int| 0 <= j < lead_char(s, c) implies s[j] == c by {
            if j > 0 {
                assert(s[j] == s.drop_first()[j - 1]);
            }
        }
    }
}

pub proof fn lemma_lead_char_unique(s: Seq<char>, c: char, k: int)
    requires
        0 <= k <= s.len(),
        forall|j: int| 0 <= j < k ==> s[j] == c,
        k < s.len() ==> s[k] != c,
    ensures
        lead_char(s, c) == k,
    decreases s.len(),
{
    if k > 0 {
        assert(s[0] == c);
        assert forall|j: int| 0 <= j < k - 1 implies s.drop_first()[j] == c by {
            assert(s.drop_first()[j] == s[j + 1]);
        }
        if k - 1 < s.len() - 1 {
            assert(s.drop_first()[k - 1] == s[k]);
        }
        lemma_lead_char_unique(s.drop_first(), c, k - 1);
    }
}

/// The index of the first non-whitespace character of `s`, or its length.
pub fn count_leading_whitespace(s: &[char]) -> (k: usize)
    ensures
        k == lead_ws(s@),
{
    let mut k: usize = 0;
    while k < s.len() && is_whitespace(s[k])
        invariant
            k <= s@.len(),
            forall|j: int| 0 <= j < k ==> is_ws(s@[j]),
        decreases s.len() - k,
    {
        k = k + 1;
    }
    proof {
        lemma_lead_ws_unique(s@, k as int);
    }
    k
}

/// The number of leading copies of `c` in `s`.
pub fn count_leading_char(s: &[char], c: char) -> (k: usize)
    ensures
        k == lead_char(s@, c),
{
    let mut k: usize = 0;
    while k < s.len() && s[k] == c
        invariant
            k <= s@.len(),
            forall|j: int| 0 <= j < k ==> s@[j] == c,
        decreases s.len() - k,
    {
        k = k + 1;
    }
    proof {
        lemma_lead_char_unique(s@, c, k as int);
    }
    k
}

/// `str::trim_start`.
pub fn trim_start_chars(s: &[char]) -> (r: Vec<char>)
    ensures
        r@ == trim_start(s@),
{
    let k = count_leading_whitespace(s);
    proof {
        lemma_lead_ws(s@);
    }
    slice_chars(s, k, s.len())
}

/// `str::trim_start_matches(c)`.
pub fn trim_start_matching(s: &[char], c: char) -> (r: Vec<char>)
    ensures
        r@ == trim_start_char(s@, c),
{
    let k = count_leading_char(s, c);
    proof {
        lemma_lead_char(s@, c);
    }
    slice_chars(s, k, s.len())
}

// ---------------------------------------------------------------------
// Decimal rendering of integers
// ---------------------------------------------------------------------
/// The number of trailing characters of `s` satisfying whitespace.
pub open spec fn trail_ws(s: Seq<char>) -> nat
    decreases s.len(),
{
    if s.len() > 0 && is_ws(s.last()) {
        1 + trail_ws(s.drop_last())
    } else {
        0
    }
}

/// `str::trim_end`.
pub open spec fn trim_end(s: Seq<char>) -> Seq<char> {
    s.subrange(0, s.len() - trail_ws(s))
}

/// `str::trim`: whitespace removed from both ends.
pub open spec fn trim(s: Seq<char>) -> Seq<char> {
    trim_end(trim_start(s))
}

pub proof fn lemma_trail_ws(s: Seq<char>)
    ensures
        trail_ws(s) <= s.len(),
        forall|j: int| s.len() - trail_ws(s) <= j < s.len() ==> is_ws(s[j]),
        trail_ws(s) < s.len() ==> !is_ws(s[s.len() - trail_ws(s) - 1]),
    decreases s.len(),
{
    if s.len() > 0 && is_ws(s.last()) {
        lemma_trail_ws(s.drop_last());
        assert forall|j: int| s.len() - trail_ws(s) <= j < s.len() implies is_ws(s[j]) by {
            if j < s.len() - 1 {
                assert(s[j] == s.drop_last()[j]);
            }
        }
        if trail_ws(s) < s.len() {
            assert(s[s.len() - trail_ws(s) - 1] == s.drop_last()[s.len() - trail_ws(s) - 1]);
        }
    }
}

pub proof fn lemma_trail_ws_unique(s: Seq<char>, k: int)
    requires
        0 <= k <= s.len(),
        forall|j: int| s.len() - k <= j < s.len() ==> is_ws(s[j]),
        k < s.len() ==> !is_ws(s[s.len() - k - 1]),
    ensures
        trail_ws(s) == k,
    decreases s.len(),
{
    if k > 0 {
        assert(is_ws(s.last()));
        assert forall|j: int| s.len() - 1 - (k - 1) <= j < s.len() - 1 implies is_ws(s.drop_last()[j]) by {
            assert(s.drop_last()[j] == s[j]);
        }
        if k - 1 < s.len() - 1 {
            assert(s.drop_last()[s.len() - 1 - (k - 1) - 1] == s[s.len() - k - 1]);
        }
        lemma_trail_ws_unique(s.drop_last(), k - 1);
    }
}

/// `str::trim_end`.
pub fn trim_end_chars(s: &[char]) -> (r: Vec<char>)
    ensures
        r@ == trim_end(s@),
{
    let mut k: usize = 0;
    while k < s.len() && is_whitespace(s[s.len() - 1 - k])
        invariant
            k <= s@.len(),
            forall|j: int| s@.len() - k <= j < s@.len() ==> is_ws(s@[j]),
        decreases s.len() - k,
    {
        k = k + 1;
    }
    proof {
        lemma_trail_ws_unique(s@, k as int);
    }
    slice_chars(s, 0, s.len() - k)
}

/// `str::trim`.
pub fn trim_chars(s: &[char]) -> (r: Vec<char>)
    ensures
        r@ == trim(s@),
{
    let a = trim_start_chars(s);
    trim_end_chars(a.as_slice())
}

/// The first index at which `pat` occurs in `s`, or -1.
pub open spec fn find_seq(s: Seq<char>, pat: Seq<char>) -> int
    decreases s.len(),
{
    if has_prefix_at(s, 0, pat) {
        0
    } else if s.len() == 0 {
        -1
    } else {
        let r = find_seq(s.drop_first(), pat);
        if r < 0 {
            -1
        } else {
            r + 1
        }
    }
}

pub proof fn lemma_find_seq(s: Seq<char>, pat: Seq<char>)
    ensures
        -1 <= find_seq(s, pat) <= s.len(),
        find_seq(s, pat) >= 0 ==> has_prefix_at(s, find_seq(s, pat), pat),
        forall|j: int|
            0 <= j <= s.len() && (j < find_seq(s, pat) || find_seq(s, pat) == -1) ==> !has_prefix_at(s, j, pat),
    decreases s.len(),
{
    if !has_prefix_at(s, 0, pat) && s.len() > 0 {
        lemma_find_seq(s.drop_first(), pat);
        let t = s.drop_first();
        assert forall|j: int| 1 <= j <= s.len() implies has_prefix_at(s, j, pat) == has_prefix_at(t, j - 1, pat) by {
            if j + pat.len() <= s.len() {
                assert(s.subrange(j, j + pat.len()) =~= t.subrange(j - 1, j - 1 + pat.len()));
            }
        }
        if find_seq(t, pat) >= 0 {
            assert(has_prefix_at(t, find_seq(t, pat), pat));
        }
    }
}

pub proof fn lemma_find_seq_unique(s: Seq<char>, pat: Seq<char>, k: int)
    requires
        -1 <= k <= s.len(),
        k >= 0 ==> has_prefix_at(s, k, pat),
        forall|j: int| 0 <= j <= s.len() && (j < k || k == -1) ==> !has_prefix_at(s, j, pat),
    ensures
        find_seq(s, pat) == k,
{
    lemma_find_seq(s, pat);
    let r = find_seq(s, pat);
    if r >= 0 && k >= 0 {
        if r < k {
            assert(!has_prefix_at(s, r, pat));
        } else if k < r {
            assert(!has_prefix_at(s, k, pat));
        }
    } else if r >= 0 {
        assert(!has_prefix_at(s, r, pat));
    } else if k >= 0 {
        assert(!has_prefix_at(s, k, pat));
    }
}

/// The first index at or after `from` at which `pat` occurs in `s`,
/// relative to `from`, or `None`.
pub fn find_seq_from(s: &[char], from: usize, pat: &[char]) -> (r: Option<usize>)
    requires
        from <= s@.len(),
    ensures
        match r {
            Some(k) => from <= k <= s@.len() && k - from == find_seq(s@.subrange(from as int, s@.len() as int), pat@),
            None => find_seq(s@.subrange(from as int, s@.len() as int), pat@) == -1,
        },
{
    let ghost rest = s@.subrange(from as int, s@.len() as int);
    let mut i = from;
    while i <= s.len()
        invariant
            from <= i <= s@.len() + 1,
            rest == s@.subrange(from as int, s@.len() as int),
            forall|j: int| 0 <= j < i - from && j <= rest.len() ==> !has_prefix_at(rest, j, pat@),
        decreases s@.len() + 1 - i,
    {
        let hit = starts_with_at(s, i, pat);
        proof {
            if i + pat@.len() <= s@.len() {
                assert(s@.subrange(i as int, i + pat@.len()) =~= rest.subrange(i - from, i - from + pat@.len()));
            }
        }
        if hit {
            proof {
                lemma_find_seq_unique(rest, pat@, i - from);
            }
            return Some(i);
        }
        if i == s.len() {
            proof {
                lemma_find_seq_unique(rest, pat@, -1);
            }
            return None;
        }
        i = i + 1;
    }
    proof {
        lemma_find_seq_unique(rest, pat@, -1);
    }
    None
}

/// The decimal digit character for `d < 10`.
pub open spec fn digit_char(d: nat) -> char {
    if d == 0 {
        '0'
    } else if d == 1 {
        '1'
    } else if d == 2 {
        '2'
    } else if d == 3 {
        '3'
    } else if d == 4 {
        '4'
    } else if d == 5 {
        '5'
    } else if d == 6 {
        '6'
    } else if d == 7 {
        '7'
    } else if d == 8 {
        '8'
    } else {
        '9'
    }
}

/// The decimal form of `n`, as `{}` formatting writes an unsigned integer.
pub open spec fn decimal(n: nat) -> Seq<char>
    decreases n,
{
    if n < 10 {
        seq![digit_char(n)]
    } else {
        decimal(n / 10).push(digit_char(n % 10))
    }
}

pub fn digit(d: u64) -> (c: char)
    requires
        d < 10,
    ensures
        c == digit_char(d as nat),
{
    if d == 0 {
        '0'
    } else if d == 1 {
        '1'
    } else if d == 2 {
        '2'
    } else if d == 3 {
        '3'
    } else if d == 4 {
        '4'
    } else if d == 5 {
        '5'
    } else if d == 6 {
        '6'
    } else if d == 7 {
        '7'
    } else if d == 8 {
        '8'
    } else {
        '9'
    }
}

/// The decimal digits of `n`.
pub fn decimal_chars(n: u64) -> (r: Vec<char>)
    ensures
        r@ == decimal(n as nat),
    decreases n,
{
    if n < 10 {
        let mut r = Vec::new();
        r.push(digit(n));
        assert(r@ =~= seq![digit_char(n as nat)]);
        r
    } else {
        let mut r = decimal_chars(n / 10);
        r.push(digit(n % 10));
        r
    }
}

pub proof fn lemma_decimal_len(n: nat)
    ensures
        decimal(n).len() >= 1,
        n < 10 ==> decimal(n).len() == 1,
        10 <= n < 100 ==> decimal(n).len() == 2,
    decreases n,
{
    if n >= 10 {
        lemma_decimal_len(n / 10);
    }
}

} // verus!
