//! One saved conversation: its id, its summary row, the whole record, and
//! the title derived from it. Also the ordering of summary rows newest
//! first and the relative "5m ago" form the Sessions tab shows.
use vstd::prelude::*;

use crate::api::{content_text, Message, Role};
use crate::paths::{join_path, joined_path};
use crate::seqs::{first_where, lemma_first_where, lemma_first_where_unique};
use crate::text::{
    chars_of, collapse_whitespace, collapse_ws, decimal, decimal_chars, digit_char, is_ws, push_str_chars, split_ws, string_of,
};
use crate::transcript::{Block, BlockKind, Transcript};
use crate::speech_laws::none_of;
use crate::speech_urls::is_word;

verus! {

/// The longest a derived title may be, in characters.
pub const MAX_TITLE_LEN: usize = 60;

/// A Unix timestamp in seconds.
pub type Timestamp = u64;

// ---------------------------------------------------------------------
// Session ids
// ---------------------------------------------------------------------
/// The lower-case hexadecimal digit for `d < 16`.
pub open spec fn hex_char(d: nat) -> char {
    if d < 10 {
        digit_char(d)
    } else {
        ((('a' as int) + d - 10) as u32) as char
    }
}

/// The last `k` hexadecimal digits of `v`, most significant first, padded
/// with zeros.
pub open spec fn hex_digits(v: nat, k: nat) -> Seq<char>
    decreases k,
{
    if k == 0 {
        seq![]
    } else {
        hex_digits(v / 16, (k - 1) as nat).push(hex_char(v % 16))
    }
}

/// The hyphenated form of a UUID whose 128 bits, most significant first,
/// are `v`: 32 lower-case hexadecimal digits grouped 8-4-4-4-12.
pub open spec fn uuid_text(v: u128) -> Seq<char> {
    let h = hex_digits(v as nat, 32);
    h.subrange(0, 8) + seq!['-'] + h.subrange(8, 12) + seq!['-'] + h.subrange(12, 16) + seq!['-']
        + h.subrange(16, 20) + seq!['-'] + h.subrange(20, 32)
}

/// A version-4 UUID's fixed bits, in its 128-bit big-endian value: the
/// version nibble (bits 76 to 79) is 4 and the variant (bits 62 and 63)
/// is `10`.
pub open spec fn is_v4(v: u128) -> bool {
    &&& (v >> 76u32) & 0xfu128 == 4u128
    &&& (v >> 62u32) & 0x3u128 == 2u128
}

/// A random version-4 UUID as its 128-bit value (`uuid::Uuid::new_v4`,
/// then `as_u128`). The crate masks its random bits so that the version
/// and variant bits are those of version 4; the other 122 bits are
/// random, and nothing is stated of them.
#[verifier::external_body]
pub(crate) fn random_uuid() -> (v: u128)
    ensures
        is_v4(v),
{
    uuid::Uuid::new_v4().as_u128()
}

/// The hyphenated string form of the UUID with value `v`
/// (`uuid::Uuid::from_u128(v).to_string()`). The crate's `Display` writes
/// the big-endian bytes as lower-case hex digits grouped 8-4-4-4-12; this
/// contract states exactly that.
#[verifier::external_body]
fn uuid_string(v: u128) -> (s: String)
    ensures
        s@ == uuid_text(v),
{
    uuid::Uuid::from_u128(v).to_string()
}

/// Identifies one saved session: a UUID, carried as its 128-bit value.
#[derive(Debug, Clone, Copy, PartialEq, Eq, Hash, Structural)]
pub struct SessionId(pub u128);

impl SessionId {
    /// A fresh, random id for a new session: a version-4 UUID.
    pub fn new() -> (s: SessionId)
        ensures
            is_v4(s.0),
    {
        SessionId(random_uuid())
    }

    /// The id's hyphenated UUID form, which is safe as a file stem.
    pub fn as_str(&self) -> (s: String)
        ensures
            s@ == uuid_text(self.0),
    {
        uuid_string(self.0)
    }
}

impl Default for SessionId {
    fn default() -> (s: SessionId)
        ensures
            is_v4(s.0),
    {
        SessionId::new()
    }
}

/// Every character of `uuid_text(v)` is a lower-case hex digit or `-`.
pub proof fn lemma_hex_digits(v: nat, k: nat)
    ensures
        hex_digits(v, k).len() == k,
        forall|i: int|
            0 <= i < k ==> {
                let c = #[trigger] hex_digits(v, k)[i];
                ('0' <= c <= '9') || ('a' <= c <= 'f')
            },
    decreases k,
{
    if k > 0 {
        lemma_hex_digits(v / 16, (k - 1) as nat);
        let prev = hex_digits(v / 16, (k - 1) as nat);
        assert forall|i: int| 0 <= i < k implies {
            let c = #[trigger] hex_digits(v, k)[i];
            ('0' <= c <= '9') || ('a' <= c <= 'f')
        } by {
            if i < k - 1 {
                assert(hex_digits(v, k)[i] == prev[i]);
            }
        }
    }
}

/// A session id's string form is a safe file stem: 36 characters long,
/// with no path separator and no colon, so it can never name a file
/// outside the sessions directory or be refused as a Windows file name.
pub proof fn lemma_session_id_is_a_safe_file_stem(id: SessionId)
    ensures
        uuid_text(id.0).len() == 36,
        !uuid_text(id.0).contains('/'),
        !uuid_text(id.0).contains('\\'),
        !uuid_text(id.0).contains(':'),
{
    lemma_hex_digits(id.0 as nat, 32);
    let h = hex_digits(id.0 as nat, 32);
    let t = uuid_text(id.0);
    assert forall|i: int| 0 <= i < t.len() implies (t[i] != '/' && t[i] != '\\' && t[i] != ':') by {
        if i < 8 {
            assert(t[i] == h[i]);
        } else if i == 8 || i == 13 || i == 18 || i == 23 {
        } else if i < 13 {
            assert(t[i] == h[i - 1]);
        } else if i < 18 {
            assert(t[i] == h[i - 2]);
        } else if i < 23 {
            assert(t[i] == h[i - 3]);
        } else {
            assert(t[i] == h[i - 4]);
        }
    }
}

// ---------------------------------------------------------------------
// Timestamps
// ---------------------------------------------------------------------
/// Seconds since the Unix epoch by the system clock
/// (`SystemTime::now().duration_since(UNIX_EPOCH)`, then `as_secs`),
/// `None` for a clock set before the epoch. Nothing is stated of the
/// value: it is the time.
#[verifier::external_body]
fn unix_seconds() -> Option<u64> {
    match std::time::SystemTime::now().duration_since(std::time::UNIX_EPOCH) {
        Ok(d) => Some(d.as_secs()),
        Err(_) => None,
    }
}

/// The current time as a `Timestamp`, or 0 on a clock set before the
/// Unix epoch.
pub fn now_timestamp() -> Timestamp {
    match unix_seconds() {
        Some(secs) => secs,
        None => 0,
    }
}

// ---------------------------------------------------------------------
// Where records are kept
// ---------------------------------------------------------------------
/// The directory the saved sessions of a project live in:
/// `<project_root>/.deepseek/sessions`.
pub fn sessions_dir(project_root: &str) -> (r: String)
    ensures
        r@ == joined_path(project_root@, ".deepseek/sessions"@),
{
    join_path(project_root, ".deepseek/sessions")
}

/// The file a session is saved in: its id, then `.json`.
pub fn record_file_name(id: SessionId) -> (r: String)
    ensures
        r@ == uuid_text(id.0) + ".json"@,
{
    let mut t = chars_of(id.as_str().as_str());
    push_str_chars(&mut t, ".json");
    string_of(t.as_slice())
}

/// The file a save is first written to, then renamed from: the record's
/// file name with `.tmp` after it.
pub fn temp_file_name(id: SessionId) -> (r: String)
    ensures
        r@ == uuid_text(id.0) + ".json.tmp"@,
{
    let mut t = chars_of(id.as_str().as_str());
    push_str_chars(&mut t, ".json.tmp");
    string_of(t.as_slice())
}

/// Where a project's saved sessions live: one `<id>.json` file each
/// under `sessions_dir`.
#[derive(Debug, Clone, PartialEq, Eq)]
pub struct SessionStore {
    pub sessions_dir: String,
}

impl SessionStore {
    /// A store rooted directly at `sessions_dir`.
    pub fn new(sessions_dir: String) -> (s: SessionStore)
        ensures
            s.sessions_dir == sessions_dir,
    {
        SessionStore { sessions_dir }
    }

    /// The store of a project: `<project_root>/.deepseek/sessions`.
    pub fn for_project(project_root: &str) -> (s: SessionStore)
        ensures
            s.sessions_dir@ == joined_path(project_root@, ".deepseek/sessions"@),
    {
        SessionStore { sessions_dir: sessions_dir(project_root) }
    }

    /// The file a session is saved in.
    pub fn record_path(&self, id: SessionId) -> (r: String)
        ensures
            r@ == joined_path(self.sessions_dir@, uuid_text(id.0) + ".json"@),
    {
        let name = record_file_name(id);
        join_path(self.sessions_dir.as_str(), name.as_str())
    }

    /// The file a save is first written to, then renamed from.
    pub fn temp_path(&self, id: SessionId) -> (r: String)
        ensures
            r@ == joined_path(self.sessions_dir@, uuid_text(id.0) + ".json.tmp"@),
    {
        let name = temp_file_name(id);
        join_path(self.sessions_dir.as_str(), name.as_str())
    }
}

// ---------------------------------------------------------------------
// Summaries and records
// ---------------------------------------------------------------------
/// The summary row the Sessions tab shows for a saved conversation.
#[derive(Debug, Clone, PartialEq, Eq)]
pub struct SessionMeta {
    pub id: SessionId,
    pub title: String,
    pub created_at: Timestamp,
    pub updated_at: Timestamp,
    /// The name of the backend entry the conversation ran on.
    pub backend: String,
    pub model: String,
    pub message_count: usize,
}

/// A whole saved conversation: summary, API message history, display
/// transcript, and the command-line backend's own session id when it ran there.
#[derive(Debug)]
pub struct SessionRecord {
    pub meta: SessionMeta,
    pub messages: Vec<Message>,
    pub transcript: Transcript,
    pub claude_session_id: Option<String>,
}

// ---------------------------------------------------------------------
// Titles
// ---------------------------------------------------------------------
/// `text` capped at `MAX_TITLE_LEN` characters: unchanged when short
/// enough, else its first `MAX_TITLE_LEN - 1` characters and `…`.
pub open spec fn capped_title(text: Seq<char>) -> Seq<char> {
    if text.len() <= MAX_TITLE_LEN {
        text
    } else {
        text.take(MAX_TITLE_LEN - 1) + seq!['\u{2026}']
    }
}

/// Cap `text` at `MAX_TITLE_LEN` characters, marking a cut with `…`.
pub fn truncate_title(text: &[char]) -> (r: String)
    ensures
        r@ == capped_title(text@),
{
    if text.len() <= MAX_TITLE_LEN {
        return string_of(text);
    }
    let mut out: Vec<char> = Vec::new();
    let mut i: usize = 0;
    while i < MAX_TITLE_LEN - 1
        invariant
            i <= MAX_TITLE_LEN - 1,
            MAX_TITLE_LEN < text@.len(),
            out@ == text@.take(i as int),
        decreases MAX_TITLE_LEN - 1 - i,
    {
        out.push(text[i]);
        assert(text@.take(i as int).push(text@[i as int]) =~= text@.take(i + 1));
        i = i + 1;
    }
    out.push('\u{2026}');
    string_of(out.as_slice())
}

/// A derived title is never longer than `MAX_TITLE_LEN` characters, and
/// a cut one ends in an ellipsis.
pub proof fn lemma_title_len(messages: Seq<Message>, blocks: Seq<Block>)
    ensures
        title_of(messages, blocks).len() <= MAX_TITLE_LEN,
        match title_source(messages, blocks) {
            Some(t) => collapse_ws(t).len() > MAX_TITLE_LEN ==> title_of(messages, blocks).last() == '\u{2026}',
            None => true,
        },
{
    reveal_strlit("New conversation");
}

/// A derived title is one line: no character of it is a line break, nor
/// any other whitespace but a single space between words.
pub proof fn lemma_title_is_one_line(messages: Seq<Message>, blocks: Seq<Block>)
    ensures
        forall|i: int|
            0 <= i < title_of(messages, blocks).len() ==> {
                let c = #[trigger] title_of(messages, blocks)[i];
                c == ' ' || !is_ws(c)
            },
{
    reveal_strlit("New conversation");
    let p = |c: char| !(c == ' ' || !is_ws(c));
    let t = title_of(messages, blocks);
    match title_source(messages, blocks) {
        Some(src) => {
            let words = split_ws(src);
            crate::speech_urls::lemma_split_words(src);
            assert forall|k: int| 0 <= k < words.len() implies none_of(#[trigger] words[k], p) by {
                assert(is_word(words[k]));
            }
            crate::speech_laws::lemma_none_of_join(words, seq![' '], p);
            let c = collapse_ws(src);
            if c.len() > MAX_TITLE_LEN {
                crate::speech_laws::lemma_none_of_subrange(c, p, 0, MAX_TITLE_LEN - 1);
                assert(c.take(MAX_TITLE_LEN - 1) =~= c.subrange(0, MAX_TITLE_LEN - 1));
                assert(!p('\u{2026}')) by {
                    assert(('\u{2026}' as u32) == 0x2026);
                }
                crate::speech_laws::lemma_none_of_concat(c.take(MAX_TITLE_LEN - 1), seq!['\u{2026}'], p);
            }
            assert(none_of(t, p));
        },
        None => {},
    }
    assert forall|i: int| 0 <= i < t.len() implies {
        let c = #[trigger] t[i];
        c == ' ' || !is_ws(c)
    } by {
        if title_source(messages, blocks) is Some && collapse_ws(title_source(messages, blocks)->0).len() > 0 {
            assert(!p(t[i]));
        }
    }
}

/// The message is a user message.
pub open spec fn is_user_message(m: Message) -> bool {
    m.role == Role::User
}

/// The block is a user block.
pub open spec fn is_user_block(b: Block) -> bool {
    b.kind is User
}

/// The text a title is made from: the first user message's text, when it
/// has plain-text content; else the first user block's text; else none.
pub open spec fn title_source(messages: Seq<Message>, blocks: Seq<Block>) -> Option<Seq<char>> {
    let m = first_where(messages, |m: Message| is_user_message(m));
    let from_messages = if m >= 0 && messages[m].content is Some {
        content_text(messages[m].content->0)
    } else {
        None
    };
    if from_messages is Some {
        from_messages
    } else {
        let b = first_where(blocks, |b: Block| is_user_block(b));
        if b >= 0 {
            Some(blocks[b].kind->User_text@)
        } else {
            None
        }
    }
}

/// A conversation's title: the source text on one line (whitespace runs
/// collapsed to single spaces, the ends trimmed) capped at
/// `MAX_TITLE_LEN` characters, or `New conversation` when there is no
/// source or it is blank.
pub open spec fn title_of(messages: Seq<Message>, blocks: Seq<Block>) -> Seq<char> {
    match title_source(messages, blocks) {
        Some(t) => if collapse_ws(t).len() == 0 {
            "New conversation"@
        } else {
            capped_title(collapse_ws(t))
        },
        None => "New conversation"@,
    }
}

/// A title is made from the first user message when that message has
/// plain text, whatever the transcript holds.
pub proof fn lemma_title_from_first_user_message(messages: Seq<Message>, blocks: Seq<Block>, m: int, t: Seq<char>)
    requires
        0 <= m < messages.len(),
        messages[m].role == Role::User,
        forall|j: int| 0 <= j < m ==> messages[j].role != Role::User,
        messages[m].content matches Some(c) && content_text(c) == Some(t),
    ensures
        title_source(messages, blocks) == Some(t),
{
    let pm = |x: Message| is_user_message(x);
    assert forall|j: int| 0 <= j < m implies !pm(#[trigger] messages[j]) by {}
    lemma_first_where_unique(messages, pm, m);
}

/// With no user message that has plain text, a title is made from the
/// transcript's first user block: the user block that no other user
/// block comes before, never a later one. So the title is the one that
/// first block alone would give.
pub proof fn lemma_title_from_first_user_block(messages: Seq<Message>, blocks: Seq<Block>, k: int)
    requires
        forall|i: int| 0 <= i < messages.len() && messages[i].role == Role::User
            ==> (messages[i].content matches Some(c) ==> content_text(c) is None),
        0 <= k < blocks.len(),
        blocks[k].kind is User,
        forall|j: int| 0 <= j < k ==> !(blocks[j].kind is User),
    ensures
        title_source(messages, blocks) == Some(blocks[k].kind->User_text@),
        title_of(messages, blocks) == title_of(seq![], seq![blocks[k]]),
{
    let pm = |x: Message| is_user_message(x);
    let pb = |b: Block| is_user_block(b);
    lemma_first_where(messages, pm);
    assert forall|j: int| 0 <= j < k implies !pb(#[trigger] blocks[j]) by {}
    lemma_first_where_unique(blocks, pb, k);
    let one = seq![blocks[k]];
    lemma_first_where_unique(one, pb, 0);
    lemma_first_where_unique(Seq::<Message>::empty(), pm, -1);
}

/// Derive a conversation's title from its message history, falling back
/// to the transcript's first user block when no user message with plain
/// text leads the history.
pub fn derive_title(messages: &[Message], transcript: &Transcript) -> (r: String)
    ensures
        r@ == title_of(messages@, transcript.state().blocks),
{
    let ghost pm = |m: Message| is_user_message(m);
    let ghost pb = |b: Block| is_user_block(b);
    proof {
        lemma_first_where(messages@, pm);
    }
    let mut i: usize = 0;
    while i < messages.len() && !matches!(messages[i].role, Role::User)
        invariant
            i <= messages@.len(),
            pm == (|m: Message| is_user_message(m)),
            forall|j: int| 0 <= j < i ==> !pm(#[trigger] messages@[j]),
        decreases messages.len() - i,
    {
        i = i + 1;
    }
    let mut source: Option<Vec<char>> = None;
    if i < messages.len() {
        proof {
            lemma_first_where_unique(messages@, pm, i as int);
        }
        match &messages[i].content {
            Some(content) => match content.as_text() {
                Some(t) => {
                    source = Some(chars_of(t));
                },
                None => {},
            },
            None => {},
        }
    } else {
        proof {
            lemma_first_where_unique(messages@, pm, -1);
        }
    }
    if source.is_none() {
        let blocks = transcript.blocks();
        proof {
            lemma_first_where(blocks@, pb);
        }
        let mut k: usize = 0;
        while k < blocks.len() && !matches!(blocks[k].kind, BlockKind::User { .. })
            invariant
                k <= blocks@.len(),
                pb == (|b: Block| is_user_block(b)),
                forall|j: int| 0 <= j < k ==> !pb(#[trigger] blocks@[j]),
            decreases blocks.len() - k,
        {
            k = k + 1;
        }
        if k < blocks.len() {
            proof {
                lemma_first_where_unique(blocks@, pb, k as int);
            }
            match &blocks[k].kind {
                BlockKind::User { text } => {
                    source = Some(chars_of(text.as_str()));
                },
                _ => {},
            }
        } else {
            proof {
                lemma_first_where_unique(blocks@, pb, -1);
            }
        }
    }
    match source {
        Some(t) => {
            let one_line = collapse_whitespace(t.as_slice());
            if one_line.len() == 0 {
                string_of(chars_of("New conversation").as_slice())
            } else {
                truncate_title(one_line.as_slice())
            }
        },
        None => string_of(chars_of("New conversation").as_slice()),
    }
}

// ---------------------------------------------------------------------
// Listing order and relative times
// ---------------------------------------------------------------------
/// Summaries ordered newest first by `updated_at`.
pub open spec fn newest_first(metas: Seq<SessionMeta>) -> bool {
    forall|i: int, j: int| 0 <= i < j < metas.len() ==> metas[i].updated_at >= metas[j].updated_at
}

/// Where a row goes among rows already ordered newest first: after every
/// row at least as new, so that rows with equal times keep their order.
pub open spec fn newest_slot(sorted: Seq<SessionMeta>, m: SessionMeta) -> int {
    let k = first_where(sorted, |x: SessionMeta| x.updated_at < m.updated_at);
    if k < 0 {
        sorted.len() as int
    } else {
        k
    }
}

/// `metas` sorted newest first, stably: each row in turn goes after every
/// row at least as new already placed.
pub open spec fn stable_newest_first(metas: Seq<SessionMeta>) -> Seq<SessionMeta>
    decreases metas.len(),
{
    if metas.len() == 0 {
        seq![]
    } else {
        let sorted = stable_newest_first(metas.drop_last());
        sorted.insert(newest_slot(sorted, metas.last()), metas.last())
    }
}

/// Order summary rows by `updated_at`, newest first. Rows with equal
/// times keep the order they came in.
pub fn sort_newest_first(metas: Vec<SessionMeta>) -> (r: Vec<SessionMeta>)
    ensures
        r@ == stable_newest_first(metas@),
        newest_first(r@),
        r@.to_multiset() == metas@.to_multiset(),
{
    let mut out: Vec<SessionMeta> = Vec::new();
    let mut rest = metas;
    let ghost input = rest@;
    let mut idx: usize = 0;
    let n = rest.len();
    assert(out@ =~= input.take(0));
    while idx < n
        invariant
            n == input.len(),
            idx <= n,
            rest@.len() == n - idx,
            rest@ == input.subrange(idx as int, n as int),
            newest_first(out@),
            out@.to_multiset() == input.take(idx as int).to_multiset(),
            out@ == stable_newest_first(input.take(idx as int)),
        decreases n - idx,
    {
        let m = rest.remove(0);
        assert(input.take(idx + 1) =~= input.take(idx as int).push(m));
        let mut pos: usize = out.len();
        while pos > 0 && out[pos - 1].updated_at < m.updated_at
            invariant
                pos <= out@.len(),
                newest_first(out@),
                forall|j: int| pos <= j < out@.len() ==> out@[j].updated_at < m.updated_at,
            decreases pos,
        {
            pos = pos - 1;
        }
        let ghost before = out@;
        proof {
            let p = |x: SessionMeta| x.updated_at < m.updated_at;
            if pos < before.len() {
                assert(p(before[pos as int]));
            }
            assert forall|j: int| 0 <= j < pos implies !p(#[trigger] before[j]) by {
                assert(before[pos - 1].updated_at >= m.updated_at);
            }
            if pos == before.len() {
                lemma_first_where_unique(before, p, -1);
            } else {
                lemma_first_where_unique(before, p, pos as int);
            }
            assert(input.take(idx + 1).drop_last() =~= input.take(idx as int));
            assert(input.take(idx + 1).last() == m);
        }
        out.insert(pos, m);
        proof {
            assert(out@ =~= before.insert(pos as int, m));
            vstd::seq_lib::to_multiset_insert(before, pos as int, m);
            vstd::seq_lib::to_multiset_build(input.take(idx as int), m);
            assert forall|i: int, j: int| 0 <= i < j < out@.len() implies out@[i].updated_at >= out@[j].updated_at by {
                if pos > 0 {
                    assert(before[pos - 1].updated_at >= m.updated_at);
                }
            }
        }
        assert(rest@ =~= input.subrange(idx + 1, n as int));
        idx = idx + 1;
    }
    assert(input.take(n as int) =~= input);
    out
}

/// The relative age the Sessions tab shows for a row updated at
/// `updated_at`, seen at `now`: under a minute (or in the future) is
/// `just now`, then whole minutes, hours, or days.
pub open spec fn relative_age(now: u64, updated_at: u64) -> Seq<char> {
    let secs: nat = if now >= updated_at {
        (now - updated_at) as nat
    } else {
        0
    };
    if secs < 60 {
        "just now"@
    } else if secs / 60 < 60 {
        decimal(secs / 60) + "m ago"@
    } else if secs / 3600 < 24 {
        decimal(secs / 3600) + "h ago"@
    } else {
        decimal(secs / 86400) + "d ago"@
    }
}

/// How long ago `updated_at` was, seen at `now`, as the Sessions tab
/// shows it.
pub fn relative_time_ago(now: Timestamp, updated_at: Timestamp) -> (r: String)
    ensures
        r@ == relative_age(now, updated_at),
{
    let elapsed_seconds = now.saturating_sub(updated_at);
    if elapsed_seconds < 60 {
        return string_of(chars_of("just now").as_slice());
    }
    let elapsed_minutes = elapsed_seconds / 60;
    if elapsed_minutes < 60 {
        let mut out = decimal_chars(elapsed_minutes);
        push_str_chars(&mut out, "m ago");
        return string_of(out.as_slice());
    }
    let elapsed_hours = elapsed_minutes / 60;
    assert(elapsed_hours == elapsed_seconds / 3600) by (nonlinear_arith)
        requires
            elapsed_minutes == elapsed_seconds / 60,
            elapsed_hours == elapsed_minutes / 60,
    ;
    if elapsed_hours < 24 {
        let mut out = decimal_chars(elapsed_hours);
        push_str_chars(&mut out, "h ago");
        return string_of(out.as_slice());
    }
    let elapsed_days = elapsed_hours / 24;
    assert(elapsed_days == elapsed_seconds / 86400) by (nonlinear_arith)
        requires
            elapsed_hours == elapsed_seconds / 3600,
            elapsed_days == elapsed_hours / 24,
    ;
    let mut out = decimal_chars(elapsed_days);
    push_str_chars(&mut out, "d ago");
    string_of(out.as_slice())
}

} // verus!
