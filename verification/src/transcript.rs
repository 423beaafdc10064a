//! Structured transcript data model for the Chat tab: a sequence of blocks
//! (user messages, assistant replies made of spans, tool calls, notices,
//! images, and nested subagent transcripts), each with a stable id.
//!
//! Ids come from a counter that only grows, so a block appended later never
//! takes an id any block already present holds, even across `clear` and
//! after loading a saved transcript.
use vstd::prelude::*;

use crate::agent::{RouteHop, RoutedEvent, StreamEvent, SubagentId, SubagentMeta};
use crate::api::ImageAttachment;
use crate::clock::{elapsed_millis, instant_now};
use crate::seqs::{first_where, lemma_first_where, lemma_first_where_unique, last_where, lemma_last_where_unique};

verus! {

/// Identifies a `Block` across appends.
#[derive(Debug, Clone, Copy, PartialEq, Eq, Hash, Structural)]
pub struct BlockId(pub u64);

/// How serious a `Notice` block is.
#[derive(Debug, Clone, Copy, PartialEq, Eq, Structural)]
pub enum Severity {
    Error,
    Warning,
    Info,
    Debug,
}

/// One piece of assistant output: reply text, or a reasoning chunk.
#[derive(Debug, Clone, PartialEq, Eq)]
pub enum Span {
    Text(String),
    Reasoning(String),
}

/// How a subagent dispatch is getting on.
#[derive(Debug, Clone, Copy, PartialEq, Eq, Structural)]
pub enum SubagentState {
    Running,
    Done,
    Failed,
    Interrupted,
}

/// The content of one transcript block.
#[derive(Debug, PartialEq, Eq)]
pub enum BlockKind {
    User { text: String },
    Assistant { spans: Vec<Span> },
    ToolCall { tool: String, args: String, output: Option<String>, is_error: bool },
    Notice { text: String, severity: Severity },
    Image { image: ImageAttachment },
    /// One `Task` dispatch, holding a full transcript of its own.
    /// `elapsed_ms` stays 0 while running; `started_at` is the clock
    /// reading taken when the block was created, cleared once a terminal
    /// event records the elapsed time.
    Subagent {
        subagent_id: SubagentId,
        backend: String,
        model: String,
        depth: u32,
        state: SubagentState,
        elapsed_ms: u64,
        started_at: Option<std::time::Instant>,
        transcript: Box<Transcript>,
        session_turns: u32,
        session_turn_cap: u32,
        send_message_calls: u32,
        send_message_call_cap: u32,
    },
}

/// One entry in the transcript: id, content, and the collapsed and pinned
/// flags the GUI toggles.
#[derive(Debug, PartialEq, Eq)]
pub struct Block {
    pub id: BlockId,
    pub collapsed: bool,
    pub pinned: bool,
    pub kind: BlockKind,
}

/// The whole Chat tab's history as a sequence of blocks.
#[derive(Debug, PartialEq, Eq)]
pub struct Transcript {
    blocks: Vec<Block>,
    next_id: u64,
    /// The id of the `Assistant` block a text or reasoning delta lands in,
    /// if one is still open.
    open_assistant: Option<BlockId>,
}

// ---------------------------------------------------------------------
// Copies
// ---------------------------------------------------------------------
fn clone_spans(spans: &Vec<Span>) -> (r: Vec<Span>)
    ensures
        spans_view(r@) == spans_view(spans@),
        r@ == spans@,
{
    let mut r: Vec<Span> = Vec::new();
    let mut i: usize = 0;
    while i < spans.len()
        invariant
            i <= spans@.len(),
            spans_view(r@) == spans_view(spans@.take(i as int)),
            r@ == spans@.take(i as int),
        decreases spans.len() - i,
    {
        let s = match &spans[i] {
            Span::Text(t) => Span::Text(t.clone()),
            Span::Reasoning(t) => Span::Reasoning(t.clone()),
        };
        assert(span_view(s) == span_view(spans@[i as int]));
        let ghost old_r = r@;
        r.push(s);
        assert(spans@.take(i + 1) =~= spans@.take(i as int).push(spans@[i as int]));
        assert(spans_view(r@) =~= spans_view(old_r).push(span_view(s)));
        assert(spans_view(spans@.take(i + 1)) =~= spans_view(spans@.take(i as int)).push(
            span_view(spans@[i as int]),
        ));
        i = i + 1;
    }
    assert(spans@.take(spans@.len() as int) =~= spans@);
    r
}

/// Two block kinds hold the same content, a nested transcript aside: the
/// same variant with equal fields.
pub open spec fn kind_same_shallow(a: BlockKind, b: BlockKind) -> bool {
    match a {
        BlockKind::User { text } => b matches BlockKind::User { text: t2 } && t2 == text,
        BlockKind::Assistant { spans } => b matches BlockKind::Assistant { spans: s2 } && s2@ == spans@,
        BlockKind::ToolCall { tool, args, output, is_error } => b matches BlockKind::ToolCall {
            tool: tool2,
            args: args2,
            output: output2,
            is_error: is_error2,
        } && tool2 == tool && args2 == args && output2 == output && is_error2 == is_error,
        BlockKind::Notice { text, severity } => b matches BlockKind::Notice { text: t2, severity: s2 } && t2
            == text && s2 == severity,
        BlockKind::Image { image } => b matches BlockKind::Image { image: i2 } && i2 == image,
        BlockKind::Subagent {
            subagent_id,
            backend,
            model,
            depth,
            state,
            elapsed_ms,
            started_at,
            session_turns,
            session_turn_cap,
            send_message_calls,
            send_message_call_cap,
            ..
        } => b matches BlockKind::Subagent {
            subagent_id: subagent_id2,
            backend: backend2,
            model: model2,
            depth: depth2,
            state: state2,
            elapsed_ms: elapsed_ms2,
            started_at: started_at2,
            session_turns: session_turns2,
            session_turn_cap: session_turn_cap2,
            send_message_calls: send_message_calls2,
            send_message_call_cap: send_message_call_cap2,
            ..
        } && subagent_id2 == subagent_id && backend2 == backend && model2 == model && depth2 == depth
            && state2 == state && elapsed_ms2 == elapsed_ms && started_at2 == started_at
            && session_turns2 == session_turns && session_turn_cap2 == session_turn_cap
            && send_message_calls2 == send_message_calls && send_message_call_cap2
            == send_message_call_cap,
    }
}

/// Two block kinds hold the same content, nested transcripts included.
pub open spec fn kind_same(a: BlockKind, b: BlockKind) -> bool {
    &&& kind_same_shallow(a, b)
    &&& (a matches BlockKind::Subagent { transcript: ta, .. } ==> (b matches BlockKind::Subagent {
        transcript: tb,
        ..
    } && ta.same_content(*tb)))
}

/// Two blocks hold the same content: id, flags and kind.
pub open spec fn block_same(a: Block, b: Block) -> bool {
    &&& a.id == b.id
    &&& a.collapsed == b.collapsed
    &&& a.pinned == b.pinned
    &&& kind_same(a.kind, b.kind)
}

/// A copy of a block kind, its content the same.
fn clone_kind(k: &BlockKind) -> (r: BlockKind)
    ensures
        kind_same(*k, r),
    decreases k,
{
    match k {
        BlockKind::User { text } => BlockKind::User { text: text.clone() },
        BlockKind::Assistant { spans } => BlockKind::Assistant { spans: clone_spans(spans) },
        BlockKind::ToolCall { tool, args, output, is_error } => BlockKind::ToolCall {
            tool: tool.clone(),
            args: args.clone(),
            output: match output {
                Some(o) => Some(o.clone()),
                None => None,
            },
            is_error: *is_error,
        },
        BlockKind::Notice { text, severity } => BlockKind::Notice {
            text: text.clone(),
            severity: *severity,
        },
        BlockKind::Image { image } => BlockKind::Image {
            image: ImageAttachment { data: image.data.clone(), media_type: image.media_type.clone() },
        },
        BlockKind::Subagent {
            subagent_id,
            backend,
            model,
            depth,
            state,
            elapsed_ms,
            started_at,
            transcript,
            session_turns,
            session_turn_cap,
            send_message_calls,
            send_message_call_cap,
        } => BlockKind::Subagent {
            subagent_id: *subagent_id,
            backend: backend.clone(),
            model: model.clone(),
            depth: *depth,
            state: *state,
            elapsed_ms: *elapsed_ms,
            started_at: *started_at,
            transcript: Box::new(clone_transcript(transcript)),
            session_turns: *session_turns,
            session_turn_cap: *session_turn_cap,
            send_message_calls: *send_message_calls,
            send_message_call_cap: *send_message_call_cap,
        },
    }
}

/// A copy of a block, its content the same.
fn clone_block(b: &Block) -> (r: Block)
    ensures
        block_same(*b, r),
    decreases b,
{
    Block { id: b.id, collapsed: b.collapsed, pinned: b.pinned, kind: clone_kind(&b.kind) }
}

/// A copy of a transcript, its content the same, nested transcripts
/// included.
fn clone_transcript(t: &Transcript) -> (r: Transcript)
    ensures
        t.same_content(r),
    decreases t,
{
    let mut blocks: Vec<Block> = Vec::new();
    let mut i: usize = 0;
    while i < t.blocks.len()
        invariant
            i <= t.blocks@.len(),
            blocks@.len() == i,
            forall|j: int| 0 <= j < i ==> block_same(#[trigger] t.blocks@[j], blocks@[j]),
        decreases t.blocks.len() - i,
    {
        proof {
            assert(decreases_to!(t => t.blocks@[i as int]));
        }
        blocks.push(clone_block(&t.blocks[i]));
        i = i + 1;
    }
    Transcript { blocks, next_id: t.next_id, open_assistant: t.open_assistant }
}

impl Clone for Block {
    fn clone(&self) -> (r: Self)
        ensures
            block_same(*self, r),
    {
        clone_block(self)
    }
}

impl Clone for BlockKind {
    fn clone(&self) -> (r: Self)
        ensures
            kind_same(*self, r),
    {
        clone_kind(self)
    }
}

impl Clone for Transcript {
    fn clone(&self) -> (r: Self)
        ensures
            self.same_content(r),
    {
        clone_transcript(self)
    }
}

// ---------------------------------------------------------------------
// Spans
// ---------------------------------------------------------------------
/// A span as (is it reasoning, its text).
pub open spec fn span_view(s: Span) -> (bool, Seq<char>) {
    match s {
        Span::Text(t) => (false, t@),
        Span::Reasoning(t) => (true, t@),
    }
}

pub open spec fn spans_view(s: Seq<Span>) -> Seq<(bool, Seq<char>)> {
    s.map_values(|x: Span| span_view(x))
}

/// Appending `s` to `spans`: it grows the last span when that span is of
/// the same kind, and starts a new span otherwise.
pub open spec fn coalesce(spans: Seq<(bool, Seq<char>)>, s: (bool, Seq<char>)) -> Seq<
    (bool, Seq<char>),
> {
    if spans.len() > 0 && spans.last().0 == s.0 {
        spans.drop_last().push((s.0, spans.last().1 + s.1))
    } else {
        spans.push(s)
    }
}

/// No two neighbouring spans are of one kind.
pub open spec fn kinds_alternate(spans: Seq<(bool, Seq<char>)>) -> bool {
    forall|i: int| #![trigger spans[i]] 0 <= i < spans.len() - 1 ==> spans[i].0 != spans[i + 1].0
}

/// Deltas coalesce within a kind but never merge across kinds: appending
/// keeps neighbouring spans of different kinds, and the text of a span of
/// the other kind is never touched.
pub proof fn lemma_coalesce_keeps_kinds_apart(spans: Seq<(bool, Seq<char>)>, s: (bool, Seq<char>))
    requires
        kinds_alternate(spans),
    ensures
        kinds_alternate(coalesce(spans, s)),
        coalesce(spans, s).last() == (if spans.len() > 0 && spans.last().0 == s.0 {
            (s.0, spans.last().1 + s.1)
        } else {
            s
        }),
        forall|i: int| 0 <= i < spans.len() - 1 ==> #[trigger] coalesce(spans, s)[i] == spans[i],
        spans.len() > 0 && spans.last().0 != s.0 ==> coalesce(spans, s)[spans.len() - 1] == spans.last(),
{
    let r = coalesce(spans, s);
    assert forall|i: int| #![trigger r[i]] 0 <= i < r.len() - 1 implies r[i].0 != r[i + 1].0 by {
        if spans.len() > 0 && spans.last().0 == s.0 {
            assert(r[i] == spans[i]);
            if i + 1 < spans.len() - 1 {
                assert(r[i + 1] == spans[i + 1]);
            } else {
                assert(spans[i].0 != spans[i + 1].0);
            }
        } else {
            assert(r[i] == spans[i]);
            if i + 1 < spans.len() {
                assert(r[i + 1] == spans[i + 1]);
            }
        }
    }
}

/// Append `span` to `spans`, growing the last entry in place when it is
/// the same kind.
pub fn push_span_coalescing(spans: &mut Vec<Span>, span: Span)
    ensures
        spans_view(final(spans)@) == coalesce(spans_view(old(spans)@), span_view(span)),
{
    let ghost old_v = spans_view(spans@);
    if spans.len() == 0 {
        spans.push(span);
        assert(spans_view(spans@) =~= old_v.push(span_view(span)));
        return;
    }
    let last = spans.pop().unwrap();
    let ghost rest = spans@;
    assert(spans_view(rest) =~= old_v.drop_last());
    match (last, span) {
        (Span::Text(mut a), Span::Text(b)) => {
            a.append(b.as_str());
            spans.push(Span::Text(a));
        },
        (Span::Reasoning(mut a), Span::Reasoning(b)) => {
            a.append(b.as_str());
            spans.push(Span::Reasoning(a));
        },
        (l, s) => {
            spans.push(l);
            spans.push(s);
        },
    }
    assert(spans_view(spans@) =~= coalesce(old_v, span_view(span)));
}

// ---------------------------------------------------------------------
// The transcript's state and well-formedness
// ---------------------------------------------------------------------
/// A transcript's contents as plain values.
pub struct TranscriptState {
    pub blocks: Seq<Block>,
    pub next_id: u64,
    pub open_assistant: Option<BlockId>,
}

/// The state of a new, empty transcript.
pub open spec fn fresh_state() -> TranscriptState {
    TranscriptState { blocks: seq![], next_id: 0, open_assistant: None }
}

/// Selects the block with id `id`.
pub open spec fn has_id(id: BlockId) -> spec_fn(Block) -> bool {
    |b: Block| b.id == id
}

/// The position of the first block with id `id`, or -1.
pub open spec fn id_index(blocks: Seq<Block>, id: BlockId) -> int {
    first_where(blocks, has_id(id))
}

/// No two blocks share an id.
pub open spec fn ids_unique(blocks: Seq<Block>) -> bool {
    forall|i: int, j: int|
        0 <= i < blocks.len() && 0 <= j < blocks.len() && i != j ==> (#[trigger] blocks[i]).id
            != (#[trigger] blocks[j]).id
}

/// Every block's id is below the next id to hand out, and no two blocks
/// share an id.
pub open spec fn ids_below(s: TranscriptState) -> bool {
    &&& forall|i: int| 0 <= i < s.blocks.len() ==> (#[trigger] s.blocks[i]).id.0 < s.next_id
    &&& ids_unique(s.blocks)
}

/// The open assistant block, if any, is present and is an `Assistant`.
pub open spec fn open_valid(s: TranscriptState) -> bool {
    match s.open_assistant {
        Some(id) => id_index(s.blocks, id) >= 0 && s.blocks[id_index(
            s.blocks,
            id,
        )].kind is Assistant,
        None => true,
    }
}

/// A block kind whose nested transcript, if any, is well formed.
pub open spec fn kind_wf(k: BlockKind) -> bool {
    match k {
        BlockKind::Subagent { transcript, .. } => transcript.wf(),
        _ => true,
    }
}

/// A block kind whose nested transcript, if any, has room for one more id.
pub open spec fn kind_fits(k: BlockKind) -> bool {
    match k {
        BlockKind::Subagent { transcript, .. } => transcript.fits(),
        _ => true,
    }
}

/// The block whose position is `k` after pushing `b` onto `s` is `b`
/// itself when `k` is the old length.
pub open spec fn pushed_block(s: TranscriptState, b: Block) -> TranscriptState {
    TranscriptState {
        blocks: s.blocks.push(b),
        next_id: (s.next_id + 1) as u64,
        open_assistant: s.open_assistant,
    }
}

/// The block a push creates: the next id, unpinned.
pub open spec fn new_block(s: TranscriptState, kind: BlockKind, collapsed: bool) -> Block {
    Block { id: BlockId(s.next_id), collapsed, pinned: false, kind }
}

/// `s` with block `k` replaced by `b`.
pub open spec fn with_block(s: TranscriptState, k: int, b: Block) -> TranscriptState {
    TranscriptState { blocks: s.blocks.update(k, b), ..s }
}

impl Transcript {
    /// The transcript's contents.
    pub closed spec fn state(self) -> TranscriptState {
        TranscriptState {
            blocks: self.blocks@,
            next_id: self.next_id,
            open_assistant: self.open_assistant,
        }
    }

    /// Ids are below the counter, the open assistant block exists, and
    /// every nested transcript is well formed too.
    pub closed spec fn wf(self) -> bool
        decreases self,
    {
        &&& ids_below(self.state())
        &&& open_valid(self.state())
        &&& forall|i: int|
            0 <= i < self.blocks@.len() ==> match #[trigger] self.blocks@[i].kind {
                BlockKind::Subagent { transcript, .. } => transcript.wf(),
                _ => true,
            }
    }

    /// The id counter, and every nested one, can still be advanced.
    pub closed spec fn fits(self) -> bool
        decreases self,
    {
        &&& self.next_id < u64::MAX
        &&& forall|i: int|
            0 <= i < self.blocks@.len() ==> match #[trigger] self.blocks@[i].kind {
                BlockKind::Subagent { transcript, .. } => transcript.fits(),
                _ => true,
            }
    }

    /// `self` and `other` hold the same content: the same counter and open
    /// block, and block by block the same id, flags and kind, nested
    /// transcripts included.
    pub closed spec fn same_content(self, other: Transcript) -> bool
        decreases self,
    {
        &&& self.next_id == other.next_id
        &&& self.open_assistant == other.open_assistant
        &&& self.blocks@.len() == other.blocks@.len()
        &&& forall|i: int|
            0 <= i < self.blocks@.len() ==> {
                &&& (#[trigger] self.blocks@[i]).id == other.blocks@[i].id
                &&& self.blocks@[i].collapsed == other.blocks@[i].collapsed
                &&& self.blocks@[i].pinned == other.blocks@[i].pinned
                &&& kind_same_shallow(self.blocks@[i].kind, other.blocks@[i].kind)
                &&& match self.blocks@[i].kind {
                    BlockKind::Subagent { transcript, .. } => match other.blocks@[i].kind {
                        BlockKind::Subagent { transcript: t2, .. } => transcript.same_content(*t2),
                        _ => false,
                    },
                    _ => true,
                }
            }
    }

    /// At this level and in every nested transcript, no two `Subagent`
    /// blocks track the same dispatch.
    pub closed spec fn ids_distinct(self) -> bool
        decreases self,
    {
        &&& level_ids_distinct(self.blocks@)
        &&& forall|i: int|
            0 <= i < self.blocks@.len() ==> match #[trigger] self.blocks@[i].kind {
                BlockKind::Subagent { transcript, .. } => transcript.ids_distinct(),
                _ => true,
            }
    }

    proof fn lemma_ids_distinct_unfold(self)
        ensures
            self.ids_distinct() <==> state_ids_distinct(self.state()),
    {
        if self.ids_distinct() {
            assert forall|i: int| 0 <= i < self.state().blocks.len() implies nested_ids_distinct(
                #[trigger] self.state().blocks[i].kind,
            ) by {
                assert(self.blocks@[i] == self.state().blocks[i]);
            }
        }
        if state_ids_distinct(self.state()) {
            assert forall|i: int| 0 <= i < self.blocks@.len() implies match #[trigger] self.blocks@[i].kind {
                BlockKind::Subagent { transcript, .. } => transcript.ids_distinct(),
                _ => true,
            } by {
                assert(nested_ids_distinct(self.state().blocks[i].kind));
            }
        }
    }

    proof fn lemma_wf_unfold(self)
        ensures
            self.wf() <==> (ids_below(self.state()) && open_valid(self.state()) && forall|i: int|
                0 <= i < self.state().blocks.len() ==> kind_wf(#[trigger] self.state().blocks[i].kind)),
            self.fits() <==> (self.state().next_id < u64::MAX && forall|i: int|
                0 <= i < self.state().blocks.len() ==> kind_fits(#[trigger] self.state().blocks[i].kind)),
    {
        if self.wf() {
            assert forall|i: int| 0 <= i < self.state().blocks.len() implies kind_wf(
                #[trigger] self.state().blocks[i].kind,
            ) by {
                assert(self.blocks@[i] == self.state().blocks[i]);
            }
        }
        if ids_below(self.state()) && open_valid(self.state()) && forall|i: int|
            0 <= i < self.state().blocks.len() ==> kind_wf(#[trigger] self.state().blocks[i].kind) {
            assert forall|i: int| 0 <= i < self.blocks@.len() implies match #[trigger] self.blocks@[i].kind {
                BlockKind::Subagent { transcript, .. } => transcript.wf(),
                _ => true,
            } by {
                assert(kind_wf(self.state().blocks[i].kind));
            }
        }
        if self.fits() {
            assert forall|i: int| 0 <= i < self.state().blocks.len() implies kind_fits(
                #[trigger] self.state().blocks[i].kind,
            ) by {
                assert(self.blocks@[i] == self.state().blocks[i]);
            }
        }
        if self.state().next_id < u64::MAX && forall|i: int|
            0 <= i < self.state().blocks.len() ==> kind_fits(#[trigger] self.state().blocks[i].kind) {
            assert forall|i: int| 0 <= i < self.blocks@.len() implies match #[trigger] self.blocks@[i].kind {
                BlockKind::Subagent { transcript, .. } => transcript.fits(),
                _ => true,
            } by {
                assert(kind_fits(self.state().blocks[i].kind));
            }
        }
    }
}

/// Well-formedness of a transcript, stated over its state.
pub open spec fn state_wf(s: TranscriptState) -> bool {
    &&& ids_below(s)
    &&& open_valid(s)
    &&& forall|i: int| 0 <= i < s.blocks.len() ==> kind_wf(#[trigger] s.blocks[i].kind)
}

/// Room in the counters, stated over a transcript's state.
pub open spec fn state_fits(s: TranscriptState) -> bool {
    &&& s.next_id < u64::MAX
    &&& forall|i: int| 0 <= i < s.blocks.len() ==> kind_fits(#[trigger] s.blocks[i].kind)
}

pub proof fn lemma_wf(t: Transcript)
    ensures
        t.wf() <==> state_wf(t.state()),
        t.fits() <==> state_fits(t.state()),
{
    t.lemma_wf_unfold();
}

/// `id_index` is a position holding `id`, before which no block holds it.
pub proof fn lemma_id_index(blocks: Seq<Block>, id: BlockId)
    ensures
        -1 <= id_index(blocks, id) < blocks.len(),
        id_index(blocks, id) >= 0 ==> blocks[id_index(blocks, id)].id == id,
        forall|j: int| 0 <= j < id_index(blocks, id) ==> (#[trigger] blocks[j]).id != id,
        id_index(blocks, id) == -1 ==> forall|j: int|
            0 <= j < blocks.len() ==> (#[trigger] blocks[j]).id != id,
{
    let p = has_id(id);
    lemma_first_where(blocks, p);
    assert forall|j: int| 0 <= j < id_index(blocks, id) implies (#[trigger] blocks[j]).id != id by {
        assert(!p(blocks[j]));
    }
    if id_index(blocks, id) == -1 {
        assert forall|j: int| 0 <= j < blocks.len() implies (#[trigger] blocks[j]).id != id by {
            assert(!p(blocks[j]));
        }
    }
}

/// Pushing a block keeps an id that was present at the same position.
pub proof fn lemma_id_index_push(blocks: Seq<Block>, b: Block, id: BlockId)
    ensures
        id_index(blocks, id) >= 0 ==> id_index(blocks.push(b), id) == id_index(blocks, id),
        id_index(blocks, id) == -1 && b.id == id ==> id_index(blocks.push(b), id)
            == blocks.len(),
        id_index(blocks, id) == -1 && b.id != id ==> id_index(blocks.push(b), id) == -1,
{
    let p = has_id(id);
    lemma_first_where(blocks, p);
    let k = first_where(blocks, p);
    let nb = blocks.push(b);
    if k >= 0 {
        assert(nb[k] == blocks[k]);
        assert forall|j: int| 0 <= j < k implies !p(#[trigger] nb[j]) by {
            assert(nb[j] == blocks[j]);
        }
        lemma_first_where_unique(nb, p, k);
    } else if b.id == id {
        assert forall|j: int| 0 <= j < blocks.len() implies !p(#[trigger] nb[j]) by {
            assert(nb[j] == blocks[j]);
        }
        lemma_first_where_unique(nb, p, blocks.len() as int);
    } else {
        assert forall|j: int| 0 <= j < nb.len() implies !p(#[trigger] nb[j]) by {
            if j < blocks.len() {
                assert(nb[j] == blocks[j]);
            }
        }
        lemma_first_where_unique(nb, p, -1);
    }
}

/// Replacing a block by one with the same id keeps every id's position.
pub proof fn lemma_id_index_update(blocks: Seq<Block>, k: int, b: Block, id: BlockId)
    requires
        0 <= k < blocks.len(),
        b.id == blocks[k].id,
    ensures
        id_index(blocks.update(k, b), id) == id_index(blocks, id),
{
    let p = has_id(id);
    lemma_first_where(blocks, p);
    let r = first_where(blocks, p);
    let nb = blocks.update(k, b);
    assert forall|j: int| 0 <= j < blocks.len() implies p(#[trigger] nb[j]) == p(blocks[j]) by {
        if j == k {
        } else {
            assert(nb[j] == blocks[j]);
        }
    }
    if r >= 0 {
        assert(p(nb[r]));
        assert forall|j: int| 0 <= j < r implies !p(#[trigger] nb[j]) by {
            assert(p(nb[j]) == p(blocks[j]));
        }
    } else {
        assert forall|j: int| 0 <= j < nb.len() implies !p(#[trigger] nb[j]) by {
            assert(p(nb[j]) == p(blocks[j]));
        }
    }
    lemma_first_where_unique(nb, p, r);
}

/// A push onto a well-formed state with a well-formed kind stays well
/// formed.
pub proof fn lemma_push_wf(s: TranscriptState, kind: BlockKind, collapsed: bool)
    requires
        state_wf(s),
        kind_wf(kind),
        s.next_id < u64::MAX,
    ensures
        state_wf(pushed_block(s, new_block(s, kind, collapsed))),
{
    let b = new_block(s, kind, collapsed);
    let t = pushed_block(s, b);
    assert forall|i: int| 0 <= i < t.blocks.len() implies (#[trigger] t.blocks[i]).id.0
        < t.next_id by {
        if i < s.blocks.len() {
            assert(t.blocks[i] == s.blocks[i]);
        }
    }
    assert forall|i: int, j: int|
        0 <= i < t.blocks.len() && 0 <= j < t.blocks.len() && i != j implies (
        #[trigger] t.blocks[i]).id != (#[trigger] t.blocks[j]).id by {
        if i < s.blocks.len() && j < s.blocks.len() {
            assert(t.blocks[i] == s.blocks[i]);
            assert(t.blocks[j] == s.blocks[j]);
        } else if i < s.blocks.len() {
            assert(t.blocks[i] == s.blocks[i]);
        } else {
            assert(t.blocks[j] == s.blocks[j]);
        }
    }
    if let Some(id) = s.open_assistant {
        lemma_id_index(s.blocks, id);
        lemma_id_index_push(s.blocks, b, id);
        assert(t.blocks[id_index(s.blocks, id)] == s.blocks[id_index(s.blocks, id)]);
    }
    assert forall|i: int| 0 <= i < t.blocks.len() implies kind_wf(#[trigger] t.blocks[i].kind) by {
        if i < s.blocks.len() {
            assert(t.blocks[i] == s.blocks[i]);
        }
    }
}

/// Replacing block `k` by one with the same id and a well-formed kind, of
/// the same variant as before, keeps a state well formed.
pub proof fn lemma_update_wf(s: TranscriptState, k: int, b: Block)
    requires
        state_wf(s),
        0 <= k < s.blocks.len(),
        b.id == s.blocks[k].id,
        kind_wf(b.kind),
        s.blocks[k].kind is Assistant ==> b.kind is Assistant,
    ensures
        state_wf(with_block(s, k, b)),
{
    let t = with_block(s, k, b);
    assert forall|i: int| 0 <= i < t.blocks.len() implies (#[trigger] t.blocks[i]).id.0
        < t.next_id by {
        if i != k {
            assert(t.blocks[i] == s.blocks[i]);
        }
    }
    assert forall|i: int, j: int|
        0 <= i < t.blocks.len() && 0 <= j < t.blocks.len() && i != j implies (
        #[trigger] t.blocks[i]).id != (#[trigger] t.blocks[j]).id by {
        assert(t.blocks[i].id == s.blocks[i].id);
        assert(t.blocks[j].id == s.blocks[j].id);
    }
    if let Some(id) = s.open_assistant {
        lemma_id_index(s.blocks, id);
        lemma_id_index_update(s.blocks, k, b, id);
        if id_index(s.blocks, id) != k {
            assert(t.blocks[id_index(s.blocks, id)] == s.blocks[id_index(s.blocks, id)]);
        }
    }
    assert forall|i: int| 0 <= i < t.blocks.len() implies kind_wf(#[trigger] t.blocks[i].kind) by {
        if i != k {
            assert(t.blocks[i] == s.blocks[i]);
        }
    }
}

/// Same as `lemma_update_wf`, for room in the counters.
pub proof fn lemma_update_fits(s: TranscriptState, k: int, b: Block)
    requires
        state_fits(s),
        0 <= k < s.blocks.len(),
        kind_fits(b.kind),
    ensures
        state_fits(with_block(s, k, b)),
{
    let t = with_block(s, k, b);
    assert forall|i: int| 0 <= i < t.blocks.len() implies kind_fits(#[trigger] t.blocks[i].kind) by {
        if i != k {
            assert(t.blocks[i] == s.blocks[i]);
        }
    }
}

impl Transcript {
    /// An empty transcript.
    pub fn new() -> (t: Transcript)
        ensures
            t.state() == fresh_state(),
            t.wf(),
            t.fits(),
    {
        let t = Transcript { blocks: Vec::new(), next_id: 0, open_assistant: None };
        assert(t.state().blocks =~= seq![]);
        t
    }

    /// Rebuild a saved transcript from its blocks and stored counter. The
    /// counter comes back as at least one past the highest id present, so
    /// a hand-edited or truncated file can never hand out a colliding id;
    /// no assistant block is open.
    pub fn from_saved(blocks: Vec<Block>, next_id: u64) -> (t: Transcript)
        requires
            forall|i: int| 0 <= i < blocks@.len() ==> (#[trigger] blocks@[i]).id.0 < u64::MAX,
        ensures
            t.state().blocks == blocks@,
            t.state().open_assistant is None,
            t.state().next_id == max_u64(next_id, safe_next_id(blocks@)),
            forall|i: int| 0 <= i < blocks@.len() ==> (#[trigger] blocks@[i]).id.0 < t.state().next_id,
            ids_unique(blocks@) && (forall|i: int|
                0 <= i < blocks@.len() ==> kind_wf(#[trigger] blocks@[i].kind)) ==> t.wf(),
    {
        let mut min_safe: u64 = 0;
        let mut i: usize = 0;
        while i < blocks.len()
            invariant
                i <= blocks@.len(),
                forall|j: int| 0 <= j < blocks@.len() ==> (#[trigger] blocks@[j]).id.0 < u64::MAX,
                min_safe == safe_next_id(blocks@.take(i as int)),
            decreases blocks.len() - i,
        {
            assert(blocks@.take(i + 1).drop_last() =~= blocks@.take(i as int));
            let candidate = blocks[i].id.0 + 1;
            if candidate > min_safe {
                min_safe = candidate;
            }
            i = i + 1;
        }
        assert(blocks@.take(blocks@.len() as int) =~= blocks@);
        proof {
            lemma_safe_next_id(blocks@);
        }
        let next = if next_id > min_safe {
            next_id
        } else {
            min_safe
        };
        let t = Transcript { blocks, next_id: next, open_assistant: None };
        proof {
            lemma_wf(t);
        }
        t
    }

    /// The stored id counter.
    pub fn next_id(&self) -> (n: u64)
        ensures
            n == self.state().next_id,
    {
        self.next_id
    }

    /// Whether the id counter, and every nested one, can still be advanced.
    pub fn has_room(&self) -> (r: bool)
        ensures
            r == self.fits(),
        decreases self,
    {
        proof {
            self.lemma_wf_unfold();
        }
        if self.next_id == u64::MAX {
            return false;
        }
        let mut i: usize = 0;
        while i < self.blocks.len()
            invariant
                i <= self.blocks@.len(),
                self.state().blocks == self.blocks@,
                forall|j: int| 0 <= j < i ==> kind_fits(#[trigger] self.state().blocks[j].kind),
            decreases self.blocks.len() - i,
        {
            proof {
                assert(decreases_to!(self => self.blocks@[i as int]));
            }
            match &self.blocks[i].kind {
                BlockKind::Subagent { transcript, .. } => {
                    if !transcript.has_room() {
                        return false;
                    }
                },
                _ => {},
            }
            i = i + 1;
        }
        true
    }

    /// Append a new block, uncollapsed, and return its id.
    pub fn push(&mut self, kind: BlockKind) -> (id: BlockId)
        requires
            old(self).state().next_id < u64::MAX,
        ensures
            id == BlockId(old(self).state().next_id),
            final(self).state() == pushed_block(
                old(self).state(),
                new_block(old(self).state(), kind, false),
            ),
            old(self).wf() ==> forall|i: int|
                0 <= i < old(self).state().blocks.len() ==> (#[trigger] old(self).state().blocks[i]).id != id,
            old(self).wf() && kind_wf(kind) ==> final(self).wf(),
    {
        proof {
            lemma_wf(*self);
        }
        self.push_collapsed(kind, false)
    }

    /// Append a new block with an explicit initial collapsed state.
    pub fn push_collapsed(&mut self, kind: BlockKind, collapsed: bool) -> (id: BlockId)
        requires
            old(self).state().next_id < u64::MAX,
        ensures
            id == BlockId(old(self).state().next_id),
            final(self).state() == pushed_block(
                old(self).state(),
                new_block(old(self).state(), kind, collapsed),
            ),
            old(self).wf() ==> forall|i: int|
                0 <= i < old(self).state().blocks.len() ==> (#[trigger] old(self).state().blocks[i]).id != id,
            old(self).wf() && kind_wf(kind) ==> final(self).wf(),
    {
        proof {
            lemma_wf(*self);
        }
        let ghost s0 = self.state();
        let ghost w0 = self.wf();
        let id = BlockId(self.next_id);
        self.next_id = self.next_id + 1;
        self.blocks.push(Block { id, collapsed, pinned: false, kind });
        proof {
            assert(self.state() == pushed_block(s0, new_block(s0, kind, collapsed)));
            if w0 && kind_wf(kind) {
                lemma_push_wf(s0, kind, collapsed);
                lemma_wf(*self);
            }
        }
        id
    }

    /// The position of the first block with id `id`.
    fn position(&self, id: BlockId) -> (r: Option<usize>)
        ensures
            match r {
                Some(k) => k == id_index(self.state().blocks, id) && k < self.state().blocks.len(),
                None => id_index(self.state().blocks, id) == -1,
            },
    {
        let ghost p = has_id(id);
        let mut i: usize = 0;
        while i < self.blocks.len()
            invariant
                i <= self.blocks@.len(),
                p == has_id(id),
                forall|j: int| 0 <= j < i ==> !p(#[trigger] self.blocks@[j]),
            decreases self.blocks.len() - i,
        {
            if self.blocks[i].id == id {
                proof {
                    lemma_first_where_unique(self.blocks@, p, i as int);
                }
                return Some(i);
            }
            i = i + 1;
        }
        proof {
            lemma_first_where_unique(self.blocks@, p, -1);
        }
        None
    }

    /// Find a block by id.
    pub fn find(&self, id: BlockId) -> (r: Option<&Block>)
        ensures
            id_index(self.state().blocks, id) == -1 ==> r is None,
            id_index(self.state().blocks, id) >= 0 ==> r == Some(
                &self.state().blocks[id_index(self.state().blocks, id)],
            ),
    {
        match self.position(id) {
            Some(k) => Some(&self.blocks[k]),
            None => None,
        }
    }

    /// Find a block by id, for mutation.
    pub fn find_mut(&mut self, id: BlockId) -> (r: Option<&mut Block>)
        ensures
            id_index(old(self).state().blocks, id) == -1 ==> r is None && *final(self) == *old(self),
            id_index(old(self).state().blocks, id) >= 0 ==> (r matches Some(b) && *b == old(self).state().blocks[id_index(old(self).state().blocks, id)] && final(self).state()
                == with_block(
                old(self).state(),
                id_index(old(self).state().blocks, id),
                *final(b),
            )),
    {
        match self.position(id) {
            Some(k) => Some(&mut self.blocks[k]),
            None => None,
        }
    }

    /// Set a block's collapsed flag. Does nothing if `id` is missing.
    pub fn set_collapsed(&mut self, id: BlockId, collapsed: bool)
        ensures
            id_index(old(self).state().blocks, id) == -1 ==> *final(self) == *old(self),
            id_index(old(self).state().blocks, id) >= 0 ==> final(self).state() == with_block(
                old(self).state(),
                id_index(old(self).state().blocks, id),
                Block {
                    collapsed,
                    ..old(self).state().blocks[id_index(old(self).state().blocks, id)]
                },
            ),
            old(self).wf() ==> final(self).wf(),
            old(self).fits() ==> final(self).fits(),
    {
        let ghost s0 = self.state();
        let ghost w0 = self.wf();
        let ghost f0 = self.fits();
        proof {
            lemma_wf(*self);
        }
        if let Some(block) = self.find_mut(id) {
            block.collapsed = collapsed;
        }
        proof {
            let k = id_index(s0.blocks, id);
            lemma_id_index(s0.blocks, id);
            if k >= 0 {
                let b = Block { collapsed, ..s0.blocks[k] };
                if w0 {
                    assert(kind_wf(s0.blocks[k].kind));
                    lemma_update_wf(s0, k, b);
                }
                if f0 {
                    assert(kind_fits(s0.blocks[k].kind));
                    lemma_update_fits(s0, k, b);
                }
            }
            lemma_wf(*self);
        }
    }

    /// Drop every block. The id counter is kept, so a block appended after
    /// a clear never collides with one appended before it.
    pub fn clear(&mut self)
        ensures
            final(self).state() == (TranscriptState {
                blocks: seq![],
                next_id: old(self).state().next_id,
                open_assistant: None,
            }),
            final(self).wf(),
            old(self).fits() ==> final(self).fits(),
    {
        self.blocks.clear();
        self.open_assistant = None;
        proof {
            assert(self.state().blocks =~= seq![]);
            lemma_wf(*self);
        }
    }

    /// The blocks in append order.
    pub fn blocks(&self) -> (r: &[Block])
        ensures
            r@ == self.state().blocks,
    {
        self.blocks.as_slice()
    }
}

/// The block a path of ids names: `path[0]` is looked up among `blocks`,
/// and every id but the last names a `Subagent` block whose own transcript
/// the rest of the path is looked up in.
pub open spec fn block_at_path(blocks: Seq<Block>, path: Seq<BlockId>) -> Option<Block>
    decreases path.len(),
{
    if path.len() == 0 {
        None
    } else {
        let k = id_index(blocks, path[0]);
        if k < 0 {
            None
        } else if path.len() == 1 {
            Some(blocks[k])
        } else {
            match blocks[k].kind {
                BlockKind::Subagent { transcript, .. } => block_at_path(
                    transcript.state().blocks,
                    path.drop_first(),
                ),
                _ => None,
            }
        }
    }
}

/// A `Subagent` kind with its nested transcript replaced by `t`; any other
/// kind unchanged.
pub open spec fn with_nested(k: BlockKind, t: Transcript) -> BlockKind {
    match k {
        BlockKind::Subagent {
            subagent_id,
            backend,
            model,
            depth,
            state,
            elapsed_ms,
            started_at,
            transcript: _,
            session_turns,
            session_turn_cap,
            send_message_calls,
            send_message_call_cap,
        } => BlockKind::Subagent {
            subagent_id,
            backend,
            model,
            depth,
            state,
            elapsed_ms,
            started_at,
            transcript: Box::new(t),
            session_turns,
            session_turn_cap,
            send_message_calls,
            send_message_call_cap,
        },
        _ => k,
    }
}

/// `new` is `old` with the block `path` names replaced by `b`, and
/// nothing else changed at any level.
pub open spec fn path_updated(
    old: TranscriptState,
    new: TranscriptState,
    path: Seq<BlockId>,
    b: Block,
) -> bool
    decreases path.len(),
{
    let k = id_index(old.blocks, path[0]);
    if path.len() <= 1 {
        new == with_block(old, k, b)
    } else {
        &&& 0 <= k < old.blocks.len()
        &&& k < new.blocks.len()
        &&& new.blocks[k].kind is Subagent
        &&& old.blocks[k].kind is Subagent
        &&& new == with_block(
            old,
            k,
            Block {
                kind: with_nested(old.blocks[k].kind, *new.blocks[k].kind->transcript),
                ..old.blocks[k]
            },
        )
        &&& path_updated(
            old.blocks[k].kind->transcript.state(),
            new.blocks[k].kind->transcript.state(),
            path.drop_first(),
            b,
        )
    }
}

/// Replacing the block a path names by one with the same id and the same
/// kind keeps a transcript well formed, and keeps room in its counters.
pub proof fn lemma_path_update_wf(old: Transcript, new: Transcript, path: Seq<BlockId>, b: Block)
    requires
        path.len() >= 1,
        block_at_path(old.state().blocks, path) matches Some(ob) && ob.id == b.id && ob.kind
            == b.kind,
        path_updated(old.state(), new.state(), path, b),
    ensures
        old.wf() ==> new.wf(),
        old.fits() ==> new.fits(),
    decreases path.len(),
{
    lemma_wf(old);
    lemma_wf(new);
    let s = old.state();
    let k = id_index(s.blocks, path[0]);
    lemma_id_index(s.blocks, path[0]);
    if path.len() == 1 {
        if old.wf() {
            assert(kind_wf(s.blocks[k].kind));
            lemma_update_wf(s, k, b);
        }
        if old.fits() {
            assert(kind_fits(s.blocks[k].kind));
            lemma_update_fits(s, k, b);
        }
    } else {
        let ot = *s.blocks[k].kind->transcript;
        let nt = *new.state().blocks[k].kind->transcript;
        lemma_path_update_wf(ot, nt, path.drop_first(), b);
        let nb = Block { kind: with_nested(s.blocks[k].kind, nt), ..s.blocks[k] };
        if old.wf() {
            assert(kind_wf(s.blocks[k].kind));
            lemma_update_wf(s, k, nb);
        }
        if old.fits() {
            assert(kind_fits(s.blocks[k].kind));
            lemma_update_fits(s, k, nb);
        }
    }
}

impl Transcript {
    /// Whether `path` names a block.
    fn path_resolves(&self, path: &[BlockId]) -> (b: bool)
        ensures
            b == block_at_path(self.state().blocks, path@) is Some,
        decreases path.len(),
    {
        if path.len() == 0 {
            return false;
        }
        let first = path[0];
        proof {
            lemma_id_index(self.state().blocks, first);
        }
        match self.find(first) {
            None => false,
            Some(block) => {
                if path.len() == 1 {
                    return true;
                }
                let (_, rest) = path.split_at(1);
                assert(rest@ =~= path@.drop_first());
                match &block.kind {
                    BlockKind::Subagent { transcript, .. } => transcript.path_resolves(rest),
                    _ => false,
                }
            },
        }
    }

    /// The block `path` names, for mutation, when it names one.
    fn find_mut_resolved(&mut self, path: &[BlockId]) -> (r: &mut Block)
        requires
            block_at_path(old(self).state().blocks, path@) is Some,
        ensures
            *r == block_at_path(old(self).state().blocks, path@)->0,
            path_updated(old(self).state(), final(self).state(), path@, *final(r)),
        decreases path.len(),
    {
        let first = path[0];
        proof {
            lemma_id_index(self.state().blocks, first);
        }
        if path.len() == 1 {
            return self.find_mut(first).unwrap();
        }
        let (_, rest) = path.split_at(1);
        assert(rest@ =~= path@.drop_first());
        let block = self.find_mut(first).unwrap();
        match &mut block.kind {
            BlockKind::Subagent { transcript, .. } => transcript.find_mut_resolved(rest),
            _ => vstd::pervasive::unreached(),
        }
    }

    /// Find a block by a path of ids, descending through nested `Subagent`
    /// transcripts. A one-element path behaves exactly like `find_mut`.
    /// Returns `None` if any hop is missing or is not a `Subagent` block.
    pub fn find_mut_by_path(&mut self, path: &[BlockId]) -> (r: Option<&mut Block>)
        ensures
            block_at_path(old(self).state().blocks, path@) is None ==> r is None && *final(self)
                == *old(self),
            block_at_path(old(self).state().blocks, path@) matches Some(ob) ==> (r matches Some(
                b,
            ) && *b == ob && path_updated(old(self).state(), final(self).state(), path@, *final(b))),
    {
        if self.path_resolves(path) {
            Some(self.find_mut_resolved(path))
        } else {
            None
        }
    }

    /// Set the collapsed flag of the block `path` names. Does nothing if
    /// the path does not resolve to a block.
    pub fn set_collapsed_by_path(&mut self, path: &[BlockId], collapsed: bool)
        ensures
            block_at_path(old(self).state().blocks, path@) is None ==> *final(self) == *old(self),
            block_at_path(old(self).state().blocks, path@) matches Some(ob) ==> path_updated(
                old(self).state(),
                final(self).state(),
                path@,
                Block { collapsed, ..ob },
            ),
            old(self).wf() ==> final(self).wf(),
            old(self).fits() ==> final(self).fits(),
    {
        let ghost before = *self;
        if let Some(block) = self.find_mut_by_path(path) {
            block.collapsed = collapsed;
        }
        proof {
            if let Some(ob) = block_at_path(before.state().blocks, path@) {
                lemma_path_update_wf(before, *self, path@, Block { collapsed, ..ob });
            }
        }
    }

    /// Set the pinned flag of the block `path` names. Does nothing if the
    /// path does not resolve to a block.
    pub fn set_pinned_by_path(&mut self, path: &[BlockId], pinned: bool)
        ensures
            block_at_path(old(self).state().blocks, path@) is None ==> *final(self) == *old(self),
            block_at_path(old(self).state().blocks, path@) matches Some(ob) ==> path_updated(
                old(self).state(),
                final(self).state(),
                path@,
                Block { pinned, ..ob },
            ),
            old(self).wf() ==> final(self).wf(),
            old(self).fits() ==> final(self).fits(),
    {
        let ghost before = *self;
        if let Some(block) = self.find_mut_by_path(path) {
            block.pinned = pinned;
        }
        proof {
            if let Some(ob) = block_at_path(before.state().blocks, path@) {
                lemma_path_update_wf(before, *self, path@, Block { pinned, ..ob });
            }
        }
    }
}

/// With unique ids, a block's own id finds it; an id at or above the
/// counter finds nothing.
pub proof fn lemma_unique_index(s: TranscriptState, k: int)
    requires
        ids_below(s),
        0 <= k < s.blocks.len(),
    ensures
        id_index(s.blocks, s.blocks[k].id) == k,
        id_index(s.blocks, BlockId(s.next_id)) == -1,
{
    let p = has_id(s.blocks[k].id);
    assert forall|j: int| 0 <= j < k implies !p(#[trigger] s.blocks[j]) by {
        assert(s.blocks[j].id != s.blocks[k].id);
    }
    lemma_first_where_unique(s.blocks, p, k);
    let q = has_id(BlockId(s.next_id));
    assert forall|j: int| 0 <= j < s.blocks.len() implies !q(#[trigger] s.blocks[j]) by {
        assert(s.blocks[j].id.0 < s.next_id);
    }
    lemma_first_where_unique(s.blocks, q, -1);
}

/// The block kind after a tool call's result arrives.
pub open spec fn completed_kind(k: BlockKind, output: String, is_error: bool) -> BlockKind {
    match k {
        BlockKind::ToolCall { tool, args, .. } => BlockKind::ToolCall {
            tool,
            args,
            output: Some(output),
            is_error,
        },
        _ => k,
    }
}

/// `new` is `old` with span `sv` pushed onto the `Assistant` block at `k`.
pub open spec fn span_pushed(old: TranscriptState, new: TranscriptState, k: int, sv: (
    bool,
    Seq<char>,
)) -> bool {
    &&& 0 <= k < old.blocks.len()
    &&& k < new.blocks.len()
    &&& old.blocks[k].kind is Assistant
    &&& new.blocks[k].kind is Assistant
    &&& new == with_block(old, k, Block { kind: new.blocks[k].kind, ..old.blocks[k] })
    &&& spans_view(new.blocks[k].kind->spans@) == coalesce(
        spans_view(old.blocks[k].kind->spans@),
        sv,
    )
}

/// A text or reasoning delta `sv`: it lands in the open `Assistant` block,
/// or in a new one that becomes the open block.
pub open spec fn delta_applied(old: TranscriptState, new: TranscriptState, sv: (
    bool,
    Seq<char>,
)) -> bool {
    match old.open_assistant {
        Some(id) => span_pushed(old, new, id_index(old.blocks, id), sv),
        None => {
            let k = old.blocks.len() as int;
            &&& new.blocks.len() == k + 1
            &&& new.blocks[k].kind is Assistant
            &&& new == TranscriptState {
                blocks: old.blocks.push(
                    Block {
                        id: BlockId(old.next_id),
                        collapsed: false,
                        pinned: false,
                        kind: new.blocks[k].kind,
                    },
                ),
                next_id: (old.next_id + 1) as u64,
                open_assistant: Some(BlockId(old.next_id)),
            }
            &&& spans_view(new.blocks[k].kind->spans@) == seq![sv]
        },
    }
}

/// Selects a tool call still waiting for its result.
pub open spec fn is_pending_tool() -> spec_fn(Block) -> bool {
    |b: Block| b.kind matches BlockKind::ToolCall { output: None, .. }
}

/// A tool call's end fills in the most recent tool call still waiting for
/// a result; with none waiting, nothing changes.
pub open spec fn tool_end_applied(
    old: TranscriptState,
    new: TranscriptState,
    output: String,
    is_error: bool,
) -> bool {
    let k = last_where(old.blocks, is_pending_tool());
    if k < 0 {
        new == old
    } else {
        new == with_block(
            old,
            k,
            Block { kind: completed_kind(old.blocks[k].kind, output, is_error), ..old.blocks[k] },
        )
    }
}

/// What one `StreamEvent` does to a transcript.
pub open spec fn stream_applied(old: TranscriptState, new: TranscriptState, event: StreamEvent) -> bool {
    match event {
        StreamEvent::Text { text, .. } => delta_applied(old, new, (false, text@)),
        StreamEvent::Reasoning { text, .. } => delta_applied(old, new, (true, text@)),
        StreamEvent::ToolCallStart { tool, args, .. } => new == TranscriptState {
            blocks: old.blocks.push(
                new_block(
                    old,
                    BlockKind::ToolCall { tool, args, output: None, is_error: false },
                    true,
                ),
            ),
            next_id: (old.next_id + 1) as u64,
            open_assistant: None,
        },
        StreamEvent::ToolCallEnd { output, is_error, .. } => tool_end_applied(
            old,
            new,
            output,
            is_error,
        ),
        StreamEvent::TurnEnd { .. } => new == TranscriptState { open_assistant: None, ..old },
        StreamEvent::Interrupted { message } => new == pushed_block(
            old,
            new_block(old, BlockKind::Notice { text: message, severity: Severity::Warning }, false),
        ),
        StreamEvent::Error { message } => new == pushed_block(
            old,
            new_block(old, BlockKind::Notice { text: message, severity: Severity::Error }, false),
        ),
        _ => new == old,
    }
}

impl Transcript {
    /// Push a span onto an `Assistant` block, coalescing into the last span
    /// when it is the same kind. Does nothing if `id` is missing or does
    /// not name an `Assistant` block.
    pub fn push_span(&mut self, id: BlockId, span: Span)
        ensures
            id_index(old(self).state().blocks, id) == -1 ==> *final(self) == *old(self),
            id_index(old(self).state().blocks, id) >= 0 && !(old(self).state().blocks[id_index(
                old(self).state().blocks,
                id,
            )].kind is Assistant) ==> *final(self) == *old(self),
            id_index(old(self).state().blocks, id) >= 0 && old(self).state().blocks[id_index(
                old(self).state().blocks,
                id,
            )].kind is Assistant ==> span_pushed(
                old(self).state(),
                final(self).state(),
                id_index(old(self).state().blocks, id),
                span_view(span),
            ),
            old(self).wf() ==> final(self).wf(),
            old(self).fits() ==> final(self).fits(),
    {
        let ghost s0 = self.state();
        let ghost w0 = self.wf();
        let ghost f0 = self.fits();
        proof {
            lemma_wf(*self);
            lemma_id_index(s0.blocks, id);
        }
        let k = match self.position(id) {
            Some(k) => k,
            None => return ,
        };
        let is_assistant = match &self.blocks[k].kind {
            BlockKind::Assistant { .. } => true,
            _ => false,
        };
        if !is_assistant {
            return ;
        }
        match &mut self.blocks[k].kind {
            BlockKind::Assistant { spans } => push_span_coalescing(spans, span),
            _ => vstd::pervasive::unreached(),
        }
        proof {
            let b = Block { kind: self.state().blocks[k as int].kind, ..s0.blocks[k as int] };
            assert(self.state().blocks =~= s0.blocks.update(k as int, b));
            if w0 {
                lemma_update_wf(s0, k as int, b);
            }
            if f0 {
                lemma_update_fits(s0, k as int, b);
            }
            lemma_wf(*self);
        }
    }

    /// Fill in a `ToolCall` block's result once it arrives. Does nothing if
    /// `id` is missing or does not name a `ToolCall` block.
    pub fn complete_tool_call(&mut self, id: BlockId, output: String, is_error: bool)
        ensures
            id_index(old(self).state().blocks, id) == -1 ==> *final(self) == *old(self),
            id_index(old(self).state().blocks, id) >= 0 && !(old(self).state().blocks[id_index(
                old(self).state().blocks,
                id,
            )].kind is ToolCall) ==> *final(self) == *old(self),
            id_index(old(self).state().blocks, id) >= 0 && old(self).state().blocks[id_index(
                old(self).state().blocks,
                id,
            )].kind is ToolCall ==> final(self).state() == with_block(
                old(self).state(),
                id_index(old(self).state().blocks, id),
                Block {
                    kind: completed_kind(
                        old(self).state().blocks[id_index(old(self).state().blocks, id)].kind,
                        output,
                        is_error,
                    ),
                    ..old(self).state().blocks[id_index(old(self).state().blocks, id)]
                },
            ),
            old(self).wf() ==> final(self).wf(),
            old(self).fits() ==> final(self).fits(),
    {
        let ghost s0 = self.state();
        let ghost w0 = self.wf();
        let ghost f0 = self.fits();
        proof {
            lemma_wf(*self);
            lemma_id_index(s0.blocks, id);
        }
        let k = match self.position(id) {
            Some(k) => k,
            None => return ,
        };
        let is_tool = match &self.blocks[k].kind {
            BlockKind::ToolCall { .. } => true,
            _ => false,
        };
        if !is_tool {
            return ;
        }
        let ghost out = output;
        match &mut self.blocks[k].kind {
            BlockKind::ToolCall { output: slot, is_error: error_slot, .. } => {
                *slot = Some(output);
                *error_slot = is_error;
            },
            _ => vstd::pervasive::unreached(),
        }
        proof {
            let b = Block {
                kind: completed_kind(s0.blocks[k as int].kind, out, is_error),
                ..s0.blocks[k as int]
            };
            assert(self.state().blocks =~= s0.blocks.update(k as int, b));
            if w0 {
                lemma_update_wf(s0, k as int, b);
            }
            if f0 {
                lemma_update_fits(s0, k as int, b);
            }
            lemma_wf(*self);
        }
    }
}

impl Transcript {
    /// Append a text or reasoning delta to the open `Assistant` block,
    /// opening one first if none is open.
    fn apply_delta(&mut self, span: Span)
        requires
            old(self).wf(),
            old(self).fits(),
        ensures
            delta_applied(old(self).state(), final(self).state(), span_view(span)),
            final(self).wf(),
    {
        let ghost s0 = self.state();
        proof {
            lemma_wf(*self);
        }
        let id = match self.open_assistant {
            Some(id) => {
                proof {
                    lemma_id_index(s0.blocks, id);
                }
                id
            },
            None => {
                let fresh = BlockKind::Assistant { spans: Vec::new() };
                let ghost gk = fresh;
                let id = self.push(fresh);
                self.open_assistant = Some(id);
                proof {
                    lemma_id_index_push(s0.blocks, new_block(s0, gk, false), id);
                    lemma_id_index(s0.blocks, id);
                    if s0.blocks.len() > 0 {
                        lemma_unique_index(s0, 0);
                    } else {
                        assert(id_index(s0.blocks, id) == -1);
                    }
                    lemma_push_wf(s0, gk, false);
                    lemma_wf(*self);
                }
                id
            },
        };
        proof {
            lemma_wf(*self);
            lemma_id_index(self.state().blocks, id);
        }
        self.push_span(id, span);
        proof {
            let s2 = self.state();
            if s0.open_assistant is None {
                let k = s0.blocks.len() as int;
                assert(s2.blocks[k].id == BlockId(s0.next_id));
                assert(spans_view(seq![]) =~= seq![]);
                assert(s2.blocks =~= s0.blocks.push(
                    Block {
                        id: BlockId(s0.next_id),
                        collapsed: false,
                        pinned: false,
                        kind: s2.blocks[k].kind,
                    },
                ));
                assert(coalesce(seq![], span_view(span)) =~= seq![span_view(span)]);
            }
        }
    }

    /// Close the open `Assistant` block, so the next text delta starts a
    /// fresh block.
    fn close_open_assistant(&mut self)
        requires
            old(self).wf(),
        ensures
            final(self).state() == (TranscriptState { open_assistant: None, ..old(self).state() }),
            final(self).wf(),
            old(self).fits() ==> final(self).fits(),
    {
        proof {
            lemma_wf(*self);
        }
        self.open_assistant = None;
        proof {
            lemma_wf(*self);
        }
    }

    /// A tool call closes whatever `Assistant` block is open, then appends
    /// a new collapsed `ToolCall` block awaiting its result.
    fn apply_tool_call_start(&mut self, tool: String, args: String)
        requires
            old(self).wf(),
            old(self).fits(),
        ensures
            final(self).state() == (TranscriptState {
                blocks: old(self).state().blocks.push(
                    new_block(
                        old(self).state(),
                        BlockKind::ToolCall { tool, args, output: None, is_error: false },
                        true,
                    ),
                ),
                next_id: (old(self).state().next_id + 1) as u64,
                open_assistant: None,
            }),
            final(self).wf(),
    {
        proof {
            lemma_wf(*self);
        }
        self.close_open_assistant();
        self.push_collapsed(BlockKind::ToolCall { tool, args, output: None, is_error: false }, true);
    }

    /// A tool call's end carries no id, so its target is the most recent
    /// `ToolCall` block whose output is still missing.
    fn apply_tool_call_end(&mut self, output: String, is_error: bool)
        requires
            old(self).wf(),
        ensures
            tool_end_applied(old(self).state(), final(self).state(), output, is_error),
            final(self).wf(),
            old(self).fits() ==> final(self).fits(),
    {
        let ghost s0 = self.state();
        let ghost p = is_pending_tool();
        let mut i = self.blocks.len();
        let mut found = false;
        while i > 0 && !found
            invariant
                i <= self.blocks@.len(),
                self.state() == s0,
                p == is_pending_tool(),
                found ==> i > 0 && p(self.blocks@[i - 1]),
                forall|j: int| i <= j < self.blocks@.len() ==> !p(#[trigger] self.blocks@[j]),
            decreases i + if found {
                0int
            } else {
                1int
            },
        {
            let pending = match &self.blocks[i - 1].kind {
                BlockKind::ToolCall { output: None, .. } => true,
                _ => false,
            };
            if pending {
                found = true;
            } else {
                i = i - 1;
            }
        }
        if !found {
            proof {
                lemma_last_where_unique(s0.blocks, p, -1);
            }
            return ;
        }
        let k = i - 1;
        proof {
            lemma_last_where_unique(s0.blocks, p, k as int);
            lemma_wf(*self);
            lemma_unique_index(s0, k as int);
        }
        let id = self.blocks[k].id;
        self.complete_tool_call(id, output, is_error);
    }

    /// Apply one `StreamEvent`, mutating the transcript to match.
    pub fn apply_stream_event(&mut self, event: StreamEvent)
        requires
            old(self).wf(),
            old(self).fits(),
        ensures
            stream_applied(old(self).state(), final(self).state(), event),
            final(self).wf(),
    {
        let ghost s0 = self.state();
        proof {
            lemma_wf(*self);
        }
        match event {
            StreamEvent::Text { text, .. } => self.apply_delta(Span::Text(text)),
            StreamEvent::Reasoning { text, .. } => self.apply_delta(Span::Reasoning(text)),
            StreamEvent::ToolCallStart { tool, args, .. } => self.apply_tool_call_start(tool, args),
            StreamEvent::ToolCallEnd { output, is_error, .. } => self.apply_tool_call_end(
                output,
                is_error,
            ),
            StreamEvent::TurnEnd { .. } => self.close_open_assistant(),
            StreamEvent::Interrupted { message } => {
                self.push(BlockKind::Notice { text: message, severity: Severity::Warning });
            },
            StreamEvent::Error { message } => {
                self.push(BlockKind::Notice { text: message, severity: Severity::Error });
            },
            StreamEvent::SessionReset => {},
            StreamEvent::RepeatIterationStart { .. } => {},
            StreamEvent::RepeatFinished { .. } => {},
            StreamEvent::ConversationSnapshot { .. } => {},
        }
    }
}

/// Selects the `Subagent` block tracking dispatch `id`.
pub open spec fn is_subagent_for(id: SubagentId) -> spec_fn(Block) -> bool {
    |b: Block| b.kind matches BlockKind::Subagent { subagent_id, .. } && subagent_id == id
}

/// The state a terminal event moves a subagent block to: `TurnEnd` means
/// done, `Error` failed, `Interrupted` interrupted. Any other event is not
/// terminal.
pub open spec fn terminal_state(event: StreamEvent) -> Option<SubagentState> {
    match event {
        StreamEvent::TurnEnd { .. } => Some(SubagentState::Done),
        StreamEvent::Error { .. } => Some(SubagentState::Failed),
        StreamEvent::Interrupted { .. } => Some(SubagentState::Interrupted),
        _ => None,
    }
}

/// A subagent kind whose four live counts are the hop's.
pub open spec fn counts_from_hop(k: BlockKind, hop: RouteHop) -> bool {
    k matches BlockKind::Subagent {
        session_turns,
        session_turn_cap,
        send_message_calls,
        send_message_call_cap,
        ..
    } && session_turns == hop.session_turns && session_turn_cap == hop.session_turn_cap
        && send_message_calls == hop.send_message_calls && send_message_call_cap
        == hop.send_message_call_cap
}

/// An existing subagent block's kind after a hop naming it: same dispatch,
/// backend, model and depth; the hop's counts; and, on the hop the event is
/// native to (`last`), a terminal event's state with the clock reading
/// consumed. Otherwise state, elapsed time and clock reading stay.
pub open spec fn hop_updated(
    ok: BlockKind,
    nk: BlockKind,
    hop: RouteHop,
    last: bool,
    event: StreamEvent,
) -> bool {
    match (ok, nk) {
        (
            BlockKind::Subagent {
                subagent_id: a1,
                backend: b1,
                model: m1,
                depth: d1,
                state: s1,
                elapsed_ms: e1,
                started_at: t1,
                ..
            },
            BlockKind::Subagent {
                subagent_id: a2,
                backend: b2,
                model: m2,
                depth: d2,
                state: s2,
                elapsed_ms: e2,
                started_at: t2,
                ..
            },
        ) => {
            &&& a1 == a2
            &&& b1 == b2
            &&& m1 == m2
            &&& d1 == d2
            &&& counts_from_hop(nk, hop)
            &&& if last && terminal_state(event) is Some {
                &&& s2 == terminal_state(event)->0
                &&& t2 is None
                &&& t1 is None ==> e2 == e1
            } else {
                &&& s2 == s1
                &&& e2 == e1
                &&& t2 == t1
            }
        },
        _ => false,
    }
}

/// A newly created subagent block's kind: seeded from the hop's dispatch
/// and meta, with the hop's counts; running, with a clock reading, unless
/// the event it was created for is a terminal one native to it.
pub open spec fn created_kind(nk: BlockKind, hop: RouteHop, last: bool, event: StreamEvent) -> bool {
    match nk {
        BlockKind::Subagent {
            subagent_id,
            backend,
            model,
            depth,
            state,
            elapsed_ms,
            started_at,
            ..
        } => {
            &&& subagent_id == hop.id
            &&& backend == hop.meta.backend
            &&& model == hop.meta.model
            &&& depth == hop.meta.depth
            &&& counts_from_hop(nk, hop)
            &&& if last && terminal_state(event) is Some {
                &&& state == terminal_state(event)->0
                &&& started_at is None
            } else {
                &&& state == SubagentState::Running
                &&& elapsed_ms == 0
                &&& started_at is Some
            }
        },
        _ => false,
    }
}

/// What one `RoutedEvent` does to a transcript. An empty route is the
/// transcript's own event. Otherwise the first hop's `Subagent` block is
/// found by dispatch id, or created collapsed at the end if this is the
/// first event seen for that dispatch; its counts (and, on the last hop,
/// its state) are refreshed; and the rest of the route is applied to its
/// own transcript.
pub open spec fn routed_applied(
    old: TranscriptState,
    new: TranscriptState,
    route: Seq<RouteHop>,
    event: StreamEvent,
) -> bool
    decreases route.len(),
{
    if route.len() == 0 {
        stream_applied(old, new, event)
    } else {
        let hop = route[0];
        let last = route.len() == 1;
        let k = first_where(old.blocks, is_subagent_for(hop.id));
        if k >= 0 {
            &&& k < old.blocks.len()
            &&& k < new.blocks.len()
            &&& new.blocks[k].kind is Subagent
            &&& new == with_block(old, k, Block { kind: new.blocks[k].kind, ..old.blocks[k] })
            &&& hop_updated(old.blocks[k].kind, new.blocks[k].kind, hop, last, event)
            &&& routed_applied(
                old.blocks[k].kind->transcript.state(),
                new.blocks[k].kind->transcript.state(),
                route.drop_first(),
                event,
            )
        } else {
            let n = old.blocks.len() as int;
            &&& new.blocks.len() == n + 1
            &&& new == TranscriptState {
                blocks: old.blocks.push(
                    Block {
                        id: BlockId(old.next_id),
                        collapsed: true,
                        pinned: false,
                        kind: new.blocks[n].kind,
                    },
                ),
                next_id: (old.next_id + 1) as u64,
                open_assistant: old.open_assistant,
            }
            &&& created_kind(new.blocks[n].kind, hop, last, event)
            &&& routed_applied(
                fresh_state(),
                new.blocks[n].kind->transcript.state(),
                route.drop_first(),
                event,
            )
        }
    }
}

impl Transcript {
    /// The position of the `Subagent` block already tracking `subagent_id`,
    /// or of a new one, collapsed and running, seeded from `meta`.
    fn find_or_create_subagent_block(&mut self, subagent_id: SubagentId, meta: SubagentMeta) -> (k: usize)
        requires
            old(self).wf(),
            old(self).fits(),
        ensures
            first_where(old(self).state().blocks, is_subagent_for(subagent_id)) >= 0 ==> k
                == first_where(old(self).state().blocks, is_subagent_for(subagent_id)) && *final(self)
                == *old(self),
            first_where(old(self).state().blocks, is_subagent_for(subagent_id)) == -1 ==> ({
                let n = old(self).state().blocks.len() as int;
                &&& k == n
                &&& final(self).state().blocks.len() == n + 1
                &&& final(self).state() == TranscriptState {
                    blocks: old(self).state().blocks.push(
                        Block {
                            id: BlockId(old(self).state().next_id),
                            collapsed: true,
                            pinned: false,
                            kind: final(self).state().blocks[n].kind,
                        },
                    ),
                    next_id: (old(self).state().next_id + 1) as u64,
                    open_assistant: old(self).state().open_assistant,
                }
                &&& final(self).state().blocks[n].kind matches BlockKind::Subagent {
                    subagent_id: sid,
                    backend,
                    model,
                    depth,
                    state,
                    elapsed_ms,
                    started_at,
                    transcript,
                    ..
                } && sid == subagent_id && backend == meta.backend && model == meta.model && depth
                    == meta.depth && state == SubagentState::Running && elapsed_ms == 0
                    && started_at is Some && transcript.state() == fresh_state() && transcript.wf()
                    && transcript.fits()
            }),
            k < final(self).state().blocks.len(),
            final(self).wf(),
            final(self).fits() || first_where(old(self).state().blocks, is_subagent_for(subagent_id)) == -1,
    {
        let ghost s0 = self.state();
        let ghost p = is_subagent_for(subagent_id);
        proof {
            lemma_first_where(s0.blocks, p);
        }
        let mut i: usize = 0;
        while i < self.blocks.len()
            invariant
                i <= self.blocks@.len(),
                self.state() == s0,
                *self == *old(self),
                old(self).wf(),
                old(self).fits(),
                p == is_subagent_for(subagent_id),
                forall|j: int| 0 <= j < i ==> !p(#[trigger] self.blocks@[j]),
            decreases self.blocks.len() - i,
        {
            let hit = match &self.blocks[i].kind {
                BlockKind::Subagent { subagent_id: id, .. } => *id == subagent_id,
                _ => false,
            };
            if hit {
                proof {
                    lemma_first_where_unique(s0.blocks, p, i as int);
                }
                return i;
            }
            i = i + 1;
        }
        proof {
            lemma_first_where_unique(s0.blocks, p, -1);
            lemma_wf(*self);
        }
        let nested = Transcript::new();
        let kind = BlockKind::Subagent {
            subagent_id,
            backend: meta.backend,
            model: meta.model,
            depth: meta.depth,
            state: SubagentState::Running,
            elapsed_ms: 0,
            started_at: Some(instant_now()),
            transcript: Box::new(nested),
            session_turns: 0,
            session_turn_cap: 0,
            send_message_calls: 0,
            send_message_call_cap: 0,
        };
        let n = self.blocks.len();
        self.push_collapsed(kind, true);
        n
    }

    /// Apply one `RoutedEvent`. An empty route behaves exactly as
    /// `apply_stream_event` does; a non-empty route descends through the
    /// chain of subagent blocks it names, creating each one the first time
    /// its dispatch is seen.
    pub fn apply_routed_event(&mut self, routed: RoutedEvent)
        requires
            old(self).wf(),
            old(self).fits(),
        ensures
            routed_applied(old(self).state(), final(self).state(), routed.route@, routed.event),
            final(self).wf(),
        decreases routed.route@.len(),
    {
        let ghost s0 = self.state();
        let ghost route0 = routed.route@;
        let ghost event0 = routed.event;
        let RoutedEvent { mut route, event } = routed;
        if route.len() == 0 {
            self.apply_stream_event(event);
            return ;
        }
        let hop = route.remove(0);
        assert(route@ =~= route0.drop_first());
        let last = route.len() == 0;
        let ghost p = is_subagent_for(hop.id);
        let k = self.find_or_create_subagent_block(hop.id, hop.meta);
        let ghost s1 = self.state();
        let ghost w1 = self.wf();
        proof {
            lemma_wf(*self);
            lemma_first_where(s0.blocks, p);
            if first_where(s0.blocks, p) >= 0 {
                assert(kind_fits(s1.blocks[k as int].kind));
            }
        }
        let terminal = match &event {
            StreamEvent::TurnEnd { .. } => Some(SubagentState::Done),
            StreamEvent::Error { .. } => Some(SubagentState::Failed),
            StreamEvent::Interrupted { .. } => Some(SubagentState::Interrupted),
            _ => None,
        };
        assert(terminal == terminal_state(event));
        match &mut self.blocks[k].kind {
            BlockKind::Subagent {
                state,
                elapsed_ms,
                started_at,
                transcript,
                session_turns,
                session_turn_cap,
                send_message_calls,
                send_message_call_cap,
                ..
            } => {
                *session_turns = hop.session_turns;
                *session_turn_cap = hop.session_turn_cap;
                *send_message_calls = hop.send_message_calls;
                *send_message_call_cap = hop.send_message_call_cap;
                if last {
                    if let Some(new_state) = terminal {
                        *state = new_state;
                        if let Some(start) = started_at.take() {
                            *elapsed_ms = elapsed_millis(&start);
                        }
                    }
                }
                transcript.apply_routed_event(RoutedEvent { route, event });
            },
            _ => vstd::pervasive::unreached(),
        }
        proof {
            let s2 = self.state();
            let b = Block { kind: s2.blocks[k as int].kind, ..s1.blocks[k as int] };
            assert(s2.blocks =~= s1.blocks.update(k as int, b));
            assert(kind_wf(b.kind));
            lemma_update_wf(s1, k as int, b);
            lemma_wf(*self);
            if first_where(s0.blocks, p) >= 0 {
                assert(s1 == s0);
            } else {
                let n = s0.blocks.len() as int;
                assert(s2.blocks =~= s0.blocks.push(
                    Block {
                        id: BlockId(s0.next_id),
                        collapsed: true,
                        pinned: false,
                        kind: s2.blocks[n].kind,
                    },
                ));
            }
        }
    }
}

// ---------------------------------------------------------------------
// Laws
// ---------------------------------------------------------------------
/// Ids stay stable across appends: appending a block to a well-formed
/// transcript leaves every block already there as it was, at the same
/// position, and the new block's id is held by no earlier block, so a
/// lookup by any earlier id still finds the same block.
pub proof fn lemma_append_keeps_ids_stable(s: TranscriptState, kind: BlockKind, collapsed: bool)
    requires
        state_wf(s),
    ensures
        ({
            let t = pushed_block(s, new_block(s, kind, collapsed));
            &&& t.blocks.len() == s.blocks.len() + 1
            &&& forall|i: int| 0 <= i < s.blocks.len() ==> t.blocks[i] == s.blocks[i]
            &&& forall|i: int| 0 <= i < s.blocks.len() ==> s.blocks[i].id != BlockId(s.next_id)
            &&& forall|i: int| 0 <= i < s.blocks.len() ==> id_index(t.blocks, #[trigger] s.blocks[i].id) == i
            &&& id_index(t.blocks, BlockId(s.next_id)) == s.blocks.len()
        }),
{
    let b = new_block(s, kind, collapsed);
    let t = pushed_block(s, b);
    assert forall|i: int| 0 <= i < s.blocks.len() implies id_index(t.blocks, #[trigger] s.blocks[i].id) == i by {
        assert(t.blocks[i] == s.blocks[i]);
        assert forall|j: int| 0 <= j < i implies !has_id(s.blocks[i].id)(#[trigger] t.blocks[j]) by {
            assert(t.blocks[j] == s.blocks[j]);
        }
        lemma_first_where_unique(t.blocks, has_id(s.blocks[i].id), i);
    }
    let n = s.blocks.len() as int;
    assert forall|j: int| 0 <= j < n implies !has_id(BlockId(s.next_id))(#[trigger] t.blocks[j]) by {
        assert(t.blocks[j] == s.blocks[j]);
    }
    lemma_first_where_unique(t.blocks, has_id(BlockId(s.next_id)), n);
}

/// Clearing never lets an old id come back: after a clear, the next block
/// appended gets an id that no block held before the clear.
pub proof fn lemma_clear_never_reuses_ids(before: TranscriptState, after: TranscriptState, kind: BlockKind)
    requires
        state_wf(before),
        after == (TranscriptState { blocks: seq![], next_id: before.next_id, open_assistant: None }),
    ensures
        forall|i: int| 0 <= i < before.blocks.len() ==> (#[trigger] before.blocks[i]).id != new_block(after, kind, false).id,
{
}

/// Every block of a subagent block's nested transcript is structurally
/// smaller than the subagent block itself, so recursion over the nesting
/// terminates.
pub proof fn lemma_nested_blocks_decrease(b: Block)
    requires
        b.kind is Subagent,
    ensures
        forall|i: int|
            0 <= i < b.kind->transcript.state().blocks.len() ==> decreases_to!(b => #[trigger] b.kind->transcript.state().blocks[i]),
{
    let t = b.kind->transcript;
    assert forall|i: int| 0 <= i < t.state().blocks.len() implies decreases_to!(b => #[trigger] t.state().blocks[i]) by {
        assert(decreases_to!(b => b.kind));
        assert(decreases_to!(b.kind => t));
        assert(decreases_to!(t => t.blocks));
        assert(decreases_to!(t.blocks => t.blocks@));
        assert(decreases_to!(t.blocks@ => t.blocks@[i]));
    }
}

/// One past the highest id in `blocks`, or 0 when there are none.
pub open spec fn safe_next_id(blocks: Seq<Block>) -> u64
    decreases blocks.len(),
{
    if blocks.len() == 0 {
        0
    } else {
        max_u64(safe_next_id(blocks.drop_last()), (blocks.last().id.0 + 1) as u64)
    }
}

pub open spec fn max_u64(a: u64, b: u64) -> u64 {
    if a >= b {
        a
    } else {
        b
    }
}

pub proof fn lemma_safe_next_id(blocks: Seq<Block>)
    ensures
        forall|i: int|
            0 <= i < blocks.len() && (#[trigger] blocks[i]).id.0 < u64::MAX ==> blocks[i].id.0
                < safe_next_id(blocks),
    decreases blocks.len(),
{
    if blocks.len() > 0 {
        lemma_safe_next_id(blocks.drop_last());
        assert forall|i: int|
            0 <= i < blocks.len() && (#[trigger] blocks[i]).id.0 < u64::MAX implies blocks[i].id.0
            < safe_next_id(blocks) by {
            if i < blocks.len() - 1 {
                assert(blocks[i] == blocks.drop_last()[i]);
            }
        }
    }
}

/// No two `Subagent` blocks of `blocks` track the same dispatch.
pub open spec fn level_ids_distinct(blocks: Seq<Block>) -> bool {
    forall|i: int, j: int|
        #![trigger blocks[i], blocks[j]]
        0 <= i < j < blocks.len() && blocks[i].kind is Subagent && blocks[j].kind is Subagent
            ==> blocks[i].kind->subagent_id != blocks[j].kind->subagent_id
}

/// A block kind whose nested transcript, if any, keeps dispatch ids apart.
pub open spec fn nested_ids_distinct(k: BlockKind) -> bool {
    match k {
        BlockKind::Subagent { transcript, .. } => transcript.ids_distinct(),
        _ => true,
    }
}

/// Dispatch ids kept apart at this level and in every nested transcript,
/// stated over a transcript's state.
pub open spec fn state_ids_distinct(s: TranscriptState) -> bool {
    &&& level_ids_distinct(s.blocks)
    &&& forall|i: int| 0 <= i < s.blocks.len() ==> nested_ids_distinct(#[trigger] s.blocks[i].kind)
}

/// `new` keeps every `Subagent` block of `old` as it was, and holds no
/// other one.
pub open spec fn subagents_kept(old: Seq<Block>, new: Seq<Block>) -> bool {
    &&& old.len() <= new.len()
    &&& forall|i: int|
        0 <= i < old.len() ==> (#[trigger] new[i] == old[i] || (!(old[i].kind is Subagent)
            && !(new[i].kind is Subagent)))
    &&& forall|i: int| old.len() <= i < new.len() ==> !((#[trigger] new[i]).kind is Subagent)
}

proof fn lemma_kept_distinct(old: TranscriptState, new: TranscriptState)
    requires
        state_ids_distinct(old),
        subagents_kept(old.blocks, new.blocks),
    ensures
        state_ids_distinct(new),
{
    assert forall|i: int, j: int|
        #![trigger new.blocks[i], new.blocks[j]]
        0 <= i < j < new.blocks.len() && new.blocks[i].kind is Subagent && new.blocks[j].kind is Subagent
            implies new.blocks[i].kind->subagent_id != new.blocks[j].kind->subagent_id by {
        assert(new.blocks[i] == old.blocks[i]);
        assert(new.blocks[j] == old.blocks[j]);
    }
    assert forall|i: int| 0 <= i < new.blocks.len() implies nested_ids_distinct(#[trigger] new.blocks[i].kind) by {
        if new.blocks[i].kind is Subagent {
            assert(new.blocks[i] == old.blocks[i]);
        }
    }
}

proof fn lemma_stream_keeps_subagents(old: TranscriptState, new: TranscriptState, event: StreamEvent)
    requires
        stream_applied(old, new, event),
    ensures
        subagents_kept(old.blocks, new.blocks),
{
    match event {
        StreamEvent::Text { text, .. } => lemma_delta_keeps_subagents(old, new, (false, text@)),
        StreamEvent::Reasoning { text, .. } => lemma_delta_keeps_subagents(old, new, (true, text@)),
        StreamEvent::ToolCallEnd { output, is_error, .. } => {
            let k = last_where(old.blocks, is_pending_tool());
            crate::seqs::lemma_last_where(old.blocks, is_pending_tool());
            if k >= 0 {
                assert(is_pending_tool()(old.blocks[k]));
                assert forall|i: int| 0 <= i < old.blocks.len() implies (#[trigger] new.blocks[i] == old.blocks[i]
                    || (!(old.blocks[i].kind is Subagent) && !(new.blocks[i].kind is Subagent))) by {
                    if i != k {
                        assert(new.blocks[i] == old.blocks[i]);
                    }
                }
            }
        },
        _ => {
            assert forall|i: int| 0 <= i < old.blocks.len() implies (#[trigger] new.blocks[i] == old.blocks[i]
                || (!(old.blocks[i].kind is Subagent) && !(new.blocks[i].kind is Subagent))) by {
                assert(new.blocks[i] == old.blocks[i]);
            }
        },
    }
}

proof fn lemma_delta_keeps_subagents(old: TranscriptState, new: TranscriptState, sv: (bool, Seq<char>))
    requires
        delta_applied(old, new, sv),
    ensures
        subagents_kept(old.blocks, new.blocks),
{
    match old.open_assistant {
        Some(id) => {
            let k = id_index(old.blocks, id);
            assert forall|i: int| 0 <= i < old.blocks.len() implies (#[trigger] new.blocks[i] == old.blocks[i]
                || (!(old.blocks[i].kind is Subagent) && !(new.blocks[i].kind is Subagent))) by {
                if i != k {
                    assert(new.blocks[i] == old.blocks[i]);
                }
            }
        },
        None => {
            assert forall|i: int| 0 <= i < old.blocks.len() implies (#[trigger] new.blocks[i] == old.blocks[i]
                || (!(old.blocks[i].kind is Subagent) && !(new.blocks[i].kind is Subagent))) by {
                assert(new.blocks[i] == old.blocks[i]);
            }
        },
    }
}

/// Routing keeps dispatches apart: where no two `Subagent` blocks of one
/// transcript (at any depth) track the same dispatch, none do after a
/// routed event either. A hop whose dispatch already has a block at its
/// level reuses it and leaves the other blocks there as they were; one
/// whose dispatch has none appends exactly one block for it.
pub proof fn lemma_routing_keeps_dispatches_apart(
    old: TranscriptState,
    new: TranscriptState,
    route: Seq<RouteHop>,
    event: StreamEvent,
)
    requires
        state_ids_distinct(old),
        routed_applied(old, new, route, event),
    ensures
        state_ids_distinct(new),
        route.len() > 0 && first_where(old.blocks, is_subagent_for(route[0].id)) >= 0 ==> {
            &&& new.blocks.len() == old.blocks.len()
            &&& forall|i: int|
                0 <= i < old.blocks.len() && i != first_where(old.blocks, is_subagent_for(route[0].id))
                    ==> #[trigger] new.blocks[i] == old.blocks[i]
        },
        route.len() > 0 && first_where(old.blocks, is_subagent_for(route[0].id)) < 0 ==> {
            &&& new.blocks.len() == old.blocks.len() + 1
            &&& new.blocks.last().kind matches BlockKind::Subagent { subagent_id, .. } && subagent_id
                == route[0].id
            &&& forall|i: int| 0 <= i < old.blocks.len() ==> #[trigger] new.blocks[i] == old.blocks[i]
        },
    decreases route.len(),
{
    if route.len() == 0 {
        lemma_stream_keeps_subagents(old, new, event);
        lemma_kept_distinct(old, new);
    } else {
        let hop = route[0];
        let p = is_subagent_for(hop.id);
        let k = first_where(old.blocks, p);
        lemma_first_where(old.blocks, p);
        if k >= 0 {
            let ot = old.blocks[k].kind->transcript;
            let nt = new.blocks[k].kind->transcript;
            assert(nested_ids_distinct(old.blocks[k].kind));
            ot.lemma_ids_distinct_unfold();
            lemma_routing_keeps_dispatches_apart(ot.state(), nt.state(), route.drop_first(), event);
            nt.lemma_ids_distinct_unfold();
            assert forall|i: int, j: int|
                #![trigger new.blocks[i], new.blocks[j]]
                0 <= i < j < new.blocks.len() && new.blocks[i].kind is Subagent && new.blocks[j].kind is Subagent
                    implies new.blocks[i].kind->subagent_id != new.blocks[j].kind->subagent_id by {
                if i != k {
                    assert(new.blocks[i] == old.blocks[i]);
                }
                if j != k {
                    assert(new.blocks[j] == old.blocks[j]);
                }
                assert(old.blocks[i].kind is Subagent && old.blocks[j].kind is Subagent);
            }
            assert forall|i: int| 0 <= i < new.blocks.len() implies nested_ids_distinct(#[trigger] new.blocks[i].kind) by {
                if i != k {
                    assert(new.blocks[i] == old.blocks[i]);
                }
            }
            assert forall|i: int|
                0 <= i < old.blocks.len() && i != k implies #[trigger] new.blocks[i] == old.blocks[i] by {}
        } else {
            let n = old.blocks.len() as int;
            let nt = new.blocks[n].kind->transcript;
            let fresh = fresh_state();
            assert(state_ids_distinct(fresh));
            lemma_routing_keeps_dispatches_apart(fresh, nt.state(), route.drop_first(), event);
            nt.lemma_ids_distinct_unfold();
            assert forall|i: int, j: int|
                #![trigger new.blocks[i], new.blocks[j]]
                0 <= i < j < new.blocks.len() && new.blocks[i].kind is Subagent && new.blocks[j].kind is Subagent
                    implies new.blocks[i].kind->subagent_id != new.blocks[j].kind->subagent_id by {
                assert(new.blocks[i] == old.blocks[i]);
                if j < n {
                    assert(new.blocks[j] == old.blocks[j]);
                } else {
                    assert(!p(old.blocks[i]));
                }
            }
            assert forall|i: int| 0 <= i < new.blocks.len() implies nested_ids_distinct(#[trigger] new.blocks[i].kind) by {
                if i < n {
                    assert(new.blocks[i] == old.blocks[i]);
                }
            }
            assert forall|i: int| 0 <= i < old.blocks.len() implies #[trigger] new.blocks[i] == old.blocks[i] by {}
        }
    }
}

/// A routed event with an empty route is the transcript's own event:
/// it does exactly what `apply_stream_event` does with that event.
pub proof fn lemma_empty_route_is_the_stream_event(
    old: TranscriptState,
    new: TranscriptState,
    event: StreamEvent,
)
    ensures
        routed_applied(old, new, Seq::<RouteHop>::empty(), event) == stream_applied(old, new, event),
{
}

/// Along a route, every dispatch but the innermost keeps its state (a
/// dispatch first seen now starts out running), and each takes its hop's
/// four live counts; only the innermost one takes a terminal event's
/// state.
pub proof fn lemma_outer_hops_keep_their_state(
    old: TranscriptState,
    new: TranscriptState,
    route: Seq<RouteHop>,
    event: StreamEvent,
)
    requires
        routed_applied(old, new, route, event),
        route.len() > 0,
    ensures
        ({
            let k = first_where(old.blocks, is_subagent_for(route[0].id));
            let at = if k >= 0 { k } else { old.blocks.len() as int };
            &&& 0 <= at < new.blocks.len()
            &&& counts_from_hop(new.blocks[at].kind, route[0])
            &&& route.len() > 1 && k >= 0 ==> new.blocks[at].kind->state == old.blocks[k].kind->state
            &&& route.len() > 1 && k < 0 ==> new.blocks[at].kind->state == SubagentState::Running
            &&& route.len() == 1 && terminal_state(event) is Some ==> new.blocks[at].kind->state
                == terminal_state(event)->0
            &&& route.len() == 1 && terminal_state(event) is None && k >= 0 ==> new.blocks[at].kind->state
                == old.blocks[k].kind->state
        }),
{
    lemma_first_where(old.blocks, is_subagent_for(route[0].id));
}

} // verus!
