//! The text the Chat tab shows for transcript blocks: role labels, the
//! one-line summary of a tool call, the header line of a subagent block,
//! and the plain-text form of every block used by the raw-output toggle.
use vstd::prelude::*;

use crate::clock::elapsed_millis;
use crate::text::{
    byte_len,    chars_of, collapse_whitespace, collapse_ws, decimal, decimal_chars, digit, digit_char,
    extend_chars, join, join_chars, lines, push_str_chars, seqs, split_lines, string_of,
};
use crate::transcript::{lemma_nested_blocks_decrease, Block, BlockKind, Span, SubagentState};

verus! {

/// How many characters of a tool call's arguments a collapsed summary shows.
pub const COLLAPSED_ARGS_LEN: usize = 60;

// ---------------------------------------------------------------------
// Labels
// ---------------------------------------------------------------------
/// Who or what produced a block of the given kind.
pub open spec fn role_text(kind: BlockKind) -> Seq<char> {
    match kind {
        BlockKind::User { .. } => "You"@,
        BlockKind::Assistant { .. } => "Assistant"@,
        BlockKind::ToolCall { .. } => "Tool"@,
        BlockKind::Notice { .. } => "Notice"@,
        BlockKind::Subagent { .. } => "Subagent"@,
        BlockKind::Image { .. } => "Image"@,
    }
}

/// The label naming who or what produced a block.
pub fn role_label(kind: &BlockKind) -> (r: &'static str)
    ensures
        r@ == role_text(*kind),
{
    match kind {
        BlockKind::User { .. } => "You",
        BlockKind::Assistant { .. } => "Assistant",
        BlockKind::ToolCall { .. } => "Tool",
        BlockKind::Notice { .. } => "Notice",
        BlockKind::Subagent { .. } => "Subagent",
        BlockKind::Image { .. } => "Image",
    }
}

/// The badge word for a subagent state.
pub open spec fn state_text(state: SubagentState) -> Seq<char> {
    match state {
        SubagentState::Running => "RUNNING"@,
        SubagentState::Done => "DONE"@,
        SubagentState::Failed => "FAILED"@,
        SubagentState::Interrupted => "INTERRUPTED"@,
    }
}

/// The short word shown in a `Subagent` block's header for each state.
pub fn subagent_state_label(state: SubagentState) -> (r: &'static str)
    ensures
        r@ == state_text(state),
{
    match state {
        SubagentState::Running => "RUNNING",
        SubagentState::Done => "DONE",
        SubagentState::Failed => "FAILED",
        SubagentState::Interrupted => "INTERRUPTED",
    }
}

// ---------------------------------------------------------------------
// Tool call summaries
// ---------------------------------------------------------------------
/// Arguments flattened onto one line (every whitespace run one space, the
/// ends trimmed) and, past `max` characters, cut there and marked `...`.
pub open spec fn truncated_args(args: Seq<char>, max: nat) -> Seq<char> {
    let flat = collapse_ws(args);
    if flat.len() <= max {
        flat
    } else {
        flat.take(max as int) + "..."@
    }
}

/// Flatten arguments onto one line and cut them to `max` characters, so a
/// collapsed tool call stays one line however long its arguments are.
pub fn truncate_args(args: &str, max: usize) -> (r: String)
    ensures
        r@ == truncated_args(args@, max as nat),
{
    let cs = chars_of(args);
    let flat = collapse_whitespace(cs.as_slice());
    if flat.len() <= max {
        return string_of(flat.as_slice());
    }
    let mut cut: Vec<char> = Vec::new();
    let mut i: usize = 0;
    while i < max
        invariant
            i <= max < flat@.len(),
            cut@ == flat@.take(i as int),
        decreases max - i,
    {
        cut.push(flat[i]);
        assert(flat@.take(i as int).push(flat@[i as int]) =~= flat@.take(i + 1));
        i = i + 1;
    }
    push_str_chars(&mut cut, "...");
    string_of(cut.as_slice())
}

/// The one-line summary of a tool call: an open or closed marker, the
/// tool's name, `[error]` when the call failed, and its arguments cut to
/// `COLLAPSED_ARGS_LEN` characters.
pub open spec fn tool_summary_text(collapsed: bool, tool: Seq<char>, args: Seq<char>, is_error: bool) -> Seq<char> {
    let marker = if collapsed {
        '\u{25b6}'
    } else {
        '\u{25bc}'
    };
    let error = if is_error {
        " [error]"@
    } else {
        seq![]
    };
    seq![marker, ' '] + tool + error + seq![' ', ' '] + truncated_args(args, COLLAPSED_ARGS_LEN as nat)
}

/// The one-line summary of a tool call. It names the tool and shows
/// enough of the arguments to recognise the call; an errored call says so
/// in the text.
pub fn tool_summary(collapsed: bool, tool: &str, args: &str, is_error: bool) -> (r: String)
    ensures
        r@ == tool_summary_text(collapsed, tool@, args@, is_error),
{
    let marker = if collapsed {
        '\u{25b6}'
    } else {
        '\u{25bc}'
    };
    let mut out: Vec<char> = Vec::new();
    out.push(marker);
    out.push(' ');
    push_str_chars(&mut out, tool);
    if is_error {
        push_str_chars(&mut out, " [error]");
    }
    out.push(' ');
    out.push(' ');
    let cut = truncate_args(args, COLLAPSED_ARGS_LEN);
    push_str_chars(&mut out, cut.as_str());
    proof {
        let error = if is_error {
            " [error]"@
        } else {
            seq![]
        };
        assert(out@ =~= seq![marker, ' '] + tool@ + error + seq![' ', ' '] + cut@);
    }
    string_of(out.as_slice())
}

// ---------------------------------------------------------------------
// Subagent headers
// ---------------------------------------------------------------------
/// Millisecond counts below this are exact as `f64` (2^53).
pub const EXACT_MS_LIMIT: u64 = 9_007_199_254_740_992;

/// `4503599627370496000`: 2^52 thousandths, the bottom of the range in
/// which `ms * 2^s`, read in thousandths, lines up with an `f64`
/// significand.
pub open spec fn significand_floor() -> nat {
    4503599627370496000
}

/// `t` doubled until it reaches `significand_floor()` (a zero stays zero).
pub open spec fn scale_up(t: nat) -> nat
    decreases (if t < significand_floor() { significand_floor() - t } else { 0 }),
{
    if t == 0 || t >= significand_floor() {
        t
    } else {
        scale_up(2 * t)
    }
}

/// How the `f64` nearest to `ms / 1000` lies against that exact value:
/// 1 above, -1 below, 0 equal. Division rounds to the nearest `f64`, a
/// tie going to the even significand.
pub open spec fn f64_offset(ms: nat) -> int {
    let t = scale_up(ms);
    let n = t / 1000;
    let r = t % 1000;
    if r == 0 {
        0
    } else if r > 500 || (r == 500 && n % 2 == 1) {
        1
    } else {
        -1
    }
}

/// The elapsed time in tenths of a second as `{:.1}` prints `ms as f64 /
/// 1000.0`: the exact tenths when they are not a tie; on a tie (`ms`
/// ending in 50) the way the `f64` quotient lies, and a tie that the
/// quotient keeps exactly goes to the even neighbour. From 2^53
/// milliseconds on, where the count itself is no longer exact as an
/// `f64`, ties go to the even neighbour.
pub open spec fn tenths(ms: nat) -> nat {
    let q = ms / 100;
    let r = ms % 100;
    if r > 50 {
        q + 1
    } else if r < 50 {
        q
    } else if ms < EXACT_MS_LIMIT && f64_offset(ms) != 0 {
        if f64_offset(ms) > 0 {
            q + 1
        } else {
            q
        }
    } else if q % 2 == 1 {
        q + 1
    } else {
        q
    }
}

fn f64_offset_of(ms: u64) -> (d: i8)
    requires
        ms < EXACT_MS_LIMIT,
    ensures
        d == f64_offset(ms as nat),
{
    let mut t: u128 = ms as u128;
    while t != 0 && t < 4503599627370496000
        invariant
            t < 2 * significand_floor(),
            scale_up(t as nat) == scale_up(ms as nat),
        decreases 9007199254740992000 - t,
    {
        t = 2 * t;
    }
    let n = t / 1000;
    let r = t % 1000;
    if r == 0 {
        0
    } else if r > 500 || (r == 500 && n % 2 == 1) {
        1
    } else {
        -1
    }
}

/// A millisecond count as seconds with one decimal place, such as `1.5s`.
pub open spec fn elapsed_text(ms: nat) -> Seq<char> {
    decimal(tenths(ms) / 10) + seq!['.', digit_char(tenths(ms) % 10), 's']
}

/// Format a millisecond count as seconds with one decimal place.
pub fn format_elapsed_ms(elapsed_ms: u64) -> (r: String)
    ensures
        r@ == elapsed_text(elapsed_ms as nat),
{
    let q = elapsed_ms / 100;
    let rem = elapsed_ms % 100;
    let t = if rem > 50 {
        q + 1
    } else if rem < 50 {
        q
    } else {
        let d = if elapsed_ms < EXACT_MS_LIMIT {
            f64_offset_of(elapsed_ms)
        } else {
            0
        };
        if d > 0 {
            q + 1
        } else if d < 0 {
            q
        } else if q % 2 == 1 {
            q + 1
        } else {
            q
        }
    };
    let mut out = decimal_chars(t / 10);
    out.push('.');
    out.push(digit(t % 10));
    out.push('s');
    string_of(out.as_slice())
}

/// The header line of a subagent block: state badge, backend and model,
/// depth, elapsed time, and the session's turn and `SendMessage` counts
/// against their caps.
pub open spec fn header_text(
    backend: Seq<char>,
    model: Seq<char>,
    depth: u32,
    state: SubagentState,
    elapsed_ms: u64,
    session_turns: u32,
    session_turn_cap: u32,
    send_message_calls: u32,
    send_message_call_cap: u32,
) -> Seq<char> {
    "["@ + state_text(state) + "] "@ + backend + "/"@ + model + " (depth "@ + decimal(depth as nat)
        + ") - "@ + elapsed_text(elapsed_ms as nat) + " - turns "@ + decimal(session_turns as nat)
        + "/"@ + decimal(session_turn_cap as nat) + " - sends "@ + decimal(
        send_message_calls as nat,
    ) + "/"@ + decimal(send_message_call_cap as nat)
}

fn push_decimal(out: &mut Vec<char>, n: u32)
    ensures
        final(out)@ == old(out)@ + decimal(n as nat),
{
    let d = decimal_chars(n as u64);
    extend_chars(out, d.as_slice());
}

/// The one-line header summary for a `Subagent` block, shared by the
/// collapsing header and the raw-output path.
pub fn subagent_header_summary(
    backend: &str,
    model: &str,
    depth: u32,
    state: SubagentState,
    elapsed_ms: u64,
    session_turns: u32,
    session_turn_cap: u32,
    send_message_calls: u32,
    send_message_call_cap: u32,
) -> (r: String)
    ensures
        r@ == header_text(
            backend@,
            model@,
            depth,
            state,
            elapsed_ms,
            session_turns,
            session_turn_cap,
            send_message_calls,
            send_message_call_cap,
        ),
{
    let mut out: Vec<char> = Vec::new();
    push_str_chars(&mut out, "[");
    push_str_chars(&mut out, subagent_state_label(state));
    push_str_chars(&mut out, "] ");
    push_str_chars(&mut out, backend);
    push_str_chars(&mut out, "/");
    push_str_chars(&mut out, model);
    push_str_chars(&mut out, " (depth ");
    push_decimal(&mut out, depth);
    push_str_chars(&mut out, ") - ");
    let elapsed = format_elapsed_ms(elapsed_ms);
    push_str_chars(&mut out, elapsed.as_str());
    push_str_chars(&mut out, " - turns ");
    push_decimal(&mut out, session_turns);
    push_str_chars(&mut out, "/");
    push_decimal(&mut out, session_turn_cap);
    push_str_chars(&mut out, " - sends ");
    push_decimal(&mut out, send_message_calls);
    push_str_chars(&mut out, "/");
    push_decimal(&mut out, send_message_call_cap);
    string_of(out.as_slice())
}

/// The elapsed time to show for a `Subagent` block: the stored value once
/// a terminal event has taken `started_at`, or a live reading of the
/// clock while the dispatch runs.
pub fn subagent_elapsed_ms(started_at: Option<std::time::Instant>, stored_elapsed_ms: u64) -> (r: u64)
    ensures
        started_at is None ==> r == stored_elapsed_ms,
{
    match started_at {
        Some(start) => elapsed_millis(&start),
        None => stored_elapsed_ms,
    }
}

// ---------------------------------------------------------------------
// Raw text
// ---------------------------------------------------------------------
/// One assistant span as raw text, reasoning marked apart from the reply.
pub open spec fn span_text(span: Span) -> Seq<char> {
    match span {
        Span::Text(t) => t@,
        Span::Reasoning(t) => "[reasoning] "@ + t@,
    }
}

/// One assistant span as raw text, with reasoning marked so it does not
/// read as part of the reply.
pub fn raw_span_text(span: &Span) -> (r: String)
    ensures
        r@ == span_text(*span),
{
    match span {
        Span::Text(text) => text.clone(),
        Span::Reasoning(text) => {
            let mut out = chars_of("[reasoning] ");
            push_str_chars(&mut out, text.as_str());
            string_of(out.as_slice())
        },
    }
}

/// Every line of `body` indented by two spaces, the lines joined by `\n`.
pub open spec fn indented(body: Seq<char>) -> Seq<char> {
    join(lines(body).map_values(|l: Seq<char>| seq![' ', ' '] + l), seq!['\n'])
}

/// A subagent block's raw text from its header and the joined raw text of
/// its nested blocks: the header alone when that is empty, else the
/// header over the nested text indented by two spaces.
pub open spec fn subagent_raw(header: Seq<char>, body: Seq<char>) -> Seq<char> {
    if body.len() == 0 {
        header
    } else {
        header + seq!['\n'] + indented(body)
    }
}

/// The raw text of every block but a subagent one, which depends on a
/// clock reading and is described by `raw_text_ok`.
pub open spec fn plain_raw_text(kind: BlockKind) -> Seq<char> {
    match kind {
        BlockKind::User { text } => role_text(kind) + ": "@ + text@,
        BlockKind::Assistant { spans } => role_text(kind) + ":\n"@ + join(
            spans@.map_values(|s: Span| span_text(s)),
            seq!['\n'],
        ),
        BlockKind::ToolCall { tool, args, output, .. } => seq!['\u{2699}', ' '] + tool@ + seq![' ']
            + args@ + seq!['\n', ' ', ' ', '\u{2192}', ' '] + match output {
            Some(o) => o@,
            None => "(running)"@,
        },
        BlockKind::Notice { text, .. } => text@,
        BlockKind::Image { image } => "[image: "@ + image.media_type@ + ", "@ + decimal(
            byte_len(image.data@),
        ) + " bytes base64]"@,
        _ => seq![],
    }
}

/// `text` is the raw text of block `b`: exact for every kind but a
/// subagent one, whose header shows some elapsed time `el` (the stored
/// value once the dispatch has finished) over nested blocks whose raw
/// texts are `parts`.
pub open spec fn raw_text_ok(b: Block, text: Seq<char>) -> bool
    decreases b,
{
    match b.kind {
        BlockKind::Subagent { transcript, .. } => exists|el: u64, parts: Seq<Seq<char>>|
            {
                &&& #[trigger] subagent_text_is(b, el, parts, text)
                &&& forall|i: int|
                    0 <= i < parts.len() ==> {
                        proof {
                            lemma_nested_blocks_decrease(b);
                        }
                        raw_text_ok(#[trigger] transcript.state().blocks[i], parts[i])
                    }
            },
        _ => text == plain_raw_text(b.kind),
    }
}

/// `text` is what subagent block `b` reads as when its elapsed time is
/// `el` (which must be the stored value once `started_at` is gone) and its
/// nested blocks, one part each, read as `parts`.
pub open spec fn subagent_text_is(b: Block, el: u64, parts: Seq<Seq<char>>, text: Seq<char>) -> bool {
    match b.kind {
        BlockKind::Subagent {
            backend,
            model,
            depth,
            state,
            elapsed_ms,
            started_at,
            transcript,
            session_turns,
            session_turn_cap,
            send_message_calls,
            send_message_call_cap,
            ..
        } => {
            &&& started_at is None ==> el == elapsed_ms
            &&& parts.len() == transcript.state().blocks.len()
            &&& text == subagent_raw(
                header_text(
                    backend@,
                    model@,
                    depth,
                    state,
                    el,
                    session_turns,
                    session_turn_cap,
                    send_message_calls,
                    send_message_call_cap,
                ),
                join(parts, seq!['\n']),
            )
        },
        _ => false,
    }
}

/// The raw texts of `spans`, joined by `\n`.
fn spans_text(spans: &Vec<Span>) -> (r: Vec<char>)
    ensures
        r@ == join(spans@.map_values(|s: Span| span_text(s)), seq!['\n']),
{
    let mut parts: Vec<Vec<char>> = Vec::new();
    let mut i: usize = 0;
    while i < spans.len()
        invariant
            i <= spans@.len(),
            seqs(parts@) == spans@.take(i as int).map_values(|s: Span| span_text(s)),
        decreases spans.len() - i,
    {
        let t = raw_span_text(&spans[i]);
        let ghost before = seqs(parts@);
        parts.push(chars_of(t.as_str()));
        assert(seqs(parts@) =~= before.push(span_text(spans@[i as int])));
        assert(spans@.take(i + 1).map_values(|s: Span| span_text(s)) =~= spans@.take(
            i as int,
        ).map_values(|s: Span| span_text(s)).push(span_text(spans@[i as int])));
        i = i + 1;
    }
    assert(spans@.take(spans@.len() as int) =~= spans@);
    let sep = ['\n'];
    assert(sep@ =~= seq!['\n']);
    join_chars(&parts, &sep)
}

/// Every line of `body` indented by two spaces, joined by `\n`.
fn indent_lines(body: &[char]) -> (r: Vec<char>)
    ensures
        r@ == indented(body@),
{
    let ls = split_lines(body);
    let ghost want = lines(body@).map_values(|l: Seq<char>| seq![' ', ' '] + l);
    let mut out: Vec<Vec<char>> = Vec::new();
    let mut i: usize = 0;
    while i < ls.len()
        invariant
            i <= ls@.len(),
            seqs(ls@) == lines(body@),
            want == lines(body@).map_values(|l: Seq<char>| seq![' ', ' '] + l),
            seqs(out@) == want.take(i as int),
        decreases ls.len() - i,
    {
        let mut line: Vec<char> = Vec::new();
        line.push(' ');
        line.push(' ');
        extend_chars(&mut line, ls[i].as_slice());
        let ghost before = seqs(out@);
        assert(line@ =~= seq![' ', ' '] + seqs(ls@)[i as int]);
        out.push(line);
        assert(seqs(out@) =~= before.push(want[i as int]));
        assert(want.take(i + 1) =~= want.take(i as int).push(want[i as int]));
        i = i + 1;
    }
    assert(want.take(want.len() as int) =~= want);
    let sep = ['\n'];
    assert(sep@ =~= seq!['\n']);
    join_chars(&out, &sep)
}

/// One block as raw text for the raw-output toggle: a role label for a
/// user or assistant block, reasoning marked apart, a tool call's
/// arguments and output (or `(running)`), a notice's text, an image's
/// media type and size, and for a subagent block its header line over the
/// raw text of its nested blocks, indented.
pub fn raw_block_text(block: &Block) -> (r: String)
    ensures
        raw_text_ok(*block, r@),
    decreases block,
{
    match &block.kind {
        BlockKind::User { text } => {
            let mut out = chars_of(role_label(&block.kind));
            push_str_chars(&mut out, ": ");
            push_str_chars(&mut out, text.as_str());
            let r = string_of(out.as_slice());
            assert(r@ =~= plain_raw_text(block.kind));
            assert(raw_text_ok(*block, r@));
            r
        },
        BlockKind::Assistant { spans } => {
            let mut out = chars_of(role_label(&block.kind));
            push_str_chars(&mut out, ":\n");
            let body = spans_text(spans);
            extend_chars(&mut out, body.as_slice());
            let r = string_of(out.as_slice());
            assert(r@ =~= plain_raw_text(block.kind));
            assert(raw_text_ok(*block, r@));
            r
        },
        BlockKind::ToolCall { tool, args, output, .. } => {
            let mut out: Vec<char> = Vec::new();
            out.push('\u{2699}');
            out.push(' ');
            push_str_chars(&mut out, tool.as_str());
            out.push(' ');
            push_str_chars(&mut out, args.as_str());
            out.push('\n');
            out.push(' ');
            out.push(' ');
            out.push('\u{2192}');
            out.push(' ');
            match output {
                Some(o) => push_str_chars(&mut out, o.as_str()),
                None => push_str_chars(&mut out, "(running)"),
            }
            proof {
                let tail = match output {
                    Some(o) => o@,
                    None => "(running)"@,
                };
                assert(out@ =~= seq!['\u{2699}', ' '] + tool@ + seq![' '] + args@ + seq![
                    '\n',
                    ' ',
                    ' ',
                    '\u{2192}',
                    ' ',
                ] + tail);
            }
            let r = string_of(out.as_slice());
            assert(r@ =~= plain_raw_text(block.kind));
            assert(raw_text_ok(*block, r@));
            r
        },
        BlockKind::Notice { text, .. } => {
            let r = text.clone();
            assert(r@ =~= plain_raw_text(block.kind));
            assert(raw_text_ok(*block, r@));
            r
        },
        BlockKind::Image { image } => {
            let mut out = chars_of("[image: ");
            push_str_chars(&mut out, image.media_type.as_str());
            push_str_chars(&mut out, ", ");
            let n = image.data.as_str().len();
            let d = decimal_chars(n as u64);
            extend_chars(&mut out, d.as_slice());
            push_str_chars(&mut out, " bytes base64]");
            let r = string_of(out.as_slice());
            assert(r@ =~= plain_raw_text(block.kind));
            assert(raw_text_ok(*block, r@));
            r
        },
        BlockKind::Subagent {
            backend,
            model,
            depth,
            state,
            elapsed_ms,
            started_at,
            transcript,
            session_turns,
            session_turn_cap,
            send_message_calls,
            send_message_call_cap,
            ..
        } => {
            let el = subagent_elapsed_ms(*started_at, *elapsed_ms);
            let header = subagent_header_summary(
                backend.as_str(),
                model.as_str(),
                *depth,
                *state,
                el,
                *session_turns,
                *session_turn_cap,
                *send_message_calls,
                *send_message_call_cap,
            );
            let nested = transcript.blocks();
            proof {
                lemma_nested_blocks_decrease(*block);
            }
            let mut texts: Vec<Vec<char>> = Vec::new();
            let mut i: usize = 0;
            while i < nested.len()
                invariant
                    i <= nested@.len(),
                    nested@ == transcript.state().blocks,
                    block.kind is Subagent,
                    block.kind->transcript == *transcript,
                    seqs(texts@).len() == i,
                    forall|j: int|
                        0 <= j < i ==> raw_text_ok(#[trigger] nested@[j], seqs(texts@)[j]),
                    forall|j: int|
                        0 <= j < nested@.len() ==> decreases_to!(*block => #[trigger] nested@[j]),
                decreases nested.len() - i,
            {
                let t = raw_block_text(&nested[i]);
                let ghost before = seqs(texts@);
                texts.push(chars_of(t.as_str()));
                assert(seqs(texts@) =~= before.push(t@));
                i = i + 1;
            }
            let sep = ['\n'];
            assert(sep@ =~= seq!['\n']);
            let body = join_chars(&texts, &sep);
            let ghost parts = seqs(texts@);
            let mut out = chars_of(header.as_str());
            if body.len() > 0 {
                out.push('\n');
                let ind = indent_lines(body.as_slice());
                extend_chars(&mut out, ind.as_slice());
            }
            proof {
                let b = *block;
                assert(started_at is None ==> el == elapsed_ms);
                assert(parts.len() == transcript.state().blocks.len());
                assert(forall|j: int| 0 <= j < parts.len() ==> raw_text_ok(#[trigger] transcript.state().blocks[j], parts[j]));
                assert(body@ == join(parts, seq!['\n']));
                assert(out@ == subagent_raw(header@, body@));
            }
            let r = string_of(out.as_slice());
            assert(subagent_text_is(*block, el, parts, r@));
            assert(raw_text_ok(*block, r@));
            r
        },
    }
}

} // verus!
