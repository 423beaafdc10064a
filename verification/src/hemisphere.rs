//! The dual-agent "hemisphere" setup: a background advisor model that sees
//! a compressed view of the conversation, and the checks that keep that
//! view inside its context window.
use vstd::prelude::*;

use crate::api::{content_text, Message, Role};
use vstd::string::StringSliceAdditionalSpecFns;
use crate::text::{byte_len, chars_of, decimal, decimal_chars, extend_chars, join, join_chars, push_str_chars, seqs, string_of};

verus! {

/// How many bytes of a message the compressed view keeps before cutting.
pub const MAX_MESSAGE_BYTES: usize = 500;

/// Configuration for the dual-agent hemisphere system.
#[derive(Debug, Clone, PartialEq, Eq)]
pub struct HemisphereConfig {
    pub enabled: bool,
    pub left_model: String,
    pub right_model: Option<String>,
    pub right_context_window: usize,
    pub right_max_response: usize,
}

impl Default for HemisphereConfig {
    /// Disabled, with the flash model on the left, no right model, a
    /// 4000-token window and 200-token replies for the right.
    fn default() -> (c: HemisphereConfig)
        ensures
            !c.enabled,
            c.left_model@ == "deepseek-v4-flash"@,
            c.right_model is None,
            c.right_context_window == 4000,
            c.right_max_response == 200,
    {
        HemisphereConfig {
            enabled: false,
            left_model: "deepseek-v4-flash".to_owned(),
            right_model: None,
            right_context_window: 4000,
            right_max_response: 200,
        }
    }
}

/// The right hemisphere's system prompt.
pub const RIGHT_SYSTEM_PROMPT: &'static str = "You are a background advisor watching a coding session.\nYou see a compressed summary of the conversation.\nYour role: detect issues, suggest alternatives, request clarification.\nKeep responses short (max 200 tokens).\nTo request clarification from the main agent, use the clarifier tool.\nBe concise. Only speak when you have something useful to add.";

/// What the left hemisphere's prompt gains when an advisor is present.
pub const LEFT_EXTRA_PROMPT: &'static str = "\nYou are the primary agent. A background advisor (right hemisphere) may occasionally\nask clarifying questions. When this happens, you will see messages prefixed with\n\"Right hemisphere asks:\". Consider these questions carefully before responding.";

/// The lower-case name of a role.
pub open spec fn role_name(role: Role) -> Seq<char> {
    match role {
        Role::System => "system"@,
        Role::User => "user"@,
        Role::Assistant => "assistant"@,
        Role::Tool => "tool"@,
    }
}

/// A message's text as the compressed view keeps it: whole when it is at
/// most `MAX_MESSAGE_BYTES` bytes of UTF-8, else its first
/// `MAX_MESSAGE_BYTES` bytes and `...`.
pub open spec fn kept_text(t: Seq<char>) -> Seq<char> {
    let bytes = vstd::utf8::encode_utf8(t);
    if byte_len(t) > MAX_MESSAGE_BYTES {
        vstd::utf8::decode_utf8(bytes.subrange(0, MAX_MESSAGE_BYTES as int)) + "..."@
    } else {
        t
    }
}

/// A message whose long text cannot be cut at `MAX_MESSAGE_BYTES` bytes,
/// because a character straddles that point.
pub open spec fn cut_splits_a_char(m: Message) -> bool {
    m.content is Some && match content_text(m.content->0) {
        Some(t) => {
            let bytes = vstd::utf8::encode_utf8(t);
            byte_len(t) > MAX_MESSAGE_BYTES && !vstd::utf8::is_char_boundary(
                bytes,
                MAX_MESSAGE_BYTES as int,
            )
        },
        None => false,
    }
}

/// The verbatim part for each message of `ms` that has plain text:
/// `[role] text`, the text cut as `kept_text` does.
pub open spec fn verbatim_parts(ms: Seq<Message>) -> Seq<Seq<char>>
    decreases ms.len(),
{
    if ms.len() == 0 {
        seq![]
    } else {
        let m = ms.last();
        let prev = verbatim_parts(ms.drop_last());
        if m.content is Some && content_text(m.content->0) is Some {
            prev.push(
                seq!['['] + role_name(m.role) + seq![']', ' '] + kept_text(
                    content_text(m.content->0)->0,
                ),
            )
        } else {
            prev
        }
    }
}

/// The line standing in for the `n` earliest messages.
pub open spec fn summary_line(n: nat) -> Seq<char> {
    "[Summary of earlier conversation: "@ + decimal(n)
        + " messages exchanged. The user asked a coding question and the assistant has been reading files, executing commands, and writing code.]"@
}

/// The compressed view of `messages` (system prompt first): the system
/// prompt dropped, the earliest messages beyond the last `keep` replaced
/// by one summary line, the rest kept verbatim, all parted by blank
/// lines; `(empty conversation)` when only the system prompt is there.
pub open spec fn compressed(messages: Seq<Message>, keep: nat) -> Seq<char> {
    let total = messages.len();
    let users: nat = if total >= 1 {
        (total - 1) as nat
    } else {
        0
    };
    if users == 0 {
        "(empty conversation)"@
    } else {
        let start = if users > keep {
            total - keep
        } else {
            1
        };
        let summary: Seq<Seq<char>> = if users > keep {
            seq![summary_line((users - keep) as nat)]
        } else {
            seq![]
        };
        join(summary + verbatim_parts(messages.subrange(start, total as int)), "\n\n"@)
    }
}

/// Where the verbatim tail of `total` messages starts when the last
/// `keep` are kept: past the system prompt, and past every summarized
/// message.
pub open spec fn kept_start(total: nat, keep: nat) -> int {
    if total >= 1 && (total - 1) as nat > keep {
        total - keep
    } else {
        1
    }
}

fn role_text(role: Role) -> (r: &'static str)
    ensures
        r@ == role_name(role),
{
    match role {
        Role::System => "system",
        Role::User => "user",
        Role::Assistant => "assistant",
        Role::Tool => "tool",
    }
}

fn keep_text(t: &str) -> (r: Vec<char>)
    requires
        byte_len(t@) > MAX_MESSAGE_BYTES ==> vstd::utf8::is_char_boundary(
            vstd::utf8::encode_utf8(t@),
            MAX_MESSAGE_BYTES as int,
        ),
    ensures
        r@ == kept_text(t@),
{
    if t.len() > MAX_MESSAGE_BYTES {
        proof {
            vstd::utf8::encode_utf8_decode_utf8(t@);
        }
        let (head, _) = t.split_at(MAX_MESSAGE_BYTES);
        let mut out = chars_of(head);
        proof {
            vstd::utf8::encode_utf8_decode_utf8(head@);
            assert(head.spec_bytes() =~= vstd::utf8::encode_utf8(t@).subrange(
                0,
                MAX_MESSAGE_BYTES as int,
            ));
        }
        push_str_chars(&mut out, "...");
        out
    } else {
        chars_of(t)
    }
}

/// Compress conversation history for the right hemisphere: the system
/// prompt skipped, early turns summarized in one line, the last
/// `keep_verbatim` kept verbatim (each cut at `MAX_MESSAGE_BYTES` bytes).
pub fn compress_for_right(messages: &[Message], keep_verbatim: usize) -> (r: String)
    requires
        forall|i: int|
            kept_start(messages@.len(), keep_verbatim as nat) <= i < messages@.len() ==> !cut_splits_a_char(
                #[trigger] messages@[i],
            ),
    ensures
        r@ == compressed(messages@, keep_verbatim as nat),
{
    let total = messages.len();
    let user_messages = total.saturating_sub(1);
    if user_messages == 0 {
        return string_of(chars_of("(empty conversation)").as_slice());
    }
    let mut parts: Vec<Vec<char>> = Vec::new();
    if user_messages > keep_verbatim {
        let early_count = user_messages - keep_verbatim;
        let mut line = chars_of("[Summary of earlier conversation: ");
        let d = decimal_chars(early_count as u64);
        extend_chars(&mut line, d.as_slice());
        push_str_chars(
            &mut line,
            " messages exchanged. The user asked a coding question and the assistant has been reading files, executing commands, and writing code.]",
        );
        parts.push(line);
    }
    let start = if user_messages > keep_verbatim {
        total - keep_verbatim
    } else {
        1
    };
    let ghost summary = seqs(parts@);
    proof {
        let users: nat = (messages@.len() - 1) as nat;
        let want: Seq<Seq<char>> = if users > keep_verbatim {
            seq![summary_line((users - keep_verbatim) as nat)]
        } else {
            seq![]
        };
        assert(summary =~= want);
        assert(messages@.subrange(start as int, start as int) =~= Seq::<Message>::empty());
    }
    let mut i = start;
    while i < total
        invariant
            1 <= start <= i <= total,
            total == messages@.len(),
            start == kept_start(total as nat, keep_verbatim as nat),
            forall|j: int| start <= j < messages@.len() ==> !cut_splits_a_char(#[trigger] messages@[j]),
            seqs(parts@) == summary + verbatim_parts(messages@.subrange(start as int, i as int)),
        decreases total - i,
    {
        let ghost window = messages@.subrange(start as int, i + 1);
        assert(window.drop_last() =~= messages@.subrange(start as int, i as int));
        assert(window.last() == messages@[i as int]);
        let ghost before = seqs(parts@);
        match &messages[i].content {
            Some(content) => match content.as_text() {
                Some(t) => {
                    let mut part: Vec<char> = Vec::new();
                    part.push('[');
                    push_str_chars(&mut part, role_text(messages[i].role));
                    part.push(']');
                    part.push(' ');
                    assert(!cut_splits_a_char(messages@[i as int]));
                    let kept = keep_text(t);
                    extend_chars(&mut part, kept.as_slice());
                    let ghost pv = part@;
                    proof {
                        let m = messages@[i as int];
                        assert(m.content is Some);
                        assert(content_text(m.content->0) == Some(t@));
                        assert(pv =~= seq!['['] + role_name(m.role) + seq![']', ' '] + kept_text(t@));
                        assert(verbatim_parts(window) == verbatim_parts(window.drop_last()).push(pv));
                    }
                    parts.push(part);
                    assert(seqs(parts@) =~= before.push(pv));
                    assert(seqs(parts@) =~= summary + verbatim_parts(window));
                },
                None => {},
            },
            None => {},
        }
        i = i + 1;
    }
    let sep = chars_of("\n\n");
    let r = join_chars(&parts, sep.as_slice());
    assert(verbatim_parts(messages@.subrange(start as int, start as int)) =~= Seq::<Seq<char>>::empty());
    string_of(r.as_slice())
}

/// Whether `content` fits the window, counting one token per four
/// characters.
pub fn fits_context_window(content: &str, max_tokens: usize) -> (b: bool)
    ensures
        b == (content@.len() / 4 <= max_tokens),
{
    let cs = chars_of(content);
    cs.len() / 4 <= max_tokens
}

} // verus!
