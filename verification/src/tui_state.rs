//! The terminal front end's state apart from drawing: the coloured output
//! lines, the input line, the scroll position and the status readouts,
//! and what each stream event and key press does to them.
use vstd::prelude::*;

use crate::agent::StreamEvent;
use crate::text::{
    chars_of, extend_chars, join, join_chars, lines, push_str_chars, seqs, split_lines, string_of,
    trim, trim_chars,
};

verus! {

/// The colour an output line is drawn in.
#[derive(Debug, Clone, Copy, PartialEq, Eq, Structural)]
pub enum LineColor {
    White,
    Yellow,
    Red,
    Green,
    DarkGray,
    Cyan,
    Blue,
}

/// A key press the terminal front end reacts to.
#[derive(Debug, Clone, Copy, PartialEq, Eq, Structural)]
pub enum TuiKey {
    /// A printable character, with whether Ctrl was held.
    Char { c: char, ctrl: bool },
    Enter,
    Backspace,
    Up,
    Down,
    PageUp,
    PageDown,
    Tab,
    Other,
}

/// The terminal front end's state.
#[derive(Debug, Clone, PartialEq, Eq)]
pub struct TuiState {
    pub output_lines: Vec<(String, LineColor)>,
    pub input_buffer: String,
    pub scroll_offset: usize,
    pub model: String,
    pub token_count: String,
    pub session_status: String,
}

/// The output lines by their text and colour.
pub open spec fn lines_view(v: Seq<(String, LineColor)>) -> Seq<(Seq<char>, LineColor)> {
    v.map_values(|l: (String, LineColor)| (l.0@, l.1))
}

/// What a tool's output shows in the output pane: its first three lines.
pub open spec fn preview(output: Seq<char>) -> Seq<char> {
    join(lines(output).take(if lines(output).len() < 3 { lines(output).len() as int } else { 3 }), seq!['\n'])
}

/// The output lines after a stream event. Text joins the last line (or
/// starts the first); a tool call, its result, a turn's end and an error
/// each add a line; a reset clears the pane down to one line saying so.
/// Other events leave the pane alone.
pub open spec fn after_event(v: Seq<(Seq<char>, LineColor)>, event: StreamEvent) -> Seq<(Seq<char>, LineColor)> {
    match event {
        StreamEvent::Text { text, .. } => if v.len() > 0 {
            v.update(v.len() - 1, (v.last().0 + text@, v.last().1))
        } else {
            seq![(text@, LineColor::White)]
        },
        StreamEvent::ToolCallStart { tool, args, .. } => v.push(("\u{2699} "@ + tool@ + " "@ + args@, LineColor::Yellow)),
        StreamEvent::ToolCallEnd { tool, output, is_error, .. } => v.push((
            "  \u{2192} "@ + tool@ + ": "@ + preview(output@),
            if is_error { LineColor::Red } else { LineColor::Green },
        )),
        StreamEvent::TurnEnd { finish_reason, .. } => v.push(("--- turn end ("@ + finish_reason@ + ") ---"@, LineColor::DarkGray)),
        StreamEvent::SessionReset => seq![("Session reset"@, LineColor::Cyan)],
        StreamEvent::Error { message } => v.push(("ERROR: "@ + message@, LineColor::Red)),
        _ => v,
    }
}

/// The command suggestions Tab cycles through.
pub open spec fn suggestions() -> Seq<Seq<char>> {
    seq!["/help"@, "/clear"@, "/quit"@, "/reset"@]
}

/// Tab completion: the first suggestion that extends what was typed (and
/// is not already it), or the input unchanged.
pub open spec fn completed(input: Seq<char>) -> Seq<char>
{
    completed_from(input, 0)
}

pub open spec fn completed_from(input: Seq<char>, k: nat) -> Seq<char>
    decreases 4 - k,
{
    if k >= 4 {
        input
    } else if suggestions()[k as int].len() >= input.len()
        && suggestions()[k as int].take(input.len() as int) == input
        && suggestions()[k as int] != input {
        suggestions()[k as int]
    } else {
        completed_from(input, k + 1)
    }
}

/// The first visible output line and one past the last, for a pane
/// `visible` lines tall scrolled `scroll` lines up from the bottom: the
/// newest lines when not scrolled, never past the oldest.
pub open spec fn window(total: nat, visible: nat, scroll: nat) -> (nat, nat) {
    let start: nat = if total > visible {
        let max_scroll = (total - visible) as nat;
        let offset = if scroll < max_scroll { scroll } else { max_scroll };
        (total - (visible + offset)) as nat
    } else {
        0
    };
    let end: nat = if start + visible < total { start + visible } else { total };
    (start, end)
}

/// The output pane's visible range of lines.
pub fn visible_window(total: usize, visible: usize, scroll: usize) -> (r: (usize, usize))
    ensures
        (r.0 as nat, r.1 as nat) == window(total as nat, visible as nat, scroll as nat),
        r.0 <= r.1 <= total,
{
    let start: usize = if total > visible {
        let max_scroll = total - visible;
        let offset = if scroll < max_scroll { scroll } else { max_scroll };
        total - (visible + offset)
    } else {
        0
    };
    let end: usize = if visible < total - start { start + visible } else { total };
    (start, end)
}

fn line(text: Vec<char>, color: LineColor) -> (l: (String, LineColor))
    ensures
        l.0@ == text@,
        l.1 == color,
{
    (string_of(text.as_slice()), color)
}

impl TuiState {
    /// A fresh front end: no output, empty input, not scrolled, the
    /// default model, no tokens yet, `Ready`.
    pub fn new() -> (t: TuiState)
        ensures
            t.output_lines@.len() == 0,
            t.input_buffer@.len() == 0,
            t.scroll_offset == 0,
            t.model@ == "deepseek-v4-flash"@,
            t.token_count@ == "0"@,
            t.session_status@ == "Ready"@,
    {
        TuiState {
            output_lines: Vec::new(),
            input_buffer: String::new(),
            scroll_offset: 0,
            model: "deepseek-v4-flash".to_owned(),
            token_count: "0".to_owned(),
            session_status: "Ready".to_owned(),
        }
    }

    /// Apply one stream event to the output pane and the status.
    pub fn handle_stream_event(&mut self, event: StreamEvent)
        ensures
            lines_view(final(self).output_lines@) == after_event(lines_view(old(self).output_lines@), event),
            event is SessionReset ==> final(self).session_status@ == "Reset"@,
            !(event is SessionReset) ==> final(self).session_status == old(self).session_status,
            final(self).input_buffer == old(self).input_buffer,
            final(self).scroll_offset == old(self).scroll_offset,
            final(self).model == old(self).model,
            final(self).token_count == old(self).token_count,
    {
        let ghost v0 = lines_view(self.output_lines@);
        match event {
            StreamEvent::Text { text, .. } => {
                let n = self.output_lines.len();
                if n > 0 {
                    let (last, color) = self.output_lines.pop().unwrap();
                    let mut t = chars_of(last.as_str());
                    push_str_chars(&mut t, text.as_str());
                    self.output_lines.push(line(t, color));
                    assert(lines_view(self.output_lines@) =~= v0.update(v0.len() - 1, (v0.last().0 + text@, v0.last().1)));
                } else {
                    self.output_lines.push((text, LineColor::White));
                    assert(lines_view(self.output_lines@) =~= seq![(text@, LineColor::White)]);
                }
            },
            StreamEvent::ToolCallStart { tool, args, .. } => {
                let mut t = chars_of("\u{2699} ");
                push_str_chars(&mut t, tool.as_str());
                push_str_chars(&mut t, " ");
                push_str_chars(&mut t, args.as_str());
                let l = line(t, LineColor::Yellow);
                self.output_lines.push(l);
                assert(lines_view(self.output_lines@) =~= v0.push((l.0@, l.1)));
            },
            StreamEvent::ToolCallEnd { tool, output, is_error, .. } => {
                let cs = chars_of(output.as_str());
                let ls = split_lines(cs.as_slice());
                let mut first: Vec<Vec<char>> = Vec::new();
                let mut i: usize = 0;
                while i < ls.len() && i < 3
                    invariant
                        i <= ls@.len(),
                        i <= 3,
                        seqs(first@) == seqs(ls@).take(i as int),
                    decreases 3 - i,
                {
                    let ghost before = seqs(first@);
                    let w = slice_copy(&ls[i]);
                    first.push(w);
                    assert(seqs(first@) =~= before.push(w@));
                    assert(seqs(ls@).take(i + 1) =~= seqs(ls@).take(i as int).push(seqs(ls@)[i as int]));
                    i = i + 1;
                }
                let sep = ['\n'];
                assert(sep@ =~= seq!['\n']);
                let p = join_chars(&first, &sep);
                let mut t = chars_of("  \u{2192} ");
                push_str_chars(&mut t, tool.as_str());
                push_str_chars(&mut t, ": ");
                extend_chars(&mut t, p.as_slice());
                let color = if is_error { LineColor::Red } else { LineColor::Green };
                let l = line(t, color);
                self.output_lines.push(l);
                assert(lines_view(self.output_lines@) =~= v0.push((l.0@, l.1)));
            },
            StreamEvent::TurnEnd { finish_reason, .. } => {
                let mut t = chars_of("--- turn end (");
                push_str_chars(&mut t, finish_reason.as_str());
                push_str_chars(&mut t, ") ---");
                let l = line(t, LineColor::DarkGray);
                self.output_lines.push(l);
                assert(lines_view(self.output_lines@) =~= v0.push((l.0@, l.1)));
            },
            StreamEvent::SessionReset => {
                self.output_lines.clear();
                let l = line(chars_of("Session reset"), LineColor::Cyan);
                self.output_lines.push(l);
                self.session_status = "Reset".to_owned();
                assert(lines_view(self.output_lines@) =~= seq![(l.0@, l.1)]);
            },
            StreamEvent::Error { message } => {
                let mut t = chars_of("ERROR: ");
                push_str_chars(&mut t, message.as_str());
                let l = line(t, LineColor::Red);
                self.output_lines.push(l);
                assert(lines_view(self.output_lines@) =~= v0.push((l.0@, l.1)));
            },
            _ => {},
        }
    }

    /// Apply one key press. Returns whether to keep running (Ctrl+C
    /// quits) and the input to send, if Enter sent any: Enter empties the
    /// input line and, unless it was blank, echoes it to the output pane
    /// and sends it. Arrows scroll by one line, page keys by ten, never
    /// below the bottom; Tab completes a command.
    pub fn handle_key(&mut self, key: TuiKey) -> (r: (bool, Option<String>))
        ensures
            key == (TuiKey::Char { c: 'c', ctrl: true }) ==> !r.0 && r.1 is None && *final(self) == *old(self),
            key != (TuiKey::Char { c: 'c', ctrl: true }) ==> r.0,
            match key {
                TuiKey::Char { c, ctrl } => !(c == 'c' && ctrl) ==> {
                    &&& final(self).input_buffer@ == old(self).input_buffer@.push(c)
                    &&& final(self).output_lines == old(self).output_lines
                    &&& r.1 is None
                },
                _ => true,
            },
            key is Enter ==> {
                &&& final(self).input_buffer@.len() == 0
                &&& trim(old(self).input_buffer@).len() == 0 ==> r.1 is None && final(self).output_lines == old(self).output_lines
                &&& trim(old(self).input_buffer@).len() > 0 ==> {
                    &&& r.1 matches Some(sent) && sent@ == old(self).input_buffer@
                    &&& lines_view(final(self).output_lines@) == lines_view(old(self).output_lines@).push(
                        ("> "@ + old(self).input_buffer@, LineColor::Blue),
                    )
                }
            },
            key is Backspace ==> final(self).input_buffer@ == if old(self).input_buffer@.len() > 0 {
                old(self).input_buffer@.drop_last()
            } else {
                old(self).input_buffer@
            },
            key is Up ==> final(self).scroll_offset == if old(self).scroll_offset < usize::MAX { (old(self).scroll_offset + 1) as usize } else { usize::MAX },
            key is Down ==> final(self).scroll_offset == if old(self).scroll_offset > 0 { (old(self).scroll_offset - 1) as usize } else { 0 },
            key is PageUp ==> final(self).scroll_offset == if old(self).scroll_offset <= usize::MAX - 10 { (old(self).scroll_offset + 10) as usize } else { usize::MAX },
            key is PageDown ==> final(self).scroll_offset == if old(self).scroll_offset >= 10 { (old(self).scroll_offset - 10) as usize } else { 0 },
            key is Tab ==> final(self).input_buffer@ == completed(old(self).input_buffer@),
            key is Other ==> *final(self) == *old(self),
    {
        match key {
            TuiKey::Char { c, ctrl } => {
                if c == 'c' && ctrl {
                    return (false, None);
                }
                let mut t = chars_of(self.input_buffer.as_str());
                t.push(c);
                self.input_buffer = string_of(t.as_slice());
                (true, None)
            },
            TuiKey::Enter => {
                let mut input = String::new();
                std::mem::swap(&mut input, &mut self.input_buffer);
                let cs = chars_of(input.as_str());
                let trimmed = trim_chars(cs.as_slice());
                if trimmed.len() == 0 {
                    return (true, None);
                }
                let mut t = chars_of("> ");
                push_str_chars(&mut t, input.as_str());
                let ghost v0 = lines_view(self.output_lines@);
                let l = line(t, LineColor::Blue);
                self.output_lines.push(l);
                assert(lines_view(self.output_lines@) =~= v0.push((l.0@, l.1)));
                (true, Some(input))
            },
            TuiKey::Backspace => {
                let mut t = chars_of(self.input_buffer.as_str());
                if t.len() > 0 {
                    t.pop();
                }
                self.input_buffer = string_of(t.as_slice());
                (true, None)
            },
            TuiKey::Up => {
                self.scroll_offset = self.scroll_offset.saturating_add(1);
                (true, None)
            },
            TuiKey::Down => {
                self.scroll_offset = self.scroll_offset.saturating_sub(1);
                (true, None)
            },
            TuiKey::PageUp => {
                self.scroll_offset = self.scroll_offset.saturating_add(10);
                (true, None)
            },
            TuiKey::PageDown => {
                self.scroll_offset = self.scroll_offset.saturating_sub(10);
                (true, None)
            },
            TuiKey::Tab => {
                let t = complete_command(self.input_buffer.as_str());
                self.input_buffer = t;
                (true, None)
            },
            TuiKey::Other => (true, None),
        }
    }

    /// What the input box shows: the typed text, or a hint while empty.
    pub fn input_display(&self) -> (r: String)
        ensures
            self.input_buffer@.len() == 0 ==> r@ == "Type your message... (Ctrl+C to quit)"@,
            self.input_buffer@.len() > 0 ==> r@ == self.input_buffer@,
    {
        if self.input_buffer.as_str().is_empty() {
            "Type your message... (Ctrl+C to quit)".to_owned()
        } else {
            self.input_buffer.clone()
        }
    }

    /// The status line's text.
    pub fn status_text(&self) -> (r: String)
        ensures
            r@ == " Model: "@ + self.model@ + " | Tokens: "@ + self.token_count@ + " | "@ + self.session_status@
                + " | Ctrl+C quit, \u{2191}\u{2193} scroll"@,
    {
        let mut t = chars_of(" Model: ");
        push_str_chars(&mut t, self.model.as_str());
        push_str_chars(&mut t, " | Tokens: ");
        push_str_chars(&mut t, self.token_count.as_str());
        push_str_chars(&mut t, " | ");
        push_str_chars(&mut t, self.session_status.as_str());
        push_str_chars(&mut t, " | Ctrl+C quit, \u{2191}\u{2193} scroll");
        string_of(t.as_slice())
    }
}

fn slice_copy(v: &Vec<char>) -> (r: Vec<char>)
    ensures
        r@ == v@,
{
    let mut r: Vec<char> = Vec::new();
    extend_chars(&mut r, v.as_slice());
    r
}

/// Tab completion of the input line.
pub fn complete_command(input: &str) -> (r: String)
    ensures
        r@ == completed(input@),
{
    proof {
        reveal_strlit("/help");
        reveal_strlit("/clear");
        reveal_strlit("/quit");
        reveal_strlit("/reset");
    }
    let cs = chars_of(input);
    let options: [&str; 4] = ["/help", "/clear", "/quit", "/reset"];
    let mut k: usize = 0;
    while k < 4
        invariant
            k <= 4,
            cs@ == input@,
            forall|j: int| 0 <= j < 4 ==> (#[trigger] options@[j])@ == suggestions()[j],
            completed(input@) == completed_from(input@, k as nat),
        decreases 4 - k,
    {
        let s = chars_of(options[k]);
        let extends = s.len() >= cs.len() && crate::text::starts_with_at(s.as_slice(), 0, cs.as_slice());
        proof {
            assert(s@ == suggestions()[k as int]);
        }
        if extends && !crate::settings::str_eq(options[k], input) {
            proof {
                assert(s@.take(cs@.len() as int) =~= cs@);
            }
            return options[k].to_owned();
        }
        proof {
            if s@.len() >= cs@.len() && s@.take(cs@.len() as int) == cs@ {
                assert(crate::text::has_prefix_at(s@, 0, cs@));
            }
        }
        k = k + 1;
    }
    input.to_owned()
}

} // verus!
