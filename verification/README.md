# deepseek_custom

The decision-making core of a desktop coding-agent harness, verified with
Verus: the chat transcript and its routing of subagent events, the chat
tab's status readouts, saved-session bookkeeping, the backend and model
pickers, settings edits, the voice pipeline's state machine and wake-word
matcher, the speech filter, the tools' reports and permission checks,
skills, hooks' verdicts, image attachments, and the terminal front end's
state.

Layout:

- `src/` — the verified library. Every public function has a contract over
  spec functions and views; the laws the library keeps are public proof
  functions (`lemma_*`). Calls into `uuid`, `base64`, `image` and `std::path`
  go through small trusted wrappers whose doc comments say what is assumed.
- `tests/` — ordinary Rust tests of the library.
- `app/` — the program around it: reading `settings.json` and skill files,
  the session files, running commands and touching files for the tools,
  running hook scripts, and a small console driver.
