# herdr

Forwards a turn to an agent that runs under Herdr and reads its answer off the terminal.

- `src/` is the library, verified with Verus. It takes plain values and gives plain values back: which
  agent a model stands for, which command to run next, which part of a screen belongs to a turn, and
  what the agent answered in it.
- `app/` reads the environment, looks for the program and runs it, one step of the library after the
  other. The program around it lends it a `Host`.
- `tests/` runs the library on screens of Codex, AGY and Grok.

Texts are modelled by their characters, lines by sequences of texts. JSON is read by `serde_json`; what
is believed of it stands in `src/json.rs`.
