# coin

Coin runs a structured debate between two LLM debaters over a proposition, and
reports where they converge or where exactly they keep disagreeing.

The library in `src/` is verified with [Verus](https://github.com/verus-lang/verus).
It holds every decision of a debate: what each side is asked, how a reply is
read, when a turn is retried, when the debate ends, and what is shown and saved.
The program in `app/` does the rest: it launches `opencode serve`, sends the
requests, reads and writes files, and prints.

| Module | What it holds |
|---|---|
| `text` | White space, trimming, searching, ordering, number rendering |
| `error` | The error type, what it says, and what is worth retrying |
| `config` | Settings, locations, delays, the retry policy |
| `opencode::types` | Messages, models, tool calls, events |
| `opencode::client` | Routes, requests, and what counts as an answer |
| `opencode::events` | The event bus |
| `opencode::process` | Launching the server, its address, its health |
| `opencode::workspace` | Agent files and the workspace repository |
| `debate::state` | The record of a debate and what is read off it |
| `debate::tally` | Tools tallied by name |
| `debate::parse` | The structured block a turn ends with |
| `debate::format`, `debate::credence` | The formats and their prompts |
| `debate::collect` | A turn reconstructed from a session's messages |
| `debate::engine` | The debate as a machine from events to actions |
| `debate::laws`, `debate::conduct` | What holds of every record and every step |
| `debate::runs` | What holds of a whole debate |
| `store` | Transcripts |
| `term`, `cli` | What the terminal shows and what arguments mean |

A debate is driven by `Engine::advance`, which takes what came of the last
action and says what to do next. Amounts of money are floating point, so the
library carries them as bit patterns and leaves adding them up to the program.
