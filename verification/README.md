# vosk_commands

A pipeline stage that listens for spoken commands with Vosk. Word lists arrive
while people speak, and a recognizer that is rebuilt in the middle of an
utterance loses the rest of it. The stage therefore swaps recognizers only where
nothing can be lost: when no session is open, when one starts, and right after a
result.

`src/` is the verified library:

| module | what it holds |
| --- | --- |
| `text` | white space, words, and removal of the unknown-word marker |
| `json` | the data of an event, as far as it is read |
| `grammar` | word lists in canonical form, differences, the startup grammar |
| `swap` | when a new word list takes effect |
| `args` | the command line |
| `single`, `timing` | milliseconds and samples, in single precision on integers |
| `pcm` | raw audio |
| `recognition` | from results to transcripts |
| `machine`, `stage` | the stage as a state machine: its specification and its code |
| `laws` | what holds of the stage over all inputs |
| `handshake` | the events that come before all others |
| `program` | from the arguments over startup and the stage to the end of the input |
| `events`, `locate` | event names, and where files are looked for |

`Stage::handle` takes an input (an event, or the reply to an action) and returns
actions in order. At most the last of them asks for a reply. `Program::handle`
does the same for the program as a whole, startup errors and the end of the input
included. One function is trusted: `parse_string_list` in `grammar`, which calls
`serde_json`.

`app/` is the program around the library: standard input and output, the file
system, the clock, and Vosk itself.
