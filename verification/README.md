# ag-ui-surface

The decisions of a runtime in which a person and an agent work on one shared
surface: who a request comes from and what it may do, how a turn of the
conversation runs and what its clients see and hear, which participant points at
what, how decisions wait for a person, which provider answers, and what has to
hold before an application serves anything.

`src/` is the library. Every function in it is verified with Verus: its contract
says what it returns or changes for every input that its `requires` admits. Most
functions take every input; the others ask for what a machine counter can hold,
for a value that its own type made, or for lists that go together. The public
`law_…` proof functions say what holds across functions. `app/` is the host around it: HTTP,
files, processes and the clock. `tests/` runs the library on concrete values.

## Modules

| module | what it decides |
| --- | --- |
| `caller`, `gate`, `actions` | who is asking, what credentials establish, which audience an action has |
| `routes`, `http` | a route's body and answer, action routes, a layout without conflicts |
| `turns`, `narration`, `activity` | asking, interrupting, pointing, joining; the streamed message, the transcript, speech; the record |
| `decisions` | decisions that wait for a person |
| `mcp`, `labels` | the agents' endpoint: messages, tool calls, admission under a name of their own |
| `semantic_targets`, `awareness`, `awareness_laws`, `awareness_histories`, `attention` | targets with meaning, gestures and leases, one call and whole histories of them, the host's own actions |
| `providers`, `settings`, `runtime` | providers and presets, keys and connections, liveness |
| `client_module`, `protocol_pkg`, `startup`, `launch` | extensions, the protocol client, what has to hold before a start, and in which order |
| `services`, `replica` | services and shared documents, the binary replica |
| `text`, `textmap`, `json`, `events`, `lists`, `paths` | the vocabulary of the contracts |

## What is trusted

A few small functions call other crates or parts of `std` and are believed
rather than proved. Each says in its comment what is claimed of the call:
`serde_json` parsing and its values (`json`), `form_urlencoded` (`routes`),
`base64` (`mcp`), random ids of `uuid` (`labels`), and the quoting and the lower
case of `str`, its `==` and `String::push` (`text`). What a named result is on
given values is not stated; what the library does with it is.

What the outside world decides comes in as an argument: the time, a canonical
URL, what stands at a path, what a surface says of a target, a fresh id.
