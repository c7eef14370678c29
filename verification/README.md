# dshpet

A desktop companion that mirrors the state of local agents: it thinks while they
think, works while they work, asks for attention while they wait for an answer,
and tells in a bubble what they are doing.

- `src/` is the library, written in Verus. It holds every decision: the state
  machine, the texts of the bubble, the animations, the protocols of the sources,
  HTTP and WebSocket framing, and what the window does and paints.
- `tests/` runs the library on concrete values.
- `app/` is the program around it: threads, sockets, the database, the Lua
  states, the configuration file, and the window. Lengths, speeds and opacities
  that are floating-point numbers stay there.

## The library

| Module | What it holds |
| --- | --- |
| `event`, `state`, `state_laws` | what sources report, and the state that follows from it |
| `bubble_text`, `bubble_stack`, `bubble_laws` | what the bubble says, and which cards a stack has |
| `anim`, `sheet`, `quantize` | animations, how sheets are cut into frames, palettes |
| `http`, `http_laws` | URLs, requests, responses, WebSocket frames |
| `json` | JSON values, read and written by `serde_json` |
| `connectors` | the protocols of DSH, Hermes and ComfyUI, and the script interface |
| `config` | colors, themes, scripts |
| `gui` | placement, roaming, fading, layout, menus, settings, and the pixels |
| `report` | lines that describe events and states |
| `text`, `seqs`, `ordmap` | texts, sequences and ordered maps that all of these need |

Functions whose names begin with `law_` state what holds of the library as a
whole. Functions marked `#[verifier::external_body]` call other crates or the
standard library; what they claim of those is in their comments.
