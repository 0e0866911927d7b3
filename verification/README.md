# zenmon

A monitor for [zenoh](https://zenoh.io) networks. `zenmon` shows the keys of a
network, what is published on them and who takes part, on a terminal;
`zenmon tray` records a key expression in the background.

The library in `src/` holds everything that decides and computes: the key tree,
the payload diff and the per-key history, the dashboard with its keyboard and
mouse, what a frame shows and where, and the rules of the tray. It is written in
Verus, and every function states what it does over mathematical models of its
data. Nothing in it reads a clock, a socket or a file: times come in as
nanoseconds, and what is to be sent, drawn, copied or saved goes out as a value.

| module | what it holds |
| --- | --- |
| `text`, `keyed`, `json` | texts, ordered maps and sets of texts, JSON documents |
| `tree`, `tree_paths` | the key tree and how it is listed |
| `tree_laws`, `key_laws`, `row_laws` | what holds of the tree, of its answers and of its rows |
| `diff`, `history`, `plot`, `message` | payloads: what changed, what is kept, what is plotted |
| `hangul` | Latin keys behind a Korean input method |
| `app` | the dashboard: its state, its events and what it asks of the loop |
| `view` | frames, as lists of things to paint |
| `tray` | settings, capture, menu, the CLI beside the tray, updates |

Each module opens with the model of its data, then the functions, then its laws:
public proof functions named `law_…` that state what holds across functions.

What the library believes without proof is marked where it stands: a few string
functions of the standard library, reading and quoting JSON, timestamps, semantic
versions and the layout solver.

`app/` is the program around it: the terminal, the network, files and floating
point. `tests/` runs the library on concrete values, frames included.
