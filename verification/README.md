# ezpn

A terminal multiplexer: panes in a tiled layout, sessions that outlive the
terminal, clients that attach over a Unix socket.

The crate is in two parts.

- `src/` is the library. It holds the layout tree, key maps, wire framing,
  interception of terminal escapes, rendering, hooks, project files and the
  decisions of the session daemon. Functions state in contracts what they
  return and change, and Verus proves them. Where the library calls another crate, the call stands in a small
  function whose contract is believed, and whose doc comment says what is
  claimed.
- `app/` is the program around it: sockets, pseudo terminals, the terminal
  emulator, signals, files, the clock and the event loop.

`tests/` runs the library on concrete values.

## Where to look

| Module | What it holds |
| --- | --- |
| `layout`, `ratio` | the pane tree, its geometry, split ratios |
| `keys`, `keymap` | key events, key notation, actions, bindings |
| `pane`, `terminal_state` | output of a pane, escapes it sends, input to it |
| `render`, `render_diff` | borders, painting, frame differences |
| `protocol`, `ipc` | messages between client, daemon and tools |
| `hooks`, `project`, `env_interp` | commands run on events, project files |
| `session`, `socket_security`, `signals` | names, sockets, reload requests |
| `settings`, `cli`, `observability` | the settings panel, arguments, logs |
| `snapshot_blob`, `codec` | saved scrollback |
| `server` | what the daemon does on keys, mouse, timers and clients |

Proof functions that are public and have a sentence above them state what
holds across several functions.
