# herdr-devcontainer-status

A herdr plugin that knows about devcontainers: it reports whether a pane's project has a
running devcontainer, and lets an agent that runs inside one show up as a normal, tracked
agent session.

- `src/` is the library, verified with Verus. It holds every decision: discovery of the
  project, reading what docker and herdr print, which agent a pane is claimed for, what is
  run in the container, and the steps of starting forwarders, pushing a relay binary and
  copying a connection. Paths and command lines are plain text here, with Unix semantics.
- `app/` is the program: it reads the environment and the disk, runs commands, opens
  sockets, and performs the steps that the library names.
- `tests/` runs the library on concrete values.

What the library takes on trust are a few functions of the standard library on text
(`src/std_text.rs`) and of `serde_json` (`src/json.rs`); each says what it relies on.
