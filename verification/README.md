# Varda

Varda turns a folder of markdown files into a work queue for agents. Each task carries
the path of its project; Varda matches that path to a route, picks an agent that is
allowed there, runs it in a sandbox, keeps its recap and commits the result. An agent
that runs in a sandbox may ask the host for sub-tasks, within the bounds of a policy.

- `src/` is the library: every decision, with its contract, verified with Verus. It does
  no I/O; it takes plain values and returns plain values.
- `app/` is the `varda` command: it reads and writes files, runs agents, git and
  containers, serves the broker and the dashboard, and asks the library what to do.
- `tests/` runs the library.

Each module states what it promises in the `ensures` of its functions; what holds of
several functions together is a proof function whose name begins with `law_`. What the
library takes on trust of outside crates stands in the functions marked
`external_body`, each with a comment that says what is taken on trust.
