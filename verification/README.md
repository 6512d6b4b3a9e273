# stakit

An agent toolkit whose decisions are verified with Verus: the conversation
model, the wire formats of two chat providers, the retry policy, the agent loop,
the tool registry, MCP configuration, a client for action servers, and the code
that the model and tool macros generate.

- `src/` is the library. Contracts state what a function returns or changes. Where
  `syn` reads or prints source text, they state it for whatever `syn` may read or
  print there. The laws that span several functions are public proof functions
  next to them.
- `tests/` runs the library with the real outside crates.
- `app/` is the runtime around it: HTTP, sockets, timers, the traits that users
  implement, cost estimates, and serialisable copies of the plain types.

The agent loop is a state machine (`agent_run`): it says what it waits for
(`Phase`), and `AgentRun::advance` takes the reply and says what follows. The
runtime performs each phase and hands the reply back.

Streams are read by state machines, one per provider and one for JSON lines. Where
the text of a stream is cut into pieces does not matter.

What the proofs take on trust is marked in the source: each wrapper around an
outside crate names the function that it calls and what its contract claims.
