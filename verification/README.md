# cometix

The decision and text logic of a terminal assistant's session resume flow,
written in Verus and verified.

- `src/` holds the library. Each public function carries a contract that
  states its result: the classification of load errors, the narrowing and
  newest-first ordering of remote sessions, the padded rows and layout of the
  session picker, compact relative times, pull-request filters over saved
  conversations, the chooser's screen and load decisions, and the messages of
  an MCP reconnect.
- `tests/` exercises the library on concrete values.
- `app/` holds the terminal views (iocraft components) that draw what the
  library computes. They use the host application's shared components and
  services.

Outside code that the library relies on is reached through three trusted
functions, each documented where it stands: RFC 3339 parsing (chrono),
Unicode lowercasing and collecting characters into a `String` (std).
