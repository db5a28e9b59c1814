# d9cker

A k9s-style terminal UI for Docker and Docker Swarm, with its core verified
by Verus.

- `src/` is the verified library: the keyboard-driven state machine
  (`app`, `keys`, `events`, `actions`, `ops`), row marks and batch targets
  (`mark`), resource rows and compose/stack grouping (`docker`, `groups`),
  size-aware sorting (`size`, `float`, `bignum`), docker contexts (`contexts`), what
  each part of the screen says (`display`, `screen`), the decisions around
  engine calls (`engine`, `stats`) and the ssh wrapper's placement
  (`ssh_wrap`). Every public operation states its result exactly in its
  `ensures`; the laws the UI promises (marks survive filtering, tab switches
  clear them, destructive actions need a confirmation, the log stays capped,
  sorting keeps and orders the rows, ...) are public proof functions.
- `app/` is the program around it: the terminal loop, the Docker Engine API
  through bollard, the context store on disk, and the drawing.
- `tests/` runs the library on concrete values.
