# wg_subscriber

A WireGuard agent for Windows. It listens to a broker (MQTT) for the peers of a network, keeps the
local tunnel in line with them, and looks after the tunnel in between: it reaches peers over the
local network where that is possible, hands silent peers to relays, changes a listen port that has
gone dead, advertises routes and reports traffic.

## Layout

- `src/` is the library, verified with Verus. It decides everything and touches nothing: it reads
  what tools printed, writes command lines, and runs each longer procedure as a series of steps. A
  procedure says what it needs next, its surroundings do it, and the outcome takes the procedure one
  step further.
- `app/` is the program around it: the environment, files, processes, the clock and the broker.
- `tests/` exercises the library on concrete values.

## What is proved

Each procedure is described by two spec functions: what it asks for in a given state, and where an
answer takes it. The executable code is proved to follow them, and the functions named `law_...` are
proved of them, for every sequence of answers. Among other things:

- a snapshot updates every peer that it gives addresses, removes every peer that it lacks, and
  leaves alone this node and the peers that it has behind a relay;
- a peer that does not answer over the local network goes back to where it was reached before;
- the relay that a silent peer is handed to is alive and has the lightest load; if that fails on the
  way, the relay loses the peer's addresses again;
- when a relay fails and another is alive, the peers of the one come to stand behind the other;
- routes that have not changed are left alone, and a change that failed is not remembered;
- the listen port changes at most three times within an hour, and never twice within twenty minutes;
- every procedure ends.

What outside code computes (BLAKE3, Zstandard, Base64, X25519, JSON, PEM, CIDR notation, Unicode
case) is stated in the contracts of a few wrappers and is not proved.
