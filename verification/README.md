# SafeChat

An end-to-end encrypted chat for the terminal and the desktop, with messages that
travel by hand, hidden in pictures or over a relay.

- `src/` is the verified core: wire formats, the state and the operations of a
  device, history, profiles, carriers, the relay's store and rules, the relay client,
  the terminal's and the desktop's state. Each operation that needs something done
  outside (a key made, a record written, a request sent) is a state machine that says
  what is to be done next and takes the reply.
- `tests/` runs the core.
- `app/` is the program around it: files, databases, network, screens, and the calls
  into libsignal.

What the core promises is stated in its contracts and in the proof functions named
`law_*`.
