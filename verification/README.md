# retach

A terminal multiplexer with native scrollback. A server keeps shells running in
sessions; a client attaches to one, shows its screen, and detaches with `Ctrl+\`.
Lines that scroll off the top of a session's screen go to the scrollback of the
client's own terminal.

The logic is a library that is verified with Verus:

- `screen`: the terminal of a session. `model` says what each control function does,
  `performer` carries it out, `parser` reads input with the `vte` crate, `render`
  draws frames. The rest states what holds of all of them: `laws` what no input can
  break, `sound` which inputs leave every wide character whole, `replay` what a frame
  says, `restore`, `changes` and `scrollback` what frames and lines do to the terminal
  that receives them.
- `protocol`: messages and their frames.
- `session`: the registry of sessions.
- `server` and `client`: what each side decides.
- `cli`: what the command line asks for.

`app/` is the program around it: the command line, sockets, signals, pseudo
terminals, and the bytes of messages. Nothing is proved of it.
