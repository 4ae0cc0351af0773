# pegasus

A server agent starts client processes and exchanges one message with each,
in several styles (threads and channels, async tasks, `select`, a mutex).

- `src/` is the verified library: the store of replies per client (`data`),
  the wire texts (`message`), the client's launch command (`command`), the
  bookkeeping of a reading loop (`collect`), the test catalogue
  (`comm_tests`), the random pause (`delay`), the error types (`foo`) and
  the text helpers they rest on (`text`).
- `app/` is the program around it: process spawning, pipes, sockets,
  threads, channels and the async runtime. Run without arguments it is the
  agent; run with one argument it is the client with that id.
- `tests/` runs the library on concrete values.
