# logwatcher

A terminal program that tails the most recently changed files of a directory, each in a panel of
its own.

- `src/` is the library: which file gets which panel, what a key or a change does, which lines are
  new in a file, which files to start with, what the screen shows and where, and what a language
  model is asked about a process. It is written in Verus, and every function is proved to do what
  its contract says, but for the calls into other crates and the standard library: what their
  contracts say is believed, and a comment at each tells what that is.
- `tests/` runs the library on examples.
- `app/` is the program around the library: the command line, the terminal, the filesystem watcher,
  reading files and sending requests.

Paths are the raw bytes of Unix paths. Times of day are nanoseconds since the Unix epoch, and the
tracker's clock counts nanoseconds from when it was made. What reads a clock
mostly has a sibling whose name ends in `_at` and which is given the time.
