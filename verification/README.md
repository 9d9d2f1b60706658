# krt

`krt` records the network path to a destination, hop by hop, and hunts for
the longest path it can find.

The library under `src/` holds the rules of the tool. Verus proves every
function in it against its contract; the few functions whose answer rests on
the machine alone (the seed of the clock, the stop flag and its signals, the
conversion of a period into a `Duration`) state no result, since nothing can
be promised of it:

- `period`, `count`, `config`: the durations and counts of the command line,
  the resolution of a command line into a configuration, and the block that
  a run prints before it probes.
- `addr`, `blocks`: the text of an address, and the reserved blocks that a
  hunt never draws from.
- `record`: the records of a recorded file, the walk of its lines, and the
  runs that a file holds.
- `session`: the decisions around one run: the destination and the source it
  records, the screen it shows, the line it prints when it stops, and the run
  of a file that a replay folds.
- `draw`, `score`, `hunt`, `summary`: the draw of the addresses of a hunt and
  the mine of their near space, the score of one destination, the pool of
  destinations in flight, and the table that ranks what a hunt found.
- `live`, `names`: the keys and the frames of the live table, the headless
  status line, and the names of the hops.
- `clock`, `text`, `order`: the reads of the machine, and the text helpers.

The program under `app/` parses the command line with `clap`, reads and
writes the JSON lines of a recorded file with `serde`, and asks the resolver
of the machine; it hands plain values to the library and prints what comes
back. The tests under `tests/` run the library on concrete values.

This build holds no tracer: the probing of a route, the search for a source
address and the drawing of the live frame on a terminal are not part of it.
So `krt trace` and `krt hunt` stop with an error after their configuration
is resolved, and `krt replay` prints one status line for each round of the
file in place of the frames of the table. The library still holds the
decisions of all three commands, and the tests run them.
