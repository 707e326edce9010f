# NelTex

The decisions of two Linux schedulers, written and verified in Verus.

- `tgd_sched` gives every process a nice value between -5 and 19, by how dense
  its place on a Gaussian is. It keeps account of every value that it set, so
  that a shutdown can take all of them back.
- `ntvidia` learns which processes use the GPU and tells, for each process
  name, whether it belongs there.

Layout:

- `src/scalar.rs`, `src/order.rs`: real numbers by their bit patterns; putting
  things in order.
- `src/text.rs`, `src/procfs.rs`: lines, fields, words and numbers; the texts
  under `/proc`.
- `src/class.rs`, `src/clock.rs`: the classes of processes; the time of day.
- `src/score.rs`, `src/learned.rs`: the files that the schedulers write and
  read.
- `src/ntvidia/`, `src/tgd_sched/`: the two schedulers.
- `app/`: the daemons around the library. They read and write files, call the
  operating system and compute with floating point numbers.
- `tests/`: tests of the library.
