# mutilator

A small fuzzing input mutator. Given an input string, each mutator produces a stream of
mutated byte buffers, one per round, driven by a seed that advances with every round:

- `ChaosFlipper` flips bits of a scratch buffer along a walk through the seed space and xors
  the scratch buffer into its output;
- `Truncator` keeps a window of the input that shrinks as the seed grows;
- `LenCorruption` writes boundary values ("special numbers") into the input;
- `Inversion` negates one byte at a time, moving right with every round.

`src/` is the verified library: the mutators (`mutators`, and the earlier family in
`mutators::chaos_mutator`), the seed walk of the chaos flipper (`walk`), byte helpers
(`bytes`), the command line options (`options`) and the set-up of a run
(`gen_mutilator_list` in the crate root). `app/main.rs` is the command: it reads the input
file and writes the buffers to a file, to stdout, or into a program's stdin.
