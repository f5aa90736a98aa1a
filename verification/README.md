# ashmaize_solver

A proof-of-work nonce solver for AshMaize challenges, split in two:

- `src/` is the verified library (Verus): the difficulty test on a hash,
  the `{:016x}` nonce encoding and its inverse hex parser, preimage and
  challenge-suffix construction, the bookkeeping of the strided CPU search
  and of the batched GPU search, the buffer layout of a GPU kernel launch,
  the ROM parameters of a challenge, and the BLAKE2b probe that compares the
  `blake2` crate with the GPU and CPU traces.
- `app/` is the command-line program around it: argument parsing, threads,
  timing, printing, the CUDA device work (`cudarc`) and the AshMaize ROM and
  hash (`ashmaize`).

`tests/` runs the library against `std`'s own formatting and parsing and
against a BLAKE2b known answer.
