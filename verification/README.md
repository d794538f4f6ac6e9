# addmul_precompile

A verified model of two zkVM precompiles:

- **AddMul** — a syscall that computes `p * q + r * s`, where `p` and `q` are words at the
  syscall's two address arguments and `r`, `s` are the registers x12 and x13, and writes the
  result over `p`. The AddMul chip turns the recorded events into trace rows (padded to a
  power-of-two height, with the row index as nonce), states the polynomial constraints on
  those rows, and lists the memory accesses and syscall receipt each row sends to the
  shared buses. The constraints include the checks on the columns of each memory access
  (a boolean `compare_clk`, the same shard where it is set, and the split of the time gap
  into a 16-bit and an 8-bit limb). What the other chips do with those messages (the memory
  and syscall arguments that balance them, and the byte table that range-checks the limbs)
  is not modelled.
- **Inner product** — the chip that turns inner-product events into rows of a trace of fixed
  height 1024, with the reads of up to 351 words of each vector and their inner product;
  likewise its row constraints and the interactions each row sends.

Layout:

- `src/` — the library, verified with Verus: `memory` (records and memory columns),
  `events`, `record` (the execution record), `runtime` (memory and clock as a syscall sees
  them), `syscall` (the AddMul syscall), `addmul` and `inner_product` (the chips), `utils`
  (padding), `field` (constraints over a prime field of 32-bit order).
- `tests/` — tests of the library on concrete values.
- `app/` — serializable copies of the events, and the conversion of traces into
  field-element matrices for the prover.
