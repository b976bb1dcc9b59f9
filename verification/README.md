# sail_aarch64_oracle

The verified core of an in-process golden-reference AArch64 CPU. The CPU is an
instance of the Sail `arm-v9.4-a` model, reached through a handle and a fixed set
of calls. This library decides which calls an operation consists of and what its
answers amount to; `app/` makes the calls on the real model.

- `src/calls.rs`: the calls, and the sequences of them that operations consist of
- `src/oracle.rs`: the operations. A writing operation returns its calls; a
  reading operation takes the function that makes a call
- `src/bytes.rs`: little-endian words
- `src/lock.rs`: taking the lock around the model
- `src/machine.rs`: a mathematical model of what the calls mean
- `src/laws.rs`: the laws of the library, proved over that model
- `tests/`: the exact calls, and whole scenarios on a stand-in for the model
- `app/`: the operations with the Sail model behind them
