# lee_traversal

The traversal of a privacy-preserving transaction: which program runs next and on what state,
which shards have to be fetched on the way, and what the transaction publishes or why it is
rejected. The library under `src/` is verified with Verus; what it takes on trust is the byte
form that `borsh` gives to instructions.

* `position`, `data`, `id_map`, `account`: accounts, their shards, and the scoped reads of them.
* `program`, `codec`, `instruction`: what programs are handed and answer, and the byte form of
  their instructions, written and read with `borsh`.
* `namespace_forwarder`: a program that writes its own shard where it is told to and chains calls.
* `witness`, `error`: witnesses of private accounts and the rules they are held to.
* `model`, `traversal`: the traversal as a state machine, first as mathematics, then as code.
* `laws`: what holds of every traversal.
* `output`, `requests`, `spending`, `bloat`: published output, ready-made transactions, what an
  attempt to spend a program-derived account comes to, and reads of accounts that strangers have
  filled.

Running programs, fetching shards, deriving addresses and nonces and sealing notes is outside work: the
traversal says what is due and takes in the result. `app/` drives it.
