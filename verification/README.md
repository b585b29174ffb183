# send_to_eth_fees

A verified planner for the send-to-Ethereum fee scenarios of the Gravity Bridge
test runner. Given the chain's minimum fee (in basis points), it derives the fees
that sends should succeed and fail with, queues the sends for the IBC token and
each ERC20 token, packs the resulting `MsgSendToEth` messages into transactions,
numbers them for sequential submission, and tallies the fees a run is expected to
collect.

- `src/` is the Verus library: `amount` (256-bit amounts, computed through
  `num256`), `coin`, `tally` (fees per denomination), `fees` (minimum fee and test
  fees), `model` (sums and repetitions the contracts are stated with), `sends`
  (queueing and the run's sends and tallies), `txs` (packing messages into
  transactions), `msgs`, `expect` (the fee tallies of the messages actually sent), `plan` (the three runs and transaction numbering) and
  `proposal` (governance proposal contents).
- `app/` is the networked half: it queries the chain, signs and broadcasts what
  the library plans, and drives governance through `deep_space` and the bridge's
  own crates.
- `tests/` runs the library on concrete values.
