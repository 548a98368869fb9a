# constantinople

The decisions of a blockchain deployment's binaries, verified with Verus.

- `src/deploy` plans ports and configurations of local and remote deployments.
- `src/operator` meters and authorizes the payment-channel operator.
- `src/spammer` and `src/tx` schedule load tests.
- `src/validator` captures, recovers, budgets and uploads finalized blocks,
  relays transaction batches and plans a node's start.
- `src/text`, `src/codec`, `src/lex`, `src/ordered`, `src/keys` and `src/random`
  hold what these share.

`tests` runs the library, and `app` holds the command line, the HTTP servers and
the storage around it.
