# Pythia

Pythia publishes data to Ethereum-family smart contracts on a schedule or when
a price moves: users subscribe a contract method, pay for the gas from a
deposited balance, and the service calls the method through a multicall
contract.

- `src/` is the verified library: the state and its tables (chains, balances,
  subscriptions, withdraw requests, whitelist, timer), every operation on them
  with its contract, the publisher's accounting, due checks and round plan, the ABI and
  message texts, the encoding of method and multicall calls and the decoding
  of what the multicall contract reports, addresses, signatures, metrics, and the laws in `laws.rs`.
- `tests/` runs the library on concrete values.
- `app/` is the canister: endpoints, stable memory, timers, and the calls to
  other canisters and to the chains' nodes. It hands plain values to the
  library and sends what the library decides.

Notes on the publisher round:

- A failed publication of one subscription is recorded by
  `jobs::publisher::record_publish_failures`, which the canister calls once per
  round with every subscription whose call could not be made.
- A round that fails for a whole chain is only logged. There is no per-chain
  error counter: `Chains` has no such field, and no operation to raise or reset
  one exists in the service.
- `post_upgrade` restores the state and metrics in the layout that
  `pre_upgrade` of this canister writes.
- The platform timer's id is kept in the state as the decimal key under which
  the canister holds the `TimerId`: `TimerId` has no serde form in the
  `ic-cdk-timers` version used here.
