# pool

A lottery-style Bitcoin mining pool that speaks Stratum V2. Every miner names its own
payout address: a block it finds pays the whole subsidy and fees to that address.

- `src/` is the library: everything the pool decides and computes, verified with Verus.
  `jobs`, `coinbase` and `merkle` build the work, `stratum_sv2` and `messages` answer
  miners, `shares` checks what they find, `node_ipc`, `template_client` and `rpc` read
  templates, `noise_connection` drives handshakes and encrypts and decrypts frames, `db`
  batches what is written, `config` and `keys` read and make settings. Public proof
  functions state what holds of the whole.
- `app/` is the program: sockets, the database, the node. `pool keygen` prints a key
  pair for the environment; without an argument the pool runs.
- `tests/` runs the library on concrete values.

Functions marked `external_body` call other crates; their contracts say what is relied on.

The program is set up by `RPC_URL`, `RPC_USER`, `RPC_PASS`, `SV2_LISTEN_ADDR`,
`POOL_ADDRESS`, `POOL_AUTHORITY_PUBLIC_KEY` and `POOL_AUTHORITY_PRIVATE_KEY`.
`TEMPLATE_SOURCE` says where templates come from and blocks go: `provider` (the default; a
template provider at `TP_ADDRESS` whose key lies under `BITCOIN_DATADIR`), `ipc` (the
node's socket `BITCOIN_IPC_SOCKET`) or `rpc` (the node's RPC interface).
