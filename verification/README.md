# rsbtc

A toy Bitcoin in Verus: proof-of-work mining, a ledger of unspent transaction
outputs, and the decisions of a node, a miner and a wallet. The library is verified
but for the wrappers of calls into outside crates, whose contracts are trusted.

## Layout

- `src/` is the library. Every function carries a contract.
  - `types/` holds transactions, blocks and the chain; `util` Merkle roots;
    `crypto` keys and signatures; `sha256` hashes; `cbor` the encoding that is
    hashed; `time` instants; `table` a map keyed by hashes; `u256`, `bytes`,
    `decimal` and `text` numbers.
  - `network` holds the messages and their frames; `node`, `miner` and `wallet`
    the decisions of the three programs; `screen` and `command` what the wallet
    shows and reads.
  - `laws/` states what holds of the library as a whole.
- `tests/` runs the library on concrete values.
- `app/` holds the programs: connections, files, the terminal.

## Consensus parameters

| Parameter | Value |
|-----------|-------|
| Initial block reward | 50 x 10^8 base units |
| Halving interval | 210 blocks |
| Target block time | 10 seconds |
| Difficulty retarget interval | 50 blocks |
| Max transactions per block | 20 |
| Max mempool transaction age | 3,600 seconds |

## Programs

```
rsbtc key_gen <name>
rsbtc tx_gen <path>
rsbtc block_gen <path>
rsbtc tx_print <path>
rsbtc block_print <path>
rsbtc node [--port PORT] [--blockchain-file FILE] [peer_address ...]
rsbtc miner --address <host:port> --public-key-file <path>
rsbtc offline_miner <block_path> <steps>
rsbtc wallet [--config <path>] [--node <host:port>] [--tui]
rsbtc wallet generate-config --output <path>
```

Messages travel as an 8-byte big-endian byte count followed by a CBOR payload.
Public keys are kept as PEM, everything else as CBOR.

## What is trusted

The functions marked `external_body` wrap calls into `ciborium`, `sha256`, `hex`,
`chrono`, `ecdsa`, `k256`, `rand`, `bigdecimal` and `uuid`. Each says in its
comment what it claims of the call.
