# xmxx-companion

The online half of a Monero cold wallet. The device keeps the spend key and
never touches the network; the companion holds only the view key. It sees
incoming outputs and builds unsigned transactions, but cannot sign.

```
[ Monero daemon ] <---> [ companion ] <---> [ device ]
                                       QR codes
```

## Run

```
xmxx-companion serve --view-key xmxx-viewkey.txt --rpc https://node:18089 [--from 3500000] [--port 8787]
```

- `--view-key`: the file with `address=..` and `view_key=..` that the device exports
- `--rpc`: any Monero daemon's JSON-RPC endpoint
- `--from`: the height to start scanning from (the tip of the chain by default)

What scanning found, and how far it has come, is stored beside the view key file,
in `<file>.state.json`.

| Endpoint | Purpose |
|---|---|
| `GET /` | owned outputs, balance, the `xmr-output` payloads as QR codes |
| `GET /send?a=..&p=..` | an unsigned transaction in its envelope, as a QR code |
| `POST /broadcast` | publishes the `xmr-txsigned` text of the device |

## Layout

`src/` is the verified library. It does no I/O: it says what to ask, reads the
replies, and decides what comes next.

| Module | What it holds |
|---|---|
| `text`, `bytes`, `json`, `list` | texts, hexadecimal and variable-length integers, JSON values, lists of results |
| `config`, `http` | arguments, the view key file, routes |
| `rpc`, `outs`, `relay` | the daemon's requests and replies |
| `chain` | blocks, transactions, points and the scanner, read through monero-oxide and monero-wallet |
| `fetch`, `scannable`, `wallet`, `sync`, `state` | fetching ranges of blocks, counting RingCT outputs, owned outputs, the scan in batches, what is stored of it |
| `select`, `send` | coin selection, a payment from its request to its envelope, the signed transaction |
| `payload`, `page`, `words` | what the device is told, the pages, and the errors in words |

Functions whose names begin with `law_` state what holds of the library as a
whole: that a scan in batches finds what the range holds and that two scans find
what one does, that no smaller selection covers a payment and its fee, that
payloads tell every output, that what was stored reads back. What comes from outside crates stands behind functions
marked `external_body`, each with a comment that says what is claimed of it.

`app/` is the program around the library: the HTTP server, the connection to the
daemon, the impls of monero-interface's traits, and the calls into the wallet
core shared with the device.
