# batch_bench

A benchmark that looks for the batch size and the concurrency with which an
Ethereum JSON-RPC node answers fastest.  It asks for random blocks with
`eth_getBlockByNumber`, then for the receipts of their transactions with
`eth_getTransactionReceipt`, every batch size from the whole list down to
one, and writes the mean time of each, in seconds, into a CSV file per
stage.

Run: `RUST_LOG=info batch_bench node_end_point block_num_total [cnt]`.

## Layout

- `src/` is the verified library (Verus):
  - `query.rs`: the node address, the cutting of the items into batches, the
    sweep over batch sizes as a state machine, the random block numbers;
  - `timing.rs`: the means of the runs, compared exactly as fractions, and
    the search for the fastest and slowest batch size;
  - `eth_request.rs`: the bodies of the JSON-RPC batches and the reading of
    the `eth_blockNumber` answer;
  - `extention.rs`: the transaction hashes and the gas read from batch answers;
  - `json.rs`: the JSON model and the call into `serde_json`;
  - `hex.rs`: numbers of base 16, both ways;
  - `write_csv.rs`: the name and the header of the timing files.
- `app/` is the program: arguments, HTTP with `reqwest`, threads, the clock,
  the CSV files, logging.
- `tests/` runs the library on concrete values.
