# ubl

The core of the UBL runtime as a verified library: canonical JSON and content
identifiers, the parse → policy → render engine with its cascading policies,
chained and signed receipts (write-ahead, transition, write-final), the
HTTP service's bookkeeping (authentication, CORS, idempotency, key rings,
audit reports, error bodies) and the ledger's layouts.

- `src/` — the library, verified with Verus. Every public function carries a
  contract over mathematical models (`Json`, `Seq`, views); laws that relate
  several functions are public proof functions (`lemma_*`). Calls into the
  hashing, signing, encoding and Unicode crates sit behind small trusted
  wrappers in `src/digest.rs`, each with a documented claim.
- `tests/` — tests of the library on concrete values.
- `app/` — the programs around it: the HTTP service (axum), the file-system
  ledger, the `ubl` and `ublx` command-line tools and the TDLN service. They
  read requests and files, call the library, and send its answers.
