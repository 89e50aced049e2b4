# cracked_lib

Contribution-room bookkeeping for Canadian RRSP, TFSA and FHSA accounts,
with a git-plus-rclone backup of the data directory. Money is integer cents.

- `src/` — the verified library (Verus):
  - `order` — the stable by-year ordering the engines process years in;
  - `rrsp`, `tfsa`, `fhsa` — the rule engines, each with its exact per-row
    contract, an overflow-checked entry point and its laws;
  - `db` — the stored records and their shaping into per-year engine input;
  - `backup` — the backup configuration and the state machine that decides
    which command a backup runs next and what it reports.
- `tests/` — tests of the library.
- `app/` — the SQLite store, the runner that executes backup commands, and
  the desktop command surface.
