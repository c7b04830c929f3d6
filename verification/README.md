# codex-usage

Usage accounting for Codex session logs: how many tokens were used by day, by month or by session,
by which models, and what they cost. The rules are a verified Verus library; a thin program around it
reads logs and caches, fetches prices and prints reports.

## Usage

```bash
codex-usage                      # usage by day
codex-usage daily --split-by-model
codex-usage monthly --json
codex-usage sessions
codex-usage daily --since 20260301 --until 20260306
codex-usage daily --timezone UTC
codex-usage daily --codex-home /path/to/.codex
codex-usage --refresh-cache
```

## Layout

- `src/session_log/`: the lines of logs (`wire`), what a fork repeats of its parent (`fork`), reading
  the usage of a session (`parser`), which logs are read and which come from the cache (`scanner`),
  where the parents of forks are found (`parents`), lists of logs by day (`manifest`), and what holds
  of all of this (`laws`, `scan_laws`).
- `src/report/`: usage by period, by session (`sessions`) and put together from parts (`merge`), the
  sums that it is made of (`sums`), and what holds of reports (`laws`, `part_laws`, `split_laws`).
- `src/pricing/`: which price a model has, and when a price list is out of date.
- `src/cli/`: arguments, tables, JSON payloads and warnings.
- `src/cache/`: what is written to cache files (`records`) and read back from them.
- `src/types.rs`, `src/text.rs`, `src/text_map.rs`, `src/ordering.rs`, `src/calendar.rs`: what the
  rest is built on.
- `app/`: the program: files, network, floating-point costs, the terminal.

Counts are numbers of 64 bits. A function that adds them up requires that the sums fit; its companion
whose name starts with `try_` tests that and says so in its result.
