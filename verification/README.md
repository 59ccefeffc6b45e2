# courier

A personal news digest service: it fetches stories from Hacker News, Reddit
and RSS/Atom feeds, has a language model summarize them, and pushes the
digest to Telegram, Feishu and email on cron schedules, with a chat mode and
a small dashboard API.

## Layout

- `src/` — the verified library (Verus). Every public function carries a
  contract; the laws of the library are public proof functions next to the
  code they speak of.
  - `text` — character-level string helpers (lines, trimming, UTF-8 byte
    lengths, decimal rendering).
  - `sources` — the article type; Hacker News items and ordering; RSS/Atom
    feed reading and summary cleaning; Reddit feeds.
  - `cluster` — title similarity, URL canonicalization and cross-source
    clustering of ranked articles.
  - `reranker` — ranked articles and their stable descending order.
  - `channels` — Telegram chunking, Feishu markdown adaptation, email sender
    address and HTML page.
  - `chat` — the chat bot's commands and replies.
  - `scheduler` — run history, the job table, retry schedule and digest
    listing.
  - `api` — dashboard authorization, responses and configuration edits.
  - `config_doc` — the configuration file as a TOML tree: which tables an
    edit reaches, what it sets there, and the values read back out of it.
  - `config`, `setup`, `db` — configuration types, wiring of sources,
    channels and tasks, and the history table's statements.
- `app/` — the program: HTTP, SMTP, SQLite, the cron scheduler, the language
  model client, logging, and the floating-point reranking signals.
- `tests/` — tests of the library.
