# trigobot

A Discord bot for a university server: it hands out course roles on
reactions, answers a few commands and announces new items of the courses'
RSS feeds in their channels.

The crate is split in two.

- `src/` is the verified library. Each public function carries a contract that
  Verus proves: configuration loading (`env`), the bounded announcement cache
  (`cache`), messages and their stable ordering (`message`), number parsing and
  message packing (`text`), feeds and change detection (`feed`), the choice
  between editing, publishing and skipping an announcement (`announce`), the
  bot's persistent state and its coherence laws (`state`), the decisions behind
  the commands and reaction events (`commands`, `events`), the acknowledgement
  bookkeeping between peers (`network`) and the exact text of the bot's replies
  (`render`). Calls into `rss`, `chrono`, `regex`, `html2md`, `md5` and
  `serenity` stand behind small trusted wrappers whose doc comments say what is
  assumed of them.
- `app/` is the program around it: the Discord client, HTTP fetching, the file
  watcher, persistence with serde/bincode and the main loop.

The tests under `tests/` run against the compiled library with the real outside
crates linked.
