# micro_agent

A small chat agent that runs on a Raspberry Pi: users talk to it over
Telegram, backslash commands (`\help`, `\current`, `\list`, `\shutdown`)
are answered at once, and other messages become jobs that go through a
pipeline (`Embed` → `Interpret` → `Call` → `Respond`) one job at a time,
in the order they arrived.

- `src/` is the verified library (Verus): command recognition
  (`command`), jobs (`job`), the job store's tables and the scheduler on
  them (`table`, `store`, `scheduler`), prompt handling for the language
  model (`inference`), tool-search text and ranking (`tools`), the main
  loop's decisions (`agent`), text helpers (`text`), and properties that
  hold across operations (`laws`).
- `app/` is the program around it: the Telegram connection, the redb
  database that holds the job store, the fastembed embedding model, and the
  llama.cpp model engine.
- `tests/` runs the library on concrete values.
