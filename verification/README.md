# bingo_todo

A daily "bingo card" to-do tracker. Each domain of work (node operations,
server maintenance, ...) has a colour and a template of tasks; opening a card
for a domain copies its template, and the day's card is then edited, tagged,
synced with the template, archived or exported. A performance page sums the
completed tasks and draws each domain's completion over time.

The library under `src/` holds the data, its model, and every decision the
window makes, each with a contract proved by Verus:

- `model` — tasks, cards, domains, the saved data, and their mathematical views;
- `text` — joining texts, trimming white space, file-safe names, decimal numbers;
- `lookup` — the first entry of a keyed list with a given key;
- `domains` — the starting domains, lookup by key, accent colours;
- `cards` — one card: progress, label, export name, edits, template sync;
- `state` — the window's state and what each user action does to it;
- `stats` — task totals and per-domain counts;
- `series` — the completion graph's series, grouped and stably time-sorted;
- `laws` — properties that span operations (sync idempotence, undo pairs,
  conservation of cards on archiving, read-after-write of graph visibility,
  the graph showing each card once, card tags staying clean);
- `outside` — the calls into `uuid` and `chrono` taken on trust.

`app/` is the egui window: it loads and saves the JSON data file, draws the
pages, and computes the percentages, which are floating point.
