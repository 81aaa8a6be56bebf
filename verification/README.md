# umbra

The logic of a search launcher for Windows, written in Verus.  The
functions under `src/` carry contracts that Verus proves, except a few
trusted calls into the standard library (case mapping, sorting, the clock)
and the `png` encoder, whose doc comments say what is assumed of them.
Reads of values other threads change (the search counter, the clock) are
handed to verified functions that decide on the value read.

- `text` — character sequences, comparisons, ordering of texts, and the
  standard-library text operations the rest relies on.
- `hotkey` — reading hotkey texts into virtual-key definitions, and the
  keyboard hook's decision for each key event.
- `config` — the settings record, its defaults, and how values are cleaned
  before they are stored.
- `index` — index entries: classification by extension, display names,
  result items.
- `search` — ranking entries against a query: exact, prefix and substring
  matches of the query and its keyboard-layout and transliteration
  variants, typo-tolerant matches, the ordered and bounded result list.
- `pins` — the pinned list: add, remove, reorder.
- `icons` — the bounded least-recently-used icon cache, which files get an
  icon, and turning a rendered bitmap into PNG bytes.
- `indexer` — which walked files become entries and how they are named,
  drive and folder filters, registry values turned into program paths,
  environment references, one entry per path, merging a fresh scan.
- `commands` — launch checks, process names to kill, power commands.

`app/` is the desktop program around the library: windows and events,
files on disk, folder walks, the registry, the keyboard hook and the icon
drawing calls.
