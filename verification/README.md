# loob

loob orders a playlist so that each track flows into the next: it analyses
the audio of every track, turns the analyses into a matrix of directed
transition costs and searches for an ordering whose worst transition is
small.

The library under `src/` is written in Verus and carries the rules of the
program with their proofs:

- `optim`: cost-matrix validation, bottleneck costs, nearest-neighbour
  ordering from every start, segment reversal and the median edge costs;
- `analysis`: the chunk and frame timeline of the audio analysis;
- `features`: the feature cache's keys, file names, checks and request steps;
- `youtube`, `audio_cache`, `cache_flow`: URL identities, error
  classification, the YouTube manifest and audio caches' decisions, and the
  step functions that drive their requests (what a request does next, given
  the policy and what the last lookup, download or hash found);
- `media`, `server`, `paths`, `text`: byte ranges, content hashing, media
  tokens and URLs,
  the loopback server's responses and its registry of published media,
  path and text helpers;
- `progress`, `desktop`: progress reporting and the desktop commands'
  decisions.

Costs are held as `u64` keys that order as the floating-point costs do.

`app/` is the command-line program around the library: argument handling,
files, processes, audio decoding, the floating-point feature arithmetic and
simulated annealing. `tests/` exercises the library from outside.
