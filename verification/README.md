# x4_trading

A trading assistant for X4: Foundations. It reads the game's CAT/DAT archives and a
save file, and serves a small web API: sectors with their stations and trade offers,
the player's ships, stations and crew, sector maps, and ware names.

The library under `src/` is written in Verus and verified: every public function states
what it returns in its contract, and the properties that span several calls are proved
as `law_*` proof functions.

- `xml` turns a text into the events of quick-xml's pull parser; `text`, `numbers`,
  `strmap`, `sorting` and `patterns` hold the string, number, map, sorting and regex
  facts the rest is stated with.
- `parsers` reads CAT indexes, language files and saves (sectors, stations and their
  positions, trade offers, the pilot, the player's assets and crew, sector maps).
- `extractors` collects names and ware and ship facts from the game files.
- `api` computes what each API endpoint answers.

`app/` is the server around the library: file access, gzip, the HTTP routes, JSON, and
the conversion of coordinate and price texts to floating-point numbers.

`tests/` runs the library on small documents.
