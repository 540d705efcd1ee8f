# balatui

A terminal mod manager for Balatro. The crate is split in two:

- `src/` is the library, verified with Verus: merging the mod index catalog with
  the Thunderstore catalog (`catalog`), install decisions such as the folder a
  download goes to (`install`), installed-mod metadata handling (`mods`), ordering
  by name (`order`), search (`search`), what the lists and panels show (`listing`,
  `quick`), widget state (`components`), the tabs' state machines and the reinstall
  plan (`flow`), the message of the day (`motd`) and text
  helpers (`text`).
- `app/` is the program around it: command line, terminal loop and rendering,
  network downloads, archives and the file system.

Tests of the library are under `tests/`.
