# crab_reader

The library behind a small desktop RSS reader, written in Verus.

- `src/source.rs` — channels and items as the reader takes them from an RSS
  document (`read_channel`, through the `rss` crate).
- `src/date.rs` — publication dates, read with chrono's parsers in a fixed
  order (`parse_date`).
- `src/feed.rs` — stories and subscriptions: converting items to stories,
  ingesting a channel into the `Manager`, listing subscriptions by name and
  stories newest first, and the laws of ingesting.
- `src/menu.rs` — menu entry identifiers, and the OPML documents of an
  export or import (`export_document`, `import_urls`, through the `opml`
  crate).
- `src/layout.rs` — the submenus of the application menu and their entries
  (`menu_layout`).
- `src/entries.rs`, `src/text.rs` — keyed lists read as maps, and comparison
  of texts by characters.
- `app/` — the Tauri application around the library: commands, the menu
  built from `menu_layout`, the file dialogs, fetching over HTTP and the
  subscriptions file.
