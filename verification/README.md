# slate

The verified core of the Slate board: the decisions, parsers and state
machines behind the board canvas, its web portals, its clipboard and its
Enscape host, written in Verus with their contracts proved.

- `src/` is the library. Each module states what its functions return over
  mathematical models (`Seq`, `Set`, spec functions) and proves it:
  clipboard bitmaps and paths (`clipboard`, `clipboard_bitmap`), web portal
  states, consent, the webview pool, the per-frame pump, pointer routing to a
  focused page, page inputs and card pictures
  (`board_web`, `web_consent`, `web_pool`, `web_pump`, `web_links`, `board_web_stills`,
  `board_web_win`), drops from other applications (`external_drop`), trim,
  video strips and decoder events, snapping and keyboard decisions (`board_trim`,
  `board_video`, `board_snap`, `dispatch`), dates (`civil_date`), and the
  Enscape refusals (`enscape_host`). Calls into the `image` crate and into
  `std` that Verus has no specification for stand behind small trusted
  wrappers whose doc comments say what is assumed.
- `app/` is the unverified edge: files, clocks, threads and the serialised
  consent store, handing plain values to the library.
- `tests/` runs the library on concrete values.
