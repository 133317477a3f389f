# frame_selection

Keeps a selected browsing frame usable while the browser moves it between renderers.

- `src/` is the verified library.
  - `selection` holds the state of the selected frame and what the browser's events make of it;
    `selection_laws` says what holds whatever events arrive.
  - `topology` holds the frames of a tab and how they contain one another.
  - `tree` reads frame trees and puts the reports of several sessions together; `merge_laws` says
    what holds of the result.
  - `collector` collects a topology, one answer at a time.
  - `cdp` reads events, `element` holds the refs, `json` is the boundary to `serde_json`.
  - `string_map` and `text` are the ground the rest stands on.
- `app/` sends the queries to a browser.
- `tests/` runs the library.
