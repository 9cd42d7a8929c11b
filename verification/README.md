# mezon_ui

View-model logic of the Mezon desktop client, written in Verus and proved
against its contracts.

- `src/` — the verified library. Each module models one part of the user
  interface as plain data with a contract on every public function:
  `command_palette` (search, ordering, sections), `text_area` and
  `input_state` (editing through the platform's input handler, undo and
  redo), `date_picker` and `gallery` (calendar navigation, the sent-date
  filter), `image_viewer` (the playlist and its paging), `image_cache`
  (decode plans and the LRU ledger), `pagination`, `otp`, `invite`,
  `context_menu`, `channel_row`, `clan_assets`, `profile_popup`, and the
  text helpers in `chars`, `text_edit` and `formatting`.
- `tests/` — tests of the library on concrete values.
- `app/` — what stays outside the proofs: clocks, floating-point layout and
  playback times, JSON decoding of invite contacts, chrono conversions, and
  the owner-side steps of the text fields whose decisions come from
  callbacks.
