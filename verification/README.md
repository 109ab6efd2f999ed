# gpui_elements

The editing core of text inputs for gpui, verified with Verus.

`src/` is the library, checked by Verus:

- `text`, `unicode`: a mathematical model of UTF-8 and UTF-16 text (character
  widths, byte and UTF-16 offsets, character boundaries, splicing) and the
  conversions between byte and UTF-16 offsets.
- `segmentation`: grapheme clusters and words, from the `unicode-segmentation`
  crate behind trusted wrappers.
- `boundaries`: where the caret moves by grapheme, word, line or document.
- `storage`: the text storage of an input.
- `history`: patch-based undo/redo entries and a history in which an edit made
  soon after the last entry extends that entry, so that one undo reverts both.
- `input_state`: the state of an `Input` (selection with a direction).
- `editable`: the state of an editable text element (caret-first selection,
  notifications through `TextStateNotifier`, of which `NotificationLog` keeps a
  log that the embedding UI forwards).
- `cursor`, `caret`: cursor blinking as a state machine whose timers are run by the
  embedding UI.
- `layout`: logical lines and shaped line segments.

`tests/` exercise the library; `app/` holds the gpui glue (entities, actions, key
bindings, clipboard, timers and pixel geometry).
