# blurred

A small desktop viewer for sensitive text: the text hides itself when the
window loses the focus and can show again when the window is focused.

The logic lives in the verified library under `src/`:

- `document`: what a file's contents become on screen. Plain text is shown as
  it is; RTF is reduced to its visible text by a small reader whose result is
  specified character by character (`rtf_scan`) and then cleaned line by line
  (`tidy_rtf_text`).
- `state`: the show/hide state machine (`AppState::apply`), the settings that
  are kept between runs and the file history.
- `menu`: the entries of the menu bar and the labels of the file history.
- `paths`: path comparison by components, file and folder names. Paths are
  held as the bytes of the operating system's path string (names that are
  not UTF-8 are kept as they are) and read by the Unix rules (`/` is the
  only separator, no drive or UNC prefixes); on Windows the history and its
  menu labels do not follow the standard library's reading of `\` and `C:`.
- `input`: the keyboard shortcuts.
- `text`: trimming, ASCII case folding and character helpers.
- `laws`: properties of the whole, proved over the models above.

`app/` holds the window (FLTK), reading files, running the converter that
macOS provides for RTF, and the JSON settings file.
