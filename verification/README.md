# held

The layout and scrolling core of the `held` terminal text editor, verified
with Verus.

- `src/` is the library. Its functions are proved against their contracts,
  but for a few small trusted wrappers around outside code, each with a doc
  comment saying what its contract claims: `text::graphemes`
  (unicode-segmentation's grapheme clusters, whose result is named, not
  stated) and `text::lines` (std's `str::lines`), and in `syntax` the
  lookups into syntect's `SyntaxSet` (by extension, by name, the plain-text
  syntax) and std's `Path::extension`.
  - `geometry`: positions and rectangles.
  - `encoding`: the terminal width of a string.
  - `text`: lines and grapheme clusters of a text.
  - `region`: the tree of split regions of the screen — splitting, merging,
    zooming and laying the tree out for a terminal size.
  - `region_controller`: how far the buffer shown in a region is scrolled.
  - `terminal_cache_buffer`: what each terminal cell showed last.
  - `monitor`: which buffer is shown in which region, and which region is
    selected.
  - `workspace`: the buffers of a session, those on screen and those aside.
  - `syntax`: which syntax a buffer is shown in, found by its file's
    extension, plain text otherwise.
  - `render_cache`: the renderer's states kept per buffer line.
  - `status_line`, `normal_mode`, `theme`, `handler`: what the status line
    prints, what the normal mode draws, which theme is drawn with, and the
    editor commands on layout and buffers.
- `app/` is the side that talks to the terminal (crossterm), loads themes and
  syntaxes (syntect) and reads the file system; it hands the library plain
  values.
- `tests/` runs the library on concrete inputs.
