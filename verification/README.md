# vertical_tabs

The layout logic of the vertical tab column of a terminal client shell,
verified with Verus.

- `src/geometry.rs`: terminal rectangles (`Rect`) with the clamping
  constructor and saturating edges that ratatui uses.
- `src/text.rs`: wrapping grapheme clusters (`wrap_grapheme_lines`) and tab
  titles (`wrapped_title_lines`) into lines for a given width, with its
  specification (`wrap_graphemes`), and the Unicode white space test.
- `src/title_laws.rs`: what wrapping keeps: at least one line, whole
  graphemes, lines placed in the title in order with only white space
  between them, no white space at line ends, every visible character in order,
  no empty line, a bound on the line count, and, where white space stands in
  graphemes of its own and widths add up, lines that fit and that rewrap to
  themselves.
- `src/model.rs`: the shell state the column reads, and the tabs of the
  focused space.
- `src/section.rs`: splitting the sidebar between the spaces list and the tab
  section.
- `src/column.rs`: laying out the tab list before and after scrolling: body,
  wrapped titles, scrollbar, tab heights, stacked rows, hit areas, drag
  indicator.
- `src/layout_laws.rs`: how rows stack inside the body, how the section
  split partitions the area, which tabs are listed.
- `app/`: drawing into a ratatui buffer, with the shell's own pieces
  (styles, icons, text writer, list scroller) supplied by the host.
