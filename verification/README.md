# ui

The state and decision logic of a small Wayland desktop shell (a dock, a
status bar, an application launcher) and of its user-interface toolkit,
written in Verus with contracts that Verus proves.

## Layout

- `src/` — the verified library.
  - `text.rs` — character-level parsing and formatting shared by the rest
    (decimal and hexadecimal numerals, padding, splitting, lines, trimming).
  - `date_picker.rs`, `color.rs`, `select.rs` — state of the date picker,
    hex colours, and the select dropdown's keyboard navigation.
  - `style.rs`, `input.rs` — style enumerations, input types, key symbol
    translation.
  - `icons.rs` — icon lookup: theme paths, icon packs and the icon registry.
  - `windows.rs` — the dock's window tracker and its grouping of windows
    into one entry per application.
  - `dock.rs`, `header.rs` — dock sizes and how the dock's slots follow the
    application list; the status bar's clock text, pixel conversion, and
    which popup a click opens.
  - `apps.rs`, `launcher.rs` — desktop-entry parsing, application ordering
    and fuzzy ranking; the launcher's key handling.
  - `reactive.rs` — reactive values, the record of changed values, the
    queue of view mutations, and what a render asks of the surfaces.
  - `focus.rs`, `hit.rs`, `paint.rs`, `capture.rs`, `propagation.rs` — tab
    order and focus traps, hit testing, z-index paint order, pointer
    capture, and capture/target/bubble event propagation over an element
    tree given in pre-order.
  - `pointer.rs`, `form.rs` — hover, cursor, press, drag, drag-and-drop,
    click counting and touch bookkeeping; what clicks and keyboard
    activation do to check boxes, switches, radio buttons and buttons.
  - `svg_path.rs` — reading the commands and numbers of an SVG path's `d`
    attribute.
- `tests/` — tests of the library.
- `app/` — the programs' side: files, directories, the clock, commands,
  the shared mutation handle, and the floating-point parts (animation,
  scrolling, pointer distances and slider values, path coordinates).
