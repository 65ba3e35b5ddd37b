# shimeji_gui

A desktop front end for `shimejictl`, the control tool of the wl_shimeji
desktop mascots, with its logic verified by Verus.

- `src/` is the verified library: the arguments of each `shimejictl` request,
  how its output is read (`prototypes list`, `list` with `#<id> <name>` lines),
  the errors and their messages, and the status and log lines the window shows.
  Laws in `src/listing.rs` and `src/text.rs` state that listings written from
  clean names read back unchanged and that reading is stable.
- `app/` is the GTK program: it runs `shimejictl` and builds the window, and
  asks the library what each outcome means.
- `tests/` runs the library on concrete outputs.
