# mofi

A keyboard launcher for applications, the clipboard history, the password store, files and
themes, with a window switcher. The logic is a verified library; a thin program around it
does the drawing and the input and output.

- `src/` is the library. Every function states in its contract what it returns or changes,
  and Verus proves it.
  - `text`, `paths`, `order`, `measure`: strings, paths, stable rankings, sizes.
  - `apps`, `pass`, `clipboard`, `files`, `frecency`, `launcher`: what can be listed, and how
    it is searched and ranked.
  - `config`, `glyphs`, `highlight`, `fonts`, `pictures`, `tiff`, `tray`: themes, icons, pictures and
    what is drawn.
  - `ui`, `session`, `frame`, `explorer`: the state of the window and what each event does
    to it.
  - `ipc`, `cli`: what daemon and clients say to each other, and the command line.
  - `layer`, `switcher`: the Wayland surface and the macOS window switcher.
- `tests/` runs the library on concrete values.
- `app/` holds the program: sockets, files, processes, the window and the tray.

The functions named `law_...` state what holds of the library as a whole: that every item
which matches is found, that Escape in the theme picker brings back the earlier theme, that
what a client sends is what the daemon gets, and so on.

What is not proved is marked `external_body` or `assume_specification`: calls into
`fuzzy-matcher`, `image`, `serde_json` and the standard library, each with a comment that
says what is taken for granted of it.
