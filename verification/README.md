# cucumber

Theming for Bitwig Studio: the palette colors of the application live as
bytecode constants in the classes of its JAR. This library finds them,
reads them into a theme, and writes a theme back by rewriting the classes.
It is written in Verus: the library's functions are verified against
their contracts, except for a few small trusted wrappers around calls into
std, Krakatau, egui and rand, whose contracts are stated but not proved.

## Layout

- `src/` — the verified library.
  - `bytes`, `classfile`, `layout`, `parse`: the class-file model, its
    encoding and a decoder that reads exactly the encodings of classes.
  - `introspection`, `scanner`, `methods`, `extractor`, `invocations`,
    `goodies`: finding the palette methods, the named color definitions,
    the raw color constants and the named color getter in a JAR.
  - `recolor`, `legacy`, `colorize`, `randomizer`, `assembly`, `writer`:
    rewriting color definitions, reassembling classes through Krakatau,
    and writing a theme into the entries of a JAR.
  - `editor`, `commands`: what the theme editor does with the events of
    its background work and with the user's commands.
  - `types`, `colors`, `exchange`, `ask`, `text`, `mutf8`, `chars`,
    `bytecode`: theme types, reading Ableton theme colors, reading the
    text of constant pool entries, and helpers.
- `tests/` — tests of the library on hand-built classes.
- `app/` — a command line front end: reads and writes JAR files and JSON
  themes, converts float color components, and reads Ableton themes.

Writing a theme rewrites only the classes that define the replaced
colors. The application's own integrity check of its JAR is left as it is:
this library does not alter it.
