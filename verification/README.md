# iced_css

A small CSS subset for styling iced widgets by class.

A style sheet is a list of rules `.class { name: value; ... }`. The supported
properties are `width`, `height`, `min-width`, `max-width`, `min-height`,
`max-height`, `margin` and its four sides, and `padding` and its four sides;
other properties are kept by name and have no effect. Resolving a list of
classes applies the declarations of the listed rules in sheet order, so a later
rule wins.

Layout:

- `src/` — the verified library (Verus): the token stream from cssparser
  (`lexer`), block structure (`syntax`), the grammar (`parse`) and its laws
  (`grammar`), resolution and
  its laws (`resolve`), and the decisions of the widget layer and of the
  build-time class check (`integration`). Numbers are kept as `f32` bit patterns.
- `app/` — what needs iced, syn or the file system: the `style` attribute's
  expansion, `apply`, and the `Constrained` widget whose layout computes with
  floats.
- `tests/` — tests of the library.
