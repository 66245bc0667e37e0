# Font-tuner

Font-tuner draws the text of Windows programs with FreeType, after a profile
that says how: gamma, contrast, weight, hinting, antialiasing. A tray program
sets a message hook, by which Windows maps the core into every program with
messages; there the core takes over the text calls of GDI, DirectWrite and
Direct2D.

What all of this decides and computes is the library in `src/`, written and
proved in Verus. It does no I/O and holds no floating-point number: lengths are
fixed-point integers.

| module | what it holds |
| --- | --- |
| `text`, `utf16` | characters, numerals, order without case; UTF-16 |
| `numbers`, `wide` | rounding, extremes; 256-bit products |
| `config`, `profile` | profiles and the tray's settings, read from INI text |
| `filter` | the tables of a profile, and blending in linear light |
| `canvas`, `layout`, `render` | pictures, advances, drawing a run onto a picture |
| `coverage` | a run as a coverage texture |
| `ft`, `glyphs`, `faces` | load flags, the glyph cache, the open faces |
| `families`, `fonts` | family names in a font file, remembered font objects |
| `gdi`, `gdi_metrics`, `xform` | `ExtTextOut`, padded metrics, device mapping |
| `dwrite`, `d2d`, `geometry` | glyph runs, their analyses, masks and hooks |
| `bootstrap`, `stale` | where the core is, and who holds an old one |
| `tray`, `custom`, `sysfont`, `lang` | the menu, the dialog, the shell's fonts, texts |
| `process`, `probe`, `version` | process lists, reports on drawn text, version resources |

`app/` is the program around the library: the calls of Windows and FreeType,
and the little arithmetic that needs floating point. `tests/` runs the library.
