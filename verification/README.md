# rustitch

Reading embroidery machine files (PES, DST, EXP, JEF, VP3) into stitch
commands, following the commands into drawn segments with absolute
coordinates, ordering the segments for drawing, and encoding thumbnails as
PNG. The library's own logic is verified by Verus against a specification of
each file format.

A few calls into other code are trusted rather than proved; their contracts
state what is assumed of them:

- PNG encoding (`png::Encoder`), in `render`;
- UTF-8 decoding (`str::from_utf8`) and trimming (`str::trim`) of the PEC
  label, in `pes::pec`;
- splitting the extension off a path (`Path::extension`), in `format`.

- `src/` is the verified library: one module per format (`pes`, `dst`, `exp`,
  `jef`, `vp3`), `resolve` (commands to segments and bounding box), `format`
  (format detection), `render` (straight-alpha conversion, drawing order and
  PNG encoding), `palette`, `text` (decimal numbers and white space), and
  `laws` (properties proved of the functions together).
- `app/` is the `stitch-peek` command-line thumbnailer and the rasteriser
  (tiny-skia, floating point), which stays outside the verified part.
- `tests/` holds the tests.
