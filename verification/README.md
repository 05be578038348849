# Focusless Edit

A desktop photo editor: non-destructive edits of one photo at a time, kept in
`.focusless` project files.

- `src/` is the library, verified with Verus: the document and its history
  (`document`), binary floating-point numbers and what their rounding does
  (`number`), the stages, the geometry and the caches of rendering (`render`),
  project files and fingerprints of photos (`storage`), and an editing session
  from opening a photo to exporting it (`session`).
- `tests/` runs the library on concrete values.
- `app/` is the program around it: the window, the image engine on libvips, the
  two worker threads, and the files.

Numbers are held as the bits of IEEE 754 formats, so that every contract says
exactly which number comes out. The names of the laws that hold of the library
as a whole read as sentences; they stand in the files whose names end in
`laws`.
