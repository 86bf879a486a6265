# mandelbrot

A Mandelbrot renderer for a Qt GUI, in two parts.

- `src/` is the verified library (Verus): the pass schedule of the renderer
  (`render::RenderJob`), the iteration budget of each pass, the colour of
  each point of a rendered row, the start of the render thread, the packing of colour channels into a
  `QRgb`, the text attached to each published image (`text`), and the image
  formats and decoded-image acceptance of the Qt image binding (`qimage`).
- `app/` is ordinary Rust around it: the `cxx`/`cxx-qt` bindings to Qt, the
  render thread with its locks and atomics, and the floating-point
  escape-time iteration and colour-map wave lengths.
- `tests/` exercises the library on concrete values.
