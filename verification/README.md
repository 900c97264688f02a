# balchug

The verified core of Balchug, a toolkit for scroll-driven animations: an
editor places pictures and text on a timeline, a backend packs the pictures
into a texture atlas and exports the project as a web bundle, and an engine
plays it back.

- `src/` is the library, written in Verus. Every function carries a
  contract that Verus proves: atlas packing and power-of-two rounding
  (`atlas_builder`, over the `binpack2d` packer in `binpack`), image
  decoding (`image_decode`, over the `image` crate), glyph atlas assembly
  (`font`), font subsetting (`font_subset`, over `allsorts`), the
  generated source and page of an exported project (`codegen`, `export`),
  markup and alphabet extraction for texts (`text`), colours and project
  settings (`api`, `settings`), easing labels (`sprite`), timeline selection
  (`editor`) and the frame counter (`fps`).
- `app/` is the backend program around the library: the HTTP service, file
  I/O, image resizing and WebP encoding, JSON copies of the library's types, and the floating-point
  geometry of the animation (interpolation, inertia, text measurement).
- `tests/` exercises the library on concrete values.
