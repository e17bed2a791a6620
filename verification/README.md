# labelize

A verified library for drawing ZPL/EPL labels: the label model (elements, positions,
fonts), the barcode symbols (Code 128, PDF417, Aztec, Data Matrix, QR) and the drawing
of a label element by element, with contracts proved by Verus.

Layout:

- `src/images`: the RGBA image (kept in an `image::RgbaImage`), reverse printing and
  scaling.
- `src/barcodes`: the barcode encoders, each stated over its module grid or bar modules.
- `src/elements`: the label model.
- `src/drawers`: drawing elements on a canvas (boxes, circles, graphic fields,
  barcodes placed and turned), the element-by-element drawing of a label and the
  finishing of the label (centring and inversion).
- `app/`: what lies outside the verified library: drawing options in millimetres, text
  and diagonal lines (TrueType glyphs and float coordinates), PNG output and the error
  type with its messages.
- `tests/`: tests of the library.
