# siplot

Plot widget logic with machine-checked contracts.

- `src/` is the verified library: the baseline JPEG encoder (bit packing
  with byte stuffing, canonical Huffman codes, quantization tables, the JFIF
  stream), the save-target resolution of file names, the CSV layout of curve
  data, PNG decoding to RGBA8, the items-selection dialog, snapping
  candidates, the print dialog's decisions, profile titles of aligned
  regions, the statistics table's refresh rules, axis synchronization across
  plots and the toolbar buttons. Verus proves every contract there except
  those of three small trusted wrappers, around `String::push`,
  `Path::extension` and the `png` decoder. The `lemma_*` proof functions
  state the laws the library keeps across calls.
- `app/` is ordinary Rust around the library: the floating-point stages
  (colour conversion and DCT before entropy coding, `%g` rendering of
  numbers, picking in data space, dash patterns, half-float texels) and the
  edges that talk to the clipboard, the system printers and egui.
- `tests/` exercises the library on concrete values.
