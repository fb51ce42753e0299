# zensally

Face detection and saliency toolkit for content-aware cropping, with its
integer core verified by Verus.

- `src/` — the verified library:
  - `image`: pixel formats, borrowed image buffers (`ImageRef::new` validates
    the buffer length), crop rectangles.
  - `nms`: greedy suppression over a precomputed overlap table — the decision
    step of non-maximum suppression — with its characterization, uniqueness,
    first-kept and idempotence laws.
  - `anchors`: anchor grids for BlazeFace-320 and MediaPipe BlazeFace, with
    their count and ordering laws.
  - `preprocess`: letterbox placement, bilinear neighbour indices, in-bounds
    source addressing and planar output layout.
  - `model`: gzip model unpacking (ISIZE trailer, inflation through zenflate).
  - `plugin`: plugin file names, the discovery order, bare-name detection.
  - `outputs`: finding a named output slot of a model graph.
- `app/` — detectors built on tract, floating-point preprocessing and
  decoding, serializable records, smart-crop glue and plugin probing.
- `tests/` — tests of the library.
