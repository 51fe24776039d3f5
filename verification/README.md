# vloom

A screen-to-camera file transfer format. A payload (optionally wrapped with
its file name and MIME type) gets a CRC-32 in front, is fountain-coded with
RaptorQ, and every packet travels in one CRC-protected block of a grid of
black/white or four-level gray cells. A receiver keeps whatever blocks it
reads intact, frame after frame, until the payload can be rebuilt.

The library (`src/`) is verified with Verus:

- `crc`, `bits`, `header`, `payload`: CRC-32, bit packing, the frame header
  and the end-to-end framings, with their round trips and the proof that a
  single changed byte is always caught.
- `layout`, `pattern`, `frame`: the cell grid, the fixed patterns, drawing a
  frame and reading it back on the ideal channel.
- `roundtrip`, `locality`, `filler`: reading a drawn frame gives back its
  header and payloads; damage between the strips costs only the blocks it
  touches; zero-filled blocks read as missing.
- `fountain`, `sender`, `receiver`, `transfer`: the RaptorQ calls (behind
  trusted wrappers), the sender's loop of frames, the receiver's decoder and
  packet handling (a decoder fed the sender's packets ends with the payload),
  and what a whole transfer delivers.
- `scan`, `markers`, `tracking`: the plain-value parts of camera scanning
  (known cells, candidate layouts, rotations, the integral image of the
  marker search) and the receiver's choice, frame after frame, of which
  rotation and grid to try and what to remember of an attempt that read.

`app/` holds the bindings for browsers, Flutter and Python, and the camera
image processing that works in floating point (projective fitting, bilinear
sampling, the Otsu threshold, marker scoring).
