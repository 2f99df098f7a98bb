# ASCII Art Studio — verified core

The conversion core of ASCII Art Studio (images, video frames and webcam
frames to ASCII art, virtual-camera output, the Axium script bridge, the
updater and the installer), written in Verus with its behaviour stated in
`requires`/`ensures` contracts and proved.

Layout:

- `src/` — the verified library:
  - `text` — character-sequence helpers (decimal/hex digits, whitespace,
    `u32` parsing);
  - `ascii` — palettes, gray level to palette index, text/HTML output;
  - `webcam` — compiled webcam settings, frame to text, frame to a glyph
    image, frame-size checks, JPEG encoding;
  - `vcam` — virtual-camera frame size and aspect-fit of frames, finding
    the backends;
  - `mjpeg` — the MJPEG stream's frame rate and framing;
  - `camera` — preview frames of the native camera (shrinking, base64);
  - `scripting`, `store` — the script bridge (console capture, library
    lookup, diagnostics, pixel arrays) and script file names;
  - `video`, `ffmpeg` — ffmpeg arguments, frame names, progress, and the
    ffmpeg installation state machine;
  - `version`, `installer`, `messages` — updates, installer texts, UI
    messages.
- `tests/` — tests of the library.
- `app/` — the program around it: floating-point image processing, font
  rendering, ffmpeg and HTTP, the engine FFI, file and network I/O.
