# nyquist_lib

An audio-file inspector that tells a listener what a file really holds: whether a
"lossless" file carries the traces of a lossy encode, whether a 24-bit file only uses 16
bits, where its bandwidth ends, how loud and how clipped it is, and how wide its stereo
image is.

## Layout

- `src/` is the library, written in Verus. The rules that read integers, flags or text
  are here with their contracts: the decode bookkeeping and its status, the scan of
  container tags for lossy encoders, the bit-depth grid check, the clipping counts, the
  playback clock, the spectrogram's frame and pooling layout, the DR14 block layout, the
  AAC grid sweep's frame choice, the request bookkeeping of playback, and the
  lossy-history assessment (including what a failed embedded checksum does to it),
  together with the properties that hold across them.
- `app/` is the command-line program around it: decoding with `symphonia`, the
  floating-point measurements (`rustfft`, `ebur128`), the JSON report (`serde`), and the
  audio device (`rodio`).
- `tests/` exercises the library from outside.

Run the program as `nyquist-cli [--json] [--timing] <file>...`.
