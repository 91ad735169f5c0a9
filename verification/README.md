# cathar

The verified core of an audio-restoration toolbox, written in Verus.

`src/` holds the toolbox's decisions, layouts and file formats over integers
and bytes, each function with a contract that Verus proves:

- `buffer` — de-interleaved buffers, interleaving and its inverse, the
  pass-through denoiser;
- `edit` — trim, pad, reverse, channel selection, the kept range of silence
  stripping and the segment of voice detection;
- `analysis` — the clipping census and the restoration hints it calls for;
- `clicks`, `gaps`, `plosive`, `quiet`, `voice` — the scans that choose what the
  restoration stages repair: click spans, dropouts, isolated plosives, the
  quiet windows of a noise print, the smoothed voiced frames of voice isolation;
- `frames` — frame layouts of the short-time transforms;
- `container` — the AIFF image, the 80-bit sample-rate field, FLAC stream
  finishing, the WAV mono channel mask, the container chosen by extension;
- `aac` — AAC-LC AudioSpecificConfig bytes and the LC fallbacks for HE-AAC;
- `noise` — the xorshift generators of test noise and dither;
- `methods`, `error` — method selectors and the error type.

Floating-point signal processing is not verified: the measurements that feed
the library (levels, thresholds) are made by the caller, which hands over
marks, counts and sample positions. `app/` is the command-line program around
the library: argument handling, file and codec I/O, and the floating-point
measurements.

`tests/` exercises the library on concrete values.
